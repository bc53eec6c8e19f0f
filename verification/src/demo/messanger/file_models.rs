use vstd::prelude::*;

verus! {

/// What the messenger tells the other side of a file it offers.
#[derive(Debug)]
pub struct FileMetadata {
    pub file_name: String,
    pub file_mime: Option<String>,
    pub file_size_in_bytes: u32,
}

/// A file offered or announced, with where it lives on this side, once known.
#[derive(Debug)]
pub struct FileInfo {
    pub metadata: FileMetadata,
    pub src: Option<String>,
}

fn clone_optional_string(s: &Option<String>) -> (r: Option<String>)
    ensures
        r == *s,
{
    match s {
        Some(text) => Some(text.clone()),
        None => None,
    }
}

impl Clone for FileMetadata {
    fn clone(&self) -> (r: Self)
        ensures
            r == *self,
    {
        FileMetadata {
            file_name: self.file_name.clone(),
            file_mime: clone_optional_string(&self.file_mime),
            file_size_in_bytes: self.file_size_in_bytes,
        }
    }
}

impl Clone for FileInfo {
    fn clone(&self) -> (r: Self)
        ensures
            r == *self,
    {
        FileInfo { metadata: self.metadata.clone(), src: clone_optional_string(&self.src) }
    }
}

} // verus!
