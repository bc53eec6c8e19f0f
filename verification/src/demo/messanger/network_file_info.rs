use vstd::prelude::*;

use crate::demo::messanger::log_message::LogErrorMessage;

verus! {

/// A file as described on the network.
#[derive(Clone)]
pub struct NetworkFileInfo {
    pub file_name: String,
    pub file_mime: Option<String>,
    pub file_size_in_bytes: u32,
}

/// The characters of an optional text.
pub open spec fn optional_text(text: Option<String>) -> Option<Seq<char>> {
    match text {
        Some(t) => Some(t@),
        None => None,
    }
}

/// Whether `part` is a non-empty run of consecutive characters of `whole`.
pub open spec fn is_part_of(part: Seq<char>, whole: Seq<char>) -> bool {
    &&& part.len() > 0
    &&& exists|i: int| 0 <= i && i + part.len() <= whole.len() && #[trigger] whole.subrange(i, i + part.len()) == part
}

/// Whether `name` can be the final component of a path on every platform: a non-empty
/// name without the separator `/`, neither `.` nor `..`.
pub open spec fn is_file_name(name: Seq<char>) -> bool {
    &&& name.len() > 0
    &&& !name.contains('/')
    &&& name != seq!['.']
    &&& name != seq!['.', '.']
}

/// Whether a path is a single plain name on every platform: a file name with no separator
/// or prefix character (`\\` and `:` on some platforms).
pub open spec fn is_plain_name(path: Seq<char>) -> bool {
    &&& is_file_name(path)
    &&& !path.contains('\\')
    &&& !path.contains(':')
}

/// The mime type that `infer::get` finds for contents by their leading octets, `None` for
/// contents of no type it knows.
pub uninterp spec fn inferred_mime(contents: Seq<u8>) -> Option<Seq<char>>;

/// `infer::get` followed by `Type::mime_type`: the mime type of the first file type in the
/// crate's table whose matcher accepts `contents`. It depends on the contents alone, which the
/// contract states by naming it; the table itself is not stated.
#[verifier::external_body]
fn infer_mime(contents: &[u8]) -> (r: Option<String>)
    ensures
        optional_text(r) == inferred_mime(contents@),
{
    match infer::get(contents) {
        Some(kind) => Some(kind.mime_type().to_string()),
        None => None,
    }
}

/// `std::path::Path::file_name` on `path`, kept only where it is valid unicode: the final
/// component of the path when it is a normal one, a slice of the path that holds no
/// separator and is neither `.` nor `..`; a path that is a single plain name is its own file
/// name. How other paths split into components depends on the platform's separators (`\\`
/// is one on some platforms), so which slice is returned for them, and whether there is one,
/// is not stated.
#[verifier::external_body]
fn path_file_name(path: &str) -> (r: Option<String>)
    ensures
        r matches Some(name) ==> is_part_of(name@, path@) && is_file_name(name@),
        is_plain_name(path@) ==> optional_text(r) == Some(path@),
{
    match std::path::Path::new(path).file_name() {
        Some(name) => match name.to_str() {
            Some(text) => Some(text.to_string()),
            None => None,
        },
        None => None,
    }
}

impl NetworkFileInfo {
    /// The description of a file, given the name read from its path and its contents: the
    /// name, the mime type inferred from the contents, and the size in octets, cut to 32 bits.
    /// Without a name there is no description.
    pub fn from_contents(file_name: Option<String>, contents: &[u8]) -> (r: Result<
        NetworkFileInfo,
        LogErrorMessage,
    >)
        ensures
            file_name is None <==> r is Err,
            r matches Err(e) ==> e matches LogErrorMessage::FileSendError(text) && text@
                == "Unable to read filename"@,
            r matches Ok(info) ==> {
                &&& file_name == Some(info.file_name)
                &&& optional_text(info.file_mime) == inferred_mime(contents@)
                &&& info.file_size_in_bytes == contents@.len() as u32
            },
    {
        match file_name {
            None => Err(LogErrorMessage::FileSendError("Unable to read filename".to_string())),
            Some(name) => {
                let file_mime = infer_mime(contents);
                Ok(NetworkFileInfo {
                    file_name: name,
                    file_mime,
                    file_size_in_bytes: contents.len() as u32,
                })
            },
        }
    }

    /// The description of the file at `file_path` with these contents: its name is the last
    /// component of the path, and a path that is a plain name names itself; where the path
    /// has no such component, the description fails.
    pub fn describe(file_path: &str, contents: &[u8]) -> (r: Result<NetworkFileInfo, LogErrorMessage>)
        ensures
            r matches Err(e) ==> e matches LogErrorMessage::FileSendError(text) && text@
                == "Unable to read filename"@,
            is_plain_name(file_path@) ==> r is Ok,
            r matches Ok(info) ==> {
                &&& is_part_of(info.file_name@, file_path@)
                &&& is_file_name(info.file_name@)
                &&& is_plain_name(file_path@) ==> info.file_name@ == file_path@
                &&& optional_text(info.file_mime) == inferred_mime(contents@)
                &&& info.file_size_in_bytes == contents@.len() as u32
            },
    {
        let file_name = path_file_name(file_path);
        Self::from_contents(file_name, contents)
    }
}

} // verus!
