use vstd::prelude::*;

verus! {

/// What a frame option carries.
#[derive(Debug, Clone, Copy, PartialEq, Eq, Structural)]
pub enum OptionKind {
    BufferSize,
    SegmentNumber,
}

/// The octet that encodes an option kind.
pub open spec fn option_kind_code(kind: OptionKind) -> u8 {
    match kind {
        OptionKind::BufferSize => 0,
        OptionKind::SegmentNumber => 1,
    }
}

/// The option kind that an octet encodes; meaningful for the octets 0 and 1.
pub open spec fn option_kind_of(code: u8) -> OptionKind {
    if code == 0 {
        OptionKind::BufferSize
    } else {
        OptionKind::SegmentNumber
    }
}

impl OptionKind {
    /// The kind encoded by `kind`; only 0 and 1 encode a kind.
    pub fn from(kind: u8) -> (r: OptionKind)
        requires
            kind <= 1,
        ensures
            r == option_kind_of(kind),
            option_kind_code(r) == kind,
    {
        match kind {
            0 => OptionKind::BufferSize,
            _ => OptionKind::SegmentNumber,
        }
    }

    /// The octet that encodes this kind.
    pub fn code(&self) -> (r: u8)
        ensures
            r == option_kind_code(*self),
    {
        match self {
            OptionKind::BufferSize => 0,
            OptionKind::SegmentNumber => 1,
        }
    }
}

/// A frame option: its kind and its data.
pub struct FrameOption<'a> {
    pub kind: OptionKind,
    pub data: &'a [u8],
}

impl<'a> FrameOption<'a> {
    pub fn new(kind: OptionKind, data: &'a [u8]) -> (r: Self)
        ensures
            r.kind == kind,
            r.data@ == data@,
    {
        Self { kind, data }
    }
}

/// The bytes of one encoded option: its kind, its length and its data.
pub open spec fn encode_option(kind: OptionKind, data: Seq<u8>) -> Seq<u8> {
    seq![option_kind_code(kind), data.len() as u8] + data
}

/// The bytes of a list of encoded options, one after another.
pub open spec fn encode_options(options: Seq<(OptionKind, Seq<u8>)>) -> Seq<u8>
    decreases options.len(),
{
    if options.len() == 0 {
        Seq::empty()
    } else {
        encode_options(options.drop_last()) + encode_option(
            options.last().0,
            options.last().1,
        )
    }
}

/// The kind and data of each option, in order.
pub open spec fn options_view<'a>(options: Seq<FrameOption<'a>>) -> Seq<(OptionKind, Seq<u8>)> {
    options.map_values(|o: FrameOption<'a>| (o.kind, o.data@))
}

/// The option kind octets are fixed: the buffer size is 0 and the segment number 1; reading
/// either octet gives the kind that writes it, and writing a kind and reading it back gives
/// the kind.
pub proof fn lemma_option_kind_codes()
    ensures
        option_kind_code(OptionKind::BufferSize) == 0,
        option_kind_code(OptionKind::SegmentNumber) == 1,
        forall|v: u8| v <= 1 ==> option_kind_code(#[trigger] option_kind_of(v)) == v,
        forall|k: OptionKind| option_kind_of(#[trigger] option_kind_code(k)) == k,
        forall|k: OptionKind| #[trigger] option_kind_code(k) <= 1,
{
}

} // verus!
