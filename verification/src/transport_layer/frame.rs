use vstd::prelude::*;

use crate::bytes::{splice, u32_be_bytes, be_u32_value, lemma_u32_be_roundtrip, lemma_splice_append};
use crate::transport_layer::constants::{MAX_FRAME_SIZE, MIN_FRAME_SIZE};
use crate::transport_layer::control_bits::{ControlBits, ACK_BIT, known_bits};
use crate::transport_layer::option::{
    FrameOption, OptionKind, encode_option, encode_options, options_view, option_kind_of,
    option_kind_code,
};

verus! {

/// A frame of the transport layer, laid out in a fixed buffer:
/// octets 0..4 hold the sequence number (big endian), octet 4 the control bits,
/// octet 5 the channel id, octet 6 the data length, octet 7 the data offset,
/// then come the options and the data.
#[derive(Debug, Clone)]
pub struct Frame {
    frame: [u8; MAX_FRAME_SIZE],
    data_length: usize,
    /// In bytes
    options_size: usize,
}

pub const SEQUENCE_NUMBER_OCTET: usize = 0;

pub const CONTROL_BITS_OCTET: usize = 4;

pub const CHANNEL_ID_OCTET: usize = 5;

pub const DATA_OFFSET_OCTET: usize = 4;

pub const DATA_OFFSET_OFFSET: usize = 3;

pub const DATA_LENGTH_OCTET: usize = 4;

pub const DATA_LENGTH_OFFSET: usize = 2;

pub const OPTIONS_OCTET: usize = 8;

/// What a frame is, by its control bits.
#[derive(Debug, PartialEq, Eq, Structural, Clone, Copy)]
pub enum FrameType {
    Data,
    Ack,
    Unknown,
}

/// The frame type that a control octet stands for.
pub open spec fn frame_type_of(control_bits: u8) -> FrameType {
    if !known_bits(control_bits) {
        FrameType::Unknown
    } else if control_bits % 2 == 1 {
        FrameType::Ack
    } else {
        FrameType::Data
    }
}

/// The sequence number held by a frame buffer.
pub open spec fn frame_sequence_number(bytes: Seq<u8>) -> u32 {
    be_u32_value(bytes.subrange(0, 4)) as u32
}

/// The control octet of a frame buffer.
pub open spec fn frame_control_bits(bytes: Seq<u8>) -> u8 {
    bytes[CONTROL_BITS_OCTET as int]
}

/// The channel octet of a frame buffer.
pub open spec fn frame_channel_id(bytes: Seq<u8>) -> u8 {
    bytes[CHANNEL_ID_OCTET as int]
}

/// The data length octet of a frame buffer.
pub open spec fn frame_data_length(bytes: Seq<u8>) -> u8 {
    bytes[(DATA_LENGTH_OCTET + DATA_LENGTH_OFFSET) as int]
}

/// The data offset octet of a frame buffer.
pub open spec fn frame_data_offset(bytes: Seq<u8>) -> u8 {
    bytes[(DATA_OFFSET_OCTET + DATA_OFFSET_OFFSET) as int]
}

/// The data of a frame buffer: `data length` octets from the data offset.
pub open spec fn frame_data(bytes: Seq<u8>) -> Seq<u8> {
    bytes.subrange(
        frame_data_offset(bytes) as int,
        frame_data_offset(bytes) + frame_data_length(bytes),
    )
}

/// The buffer after `set_data(data)` on a frame whose options take `options_size` octets.
pub open spec fn frame_with_data(bytes: Seq<u8>, options_size: int, data: Seq<u8>) -> Seq<u8> {
    splice(
        bytes.update(7, (MIN_FRAME_SIZE + options_size) as u8).update(6, data.len() as u8),
        MIN_FRAME_SIZE + options_size,
        data,
    )
}

/// Whether `get_options` reads a buffer without panicking: the data offset is past the
/// header and, where options are announced, the first one has a known kind and fits.
pub open spec fn options_readable(bytes: Seq<u8>) -> bool {
    &&& frame_data_offset(bytes) >= MIN_FRAME_SIZE
    &&& frame_data_offset(bytes) > MIN_FRAME_SIZE ==> {
        &&& bytes[OPTIONS_OCTET as int] <= 1
        &&& OPTIONS_OCTET + 2 + bytes[OPTIONS_OCTET + 1] <= MAX_FRAME_SIZE
    }
}

/// What `get_options` reads from a buffer: `None` when the data follows the header directly;
/// otherwise the first option, once per `2 + length` octets announced by the data offset
/// (rounded up): the reader does not advance past the first option.
pub open spec fn frame_options_read(bytes: Seq<u8>, options: Seq<(OptionKind, Seq<u8>)>) -> bool {
    let size = frame_data_offset(bytes) - MIN_FRAME_SIZE;
    let step = 2 + bytes[OPTIONS_OCTET + 1];
    let first = (
        option_kind_of(bytes[OPTIONS_OCTET as int]),
        bytes.subrange(OPTIONS_OCTET + 2, OPTIONS_OCTET + 2 + bytes[OPTIONS_OCTET + 1]),
    );
    &&& options.len() * step >= size
    &&& options.len() > 0
    &&& (options.len() - 1) * step < size
    &&& forall|i: int| 0 <= i < options.len() ==> #[trigger] options[i] == first
}

impl Frame {
    /// The whole buffer of the frame.
    pub closed spec fn bytes(&self) -> Seq<u8> {
        self.frame@
    }

    /// How many octets of data `set_data` last wrote.
    pub closed spec fn data_size(&self) -> nat {
        self.data_length as nat
    }

    /// How many octets the options written since the last `set_options` take.
    pub closed spec fn options_size(&self) -> nat {
        self.options_size as nat
    }

    pub proof fn lemma_len(&self)
        ensures
            self.bytes().len() == MAX_FRAME_SIZE,
    {
    }

    /// Writes `data` into the buffer from `offset` on.
    fn write_bytes(&mut self, offset: usize, data: &[u8])
        requires
            offset + data@.len() <= MAX_FRAME_SIZE,
        ensures
            final(self).bytes() == splice(old(self).bytes(), offset as int, data@),
            final(self).data_size() == old(self).data_size(),
            final(self).options_size() == old(self).options_size(),
    {
        let ghost start = self.frame@;
        let mut i: usize = 0;
        while i < data.len()
            invariant
                offset + data@.len() <= MAX_FRAME_SIZE,
                0 <= i <= data@.len(),
                self.frame@.len() == MAX_FRAME_SIZE,
                self.data_length == old(self).data_length,
                self.options_size == old(self).options_size,
                start == old(self).frame@,
                forall|j: int|
                    0 <= j < MAX_FRAME_SIZE && !(offset <= j < offset + i) ==> #[trigger] self.frame@[j]
                        == start[j],
                forall|j: int| offset <= j < offset + i ==> #[trigger] self.frame@[j] == data@[j - offset],
            decreases data@.len() - i,
        {
            self.frame[offset + i] = data[i];
            i = i + 1;
        }
        assert(self.frame@ =~= splice(start, offset as int, data@));
    }

    pub fn set_sequence_number(&mut self, sequence_number: u32)
        ensures
            final(self).bytes() == splice(old(self).bytes(), 0, u32_be_bytes(sequence_number)),
            final(self).data_size() == old(self).data_size(),
            final(self).options_size() == old(self).options_size(),
            frame_sequence_number(final(self).bytes()) == sequence_number,
    {
        let net_sequence_number = crate::bytes::u32_to_be_bytes(sequence_number);
        self.write_bytes(SEQUENCE_NUMBER_OCTET, net_sequence_number.as_slice());
        proof {
            lemma_u32_be_roundtrip(sequence_number);
            assert(self.frame@.subrange(0, 4) =~= u32_be_bytes(sequence_number));
        }
    }

    pub fn get_sequence_number(&self) -> (r: u32)
        ensures
            r == frame_sequence_number(self.bytes()),
    {
        crate::bytes::u32_from_be_bytes(
            self.frame[0],
            self.frame[1],
            self.frame[2],
            self.frame[3],
        )
    }

    pub fn set_control_bits(&mut self, control_bits: u8)
        ensures
            final(self).bytes() == old(self).bytes().update(
                CONTROL_BITS_OCTET as int,
                control_bits,
            ),
            final(self).data_size() == old(self).data_size(),
            final(self).options_size() == old(self).options_size(),
    {
        self.frame[CONTROL_BITS_OCTET] = control_bits;
    }

    pub fn get_control_bits(&self) -> (r: u8)
        ensures
            r == frame_control_bits(self.bytes()),
    {
        self.frame[CONTROL_BITS_OCTET]
    }

    /// The channel this frame belongs to; 0 is the main channel.
    pub fn set_channel_id(&mut self, channel_id: u8)
        ensures
            final(self).bytes() == old(self).bytes().update(CHANNEL_ID_OCTET as int, channel_id),
            final(self).data_size() == old(self).data_size(),
            final(self).options_size() == old(self).options_size(),
    {
        self.frame[CHANNEL_ID_OCTET] = channel_id;
    }

    /// The channel this frame belongs to; 0 is the main channel.
    pub fn get_channel_id(&self) -> (r: u8)
        ensures
            r == frame_channel_id(self.bytes()),
    {
        self.frame[CHANNEL_ID_OCTET]
    }

    pub fn get_frame_type(&self) -> (r: FrameType)
        ensures
            r == frame_type_of(frame_control_bits(self.bytes())),
    {
        let bits = self.get_control_bits();
        let control_bits = ControlBits::from_bits(bits);
        match control_bits {
            None => FrameType::Unknown,
            Some(bits_set) => {
                if bits_set.contains(ControlBits::ack()) {
                    assert(bits % 2 == 1) by (bit_vector)
                        requires
                            bits <= 3u8,
                            bits & 1u8 == 1u8,
                    ;
                    FrameType::Ack
                } else {
                    assert(bits % 2 == 0) by (bit_vector)
                        requires
                            bits <= 3u8,
                            bits & 1u8 != 1u8,
                    ;
                    FrameType::Data
                }
            },
        }
    }

    /// Writes the options one after another from the options octet on, replacing those
    /// written before.
    pub fn set_options(&mut self, options: &[FrameOption])
        requires
            MIN_FRAME_SIZE + encode_options(options_view(options@)).len() <= MAX_FRAME_SIZE,
        ensures
            final(self).bytes() == splice(
                old(self).bytes(),
                OPTIONS_OCTET as int,
                encode_options(options_view(options@)),
            ),
            final(self).options_size() == encode_options(options_view(options@)).len(),
            final(self).data_size() == old(self).data_size(),
    {
        self.options_size = 0;
        let ghost start = self.frame@;
        let mut i: usize = 0;
        while i < options.len()
            invariant
                0 <= i <= options@.len(),
                MIN_FRAME_SIZE + encode_options(options_view(options@)).len() <= MAX_FRAME_SIZE,
                self.options_size == encode_options(options_view(options@.take(i as int))).len(),
                self.frame@ == splice(
                    start,
                    OPTIONS_OCTET as int,
                    encode_options(options_view(options@.take(i as int))),
                ),
                self.data_length == old(self).data_length,
                start == old(self).frame@,
            decreases options@.len() - i,
        {
            proof {
                lemma_encode_options_prefix(options_view(options@), i as int + 1);
                assert(options_view(options@.take(i + 1)) =~= options_view(options@).take(i + 1));
                assert(options_view(options@.take(i as int)) =~= options_view(options@).take(i as int));
                assert(options_view(options@).take(i + 1).drop_last() =~= options_view(options@).take(i as int));
            }
            self.append_option_ref(&options[i]);
            proof {
                let prev = encode_options(options_view(options@.take(i as int)));
                let one = encode_option(options@[i as int].kind, options@[i as int].data@);
                assert(encode_options(options_view(options@.take(i + 1))) == prev + one);
                lemma_splice_append(start, OPTIONS_OCTET as int, prev, one);
            }
            i = i + 1;
        }
        assert(options@.take(options@.len() as int) =~= options@);
    }

    /// Writes one option after those already written.
    fn append_option_ref(&mut self, option: &FrameOption)
        requires
            MIN_FRAME_SIZE + old(self).options_size() + 2 + option.data@.len() <= MAX_FRAME_SIZE,
        ensures
            final(self).bytes() == splice(
                old(self).bytes(),
                OPTIONS_OCTET + old(self).options_size(),
                encode_option(option.kind, option.data@),
            ),
            final(self).options_size() == old(self).options_size() + 2 + option.data@.len(),
            final(self).data_size() == old(self).data_size(),
    {
        let start_offset = OPTIONS_OCTET + self.options_size;
        let ghost start = self.frame@;
        self.frame[start_offset] = option.kind.code();
        let len = option.data.len();
        self.frame[start_offset + 1] = len as u8;
        let data_offset = start_offset + 2;
        self.write_bytes(data_offset, option.data);
        self.options_size = self.options_size + 2 + len;
        assert(self.frame@ =~= splice(
            start,
            start_offset as int,
            encode_option(option.kind, option.data@),
        ));
    }

    /// Writes one option after those already written; call before setting data.
    pub fn append_option(&mut self, option: FrameOption)
        requires
            MIN_FRAME_SIZE + old(self).options_size() + 2 + option.data@.len() <= MAX_FRAME_SIZE,
        ensures
            final(self).bytes() == splice(
                old(self).bytes(),
                OPTIONS_OCTET + old(self).options_size(),
                encode_option(option.kind, option.data@),
            ),
            final(self).options_size() == old(self).options_size() + 2 + option.data@.len(),
            final(self).data_size() == old(self).data_size(),
    {
        self.append_option_ref(&option);
    }

    /// Reads the options announced by the data offset.
    pub fn get_options(&self) -> (r: Option<Vec<FrameOption<'_>>>)
        requires
            options_readable(self.bytes()),
        ensures
            frame_data_offset(self.bytes()) == MIN_FRAME_SIZE <==> r is None,
            r matches Some(v) ==> frame_options_read(self.bytes(), options_view(v@)),
    {
        let mut options: Vec<FrameOption<'_>> = Vec::new();
        let offset = OPTIONS_OCTET;
        let options_size = self.get_data_offset() as usize - MIN_FRAME_SIZE;
        if options_size == 0 {
            return None;
        }
        let ghost bytes = self.frame@;
        let ghost first = (
            option_kind_of(bytes[OPTIONS_OCTET as int]),
            bytes.subrange(OPTIONS_OCTET + 2, OPTIONS_OCTET + 2 + bytes[OPTIONS_OCTET + 1]),
        );
        let ghost step = 2 + bytes[OPTIONS_OCTET + 1];
        let mut options_read: usize = 0;
        assert(options@.len() * step == 0) by (nonlinear_arith)
            requires
                options@.len() == 0,
        ;
        while options_read < options_size
            invariant
                bytes == self.frame@,
                bytes.len() == MAX_FRAME_SIZE,
                offset == OPTIONS_OCTET,
                first == (
                    option_kind_of(bytes[OPTIONS_OCTET as int]),
                    bytes.subrange(OPTIONS_OCTET + 2, OPTIONS_OCTET + 2 + bytes[OPTIONS_OCTET + 1]),
                ),
                options_readable(bytes),
                options_size == frame_data_offset(bytes) - MIN_FRAME_SIZE,
                options_size > 0,
                options_size <= 255,
                step == 2 + bytes[OPTIONS_OCTET + 1],
                options_read == options@.len() * step,
                options_read < 600,
                options@.len() > 0 ==> (options@.len() - 1) * step < options_size,
                forall|i: int| 0 <= i < options@.len() ==> #[trigger] options_view(options@)[i] == first,
            decreases 600 - options_read,
        {
            let kind: OptionKind = OptionKind::from(self.frame[offset]);
            let len = self.frame[offset + 1] as usize;
            let data_offset = offset + 2;
            let data = crate::bytes::subslice(self.frame.as_slice(), data_offset, data_offset + len);
            let ghost before = options@;
            options.push(FrameOption::new(kind, data));
            proof {
                assert(options@ == before.push(options@.last()));
                assert forall|i: int| 0 <= i < options@.len() implies #[trigger] options_view(options@)[i] == first by {
                    if i < before.len() {
                        assert(options_view(options@)[i] == options_view(before)[i]);
                    }
                }
                assert(options@.len() * step == before.len() * step + step) by (nonlinear_arith)
                    requires options@.len() == before.len() + 1;
            }
            options_read = options_read + 2 + len;
        }
        Some(options)
    }

    pub fn set_data_length(&mut self, data_length: u8)
        ensures
            final(self).bytes() == old(self).bytes().update(
                (DATA_LENGTH_OCTET + DATA_LENGTH_OFFSET) as int,
                data_length,
            ),
            final(self).data_size() == old(self).data_size(),
            final(self).options_size() == old(self).options_size(),
    {
        self.frame[DATA_LENGTH_OCTET + DATA_LENGTH_OFFSET] = data_length;
    }

    pub fn get_data_length(&self) -> (r: u8)
        ensures
            r == frame_data_length(self.bytes()),
    {
        self.frame[DATA_LENGTH_OCTET + DATA_LENGTH_OFFSET]
    }

    pub fn set_data_offset(&mut self, data_offset: u8)
        ensures
            final(self).bytes() == old(self).bytes().update(
                (DATA_OFFSET_OCTET + DATA_OFFSET_OFFSET) as int,
                data_offset,
            ),
            final(self).data_size() == old(self).data_size(),
            final(self).options_size() == old(self).options_size(),
    {
        self.frame[DATA_OFFSET_OCTET + DATA_OFFSET_OFFSET] = data_offset;
    }

    pub fn get_data_offset(&self) -> (r: u8)
        ensures
            r == frame_data_offset(self.bytes()),
    {
        self.frame[DATA_OFFSET_OCTET + DATA_OFFSET_OFFSET]
    }

    /// Writes the data after the options, with its offset and length in the header.
    pub fn set_data(&mut self, data: &[u8])
        requires
            MIN_FRAME_SIZE + old(self).options_size() + data@.len() <= MAX_FRAME_SIZE,
        ensures
            final(self).bytes() == frame_with_data(
                old(self).bytes(),
                old(self).options_size() as int,
                data@,
            ),
            final(self).data_size() == data@.len(),
            final(self).options_size() == old(self).options_size(),
    {
        self.data_length = data.len();
        let offset = MIN_FRAME_SIZE + self.options_size;
        self.set_data_offset(offset as u8);
        self.set_data_length(self.data_length as u8);
        self.write_bytes(offset, data);
    }

    /// The data announced by the header.
    pub fn get_data(&self) -> (r: &[u8])
        requires
            frame_data_offset(self.bytes()) + frame_data_length(self.bytes()) <= MAX_FRAME_SIZE,
        ensures
            r@ == frame_data(self.bytes()),
    {
        let offset = self.get_data_offset() as usize;
        let length = self.get_data_length() as usize;
        crate::bytes::subslice(self.frame.as_slice(), offset, offset + length)
    }

    /// Returns the buffer.
    /// The buffer is a slice of the frame: the header, the options and the data.
    pub fn get_buffer(&self) -> (r: &[u8])
        requires
            MIN_FRAME_SIZE + self.options_size() + self.data_size() <= MAX_FRAME_SIZE,
        ensures
            r@ == self.bytes().subrange(
                0,
                MIN_FRAME_SIZE + self.options_size() + self.data_size(),
            ),
    {
        crate::bytes::subslice(self.frame.as_slice(), 0, MIN_FRAME_SIZE + self.options_size + self.data_length)
    }

    /// A frame that starts with the bytes of `buffer`, zero after them.
    pub fn from_buffer(buffer: &[u8]) -> (r: Frame)
        requires
            buffer@.len() <= MAX_FRAME_SIZE,
        ensures
            r.bytes() == buffer@ + Seq::new((MAX_FRAME_SIZE - buffer@.len()) as nat, |i: int| 0u8),
            r.data_size() == 0,
            r.options_size() == 0,
    {
        let mut frame = Frame::default();
        frame.write_bytes(0, buffer);
        assert(frame.frame@ =~= buffer@ + Seq::new(
            (MAX_FRAME_SIZE - buffer@.len()) as nat,
            |i: int| 0u8,
        ));
        frame
    }
}

impl Default for Frame {
    fn default() -> (r: Self)
        ensures
            r.bytes() == Seq::new(MAX_FRAME_SIZE as nat, |i: int| 0u8),
            r.data_size() == 0,
            r.options_size() == 0,
    {
        let r = Self { frame: [0u8; MAX_FRAME_SIZE], data_length: 0, options_size: 0 };
        assert(r.frame@ =~= Seq::new(MAX_FRAME_SIZE as nat, |i: int| 0u8));
        r
    }
}

impl From<[u8; MAX_FRAME_SIZE]> for Frame {
    fn from(value: [u8; MAX_FRAME_SIZE]) -> (r: Self) {
        Self { frame: value, data_length: 0, options_size: 0 }
    }
}

impl vstd::std_specs::convert::FromSpecImpl<[u8; MAX_FRAME_SIZE]> for Frame {
    open spec fn obeys_from_spec() -> bool {
        true
    }

    closed spec fn from_spec(value: [u8; MAX_FRAME_SIZE]) -> Self {
        Frame { frame: value, data_length: 0, options_size: 0 }
    }
}

/// A frame made from a whole buffer holds that buffer, with no options and no data written.
pub proof fn lemma_frame_from_array(value: [u8; MAX_FRAME_SIZE])
    ensures
        <Frame as vstd::std_specs::convert::FromSpec<[u8; MAX_FRAME_SIZE]>>::from_spec(value).bytes() == value@,
        <Frame as vstd::std_specs::convert::FromSpec<[u8; MAX_FRAME_SIZE]>>::from_spec(value).data_size() == 0,
        <Frame as vstd::std_specs::convert::FromSpec<[u8; MAX_FRAME_SIZE]>>::from_spec(value).options_size() == 0,
{
}

/// The encoding of the first `n` options is a prefix of the encoding of all of them.
pub proof fn lemma_encode_options_prefix(options: Seq<(OptionKind, Seq<u8>)>, n: int)
    requires
        0 <= n <= options.len(),
    ensures
        encode_options(options.take(n)).len() <= encode_options(options).len(),
    decreases options.len() - n,
{
    if n < options.len() {
        lemma_encode_options_prefix(options, n + 1);
        assert(options.take(n + 1).drop_last() =~= options.take(n));
    } else {
        assert(options.take(n) =~= options);
    }
}

/// Writing a sequence number and reading it back gives the number; the control bits,
/// the channel id, the data length and the data offset stay as they were.
pub proof fn lemma_sequence_number_roundtrip(bytes: Seq<u8>, sequence_number: u32)
    requires
        bytes.len() == MAX_FRAME_SIZE,
    ensures
        ({
            let after = splice(bytes, 0, u32_be_bytes(sequence_number));
            &&& frame_sequence_number(after) == sequence_number
            &&& frame_control_bits(after) == frame_control_bits(bytes)
            &&& frame_channel_id(after) == frame_channel_id(bytes)
            &&& frame_data_length(after) == frame_data_length(bytes)
            &&& frame_data_offset(after) == frame_data_offset(bytes)
            &&& after.subrange(4, MAX_FRAME_SIZE as int) == bytes.subrange(4, MAX_FRAME_SIZE as int)
        }),
{
    let after = splice(bytes, 0, u32_be_bytes(sequence_number));
    lemma_u32_be_roundtrip(sequence_number);
    assert(after.subrange(0, 4) =~= u32_be_bytes(sequence_number));
    assert(after.subrange(4, MAX_FRAME_SIZE as int) =~= bytes.subrange(4, MAX_FRAME_SIZE as int));
}

/// Writing data and reading it back gives the data; the sequence number, the control bits,
/// the channel id and the options stay as they were.
pub proof fn lemma_data_roundtrip(bytes: Seq<u8>, options_size: int, data: Seq<u8>)
    requires
        bytes.len() == MAX_FRAME_SIZE,
        0 <= options_size,
        MIN_FRAME_SIZE + options_size + data.len() <= MAX_FRAME_SIZE,
    ensures
        ({
            let after = frame_with_data(bytes, options_size, data);
            &&& frame_data(after) == data
            &&& frame_data_offset(after) == MIN_FRAME_SIZE + options_size
            &&& frame_data_length(after) == data.len()
            &&& frame_sequence_number(after) == frame_sequence_number(bytes)
            &&& frame_control_bits(after) == frame_control_bits(bytes)
            &&& frame_channel_id(after) == frame_channel_id(bytes)
            &&& after.subrange(OPTIONS_OCTET as int, OPTIONS_OCTET + options_size)
                == bytes.subrange(OPTIONS_OCTET as int, OPTIONS_OCTET + options_size)
        }),
{
    let after = frame_with_data(bytes, options_size, data);
    assert(frame_data(after) =~= data);
    assert(after.subrange(0, 4) =~= bytes.subrange(0, 4));
    assert(after.subrange(OPTIONS_OCTET as int, OPTIONS_OCTET + options_size) =~= bytes.subrange(
        OPTIONS_OCTET as int,
        OPTIONS_OCTET + options_size,
    ));
}

/// A frame whose options are one option, followed by data, reads that option back.
pub proof fn lemma_single_option_roundtrip(
    bytes: Seq<u8>,
    kind: OptionKind,
    option_data: Seq<u8>,
    data: Seq<u8>,
)
    requires
        bytes.len() == MAX_FRAME_SIZE,
        MIN_FRAME_SIZE + 2 + option_data.len() + data.len() <= MAX_FRAME_SIZE,
    ensures
        ({
            let options = seq![(kind, option_data)];
            let with_options = splice(bytes, OPTIONS_OCTET as int, encode_options(options));
            let after = frame_with_data(with_options, encode_options(options).len() as int, data);
            &&& options_readable(after)
            &&& frame_options_read(after, options)
            &&& frame_data(after) == data
        }),
{
    let options = seq![(kind, option_data)];
    assert(options.drop_last() =~= Seq::<(OptionKind, Seq<u8>)>::empty());
    assert(encode_options(options.drop_last()) =~= Seq::<u8>::empty());
    assert(options.last() == (kind, option_data));
    assert(encode_options(options) =~= encode_option(kind, option_data));
    let with_options = splice(bytes, OPTIONS_OCTET as int, encode_options(options));
    let size = encode_options(options).len() as int;
    let after = frame_with_data(with_options, size, data);
    assert(size == 2 + option_data.len());
    assert(after[OPTIONS_OCTET as int] == option_kind_code(kind));
    assert(after[OPTIONS_OCTET + 1] == option_data.len() as u8);
    assert(option_kind_of(option_kind_code(kind)) == kind);
    assert(after.subrange(OPTIONS_OCTET + 2, OPTIONS_OCTET + 2 + option_data.len()) =~= option_data);
    lemma_data_roundtrip(with_options, size, data);
    assert(1 * (2 + option_data.len()) >= size);
}

/// The acknowledgment bit marks an acknowledgment frame, the end-of-message bit alone a
/// data frame, and an octet with an unknown bit a frame of unknown type.
pub proof fn lemma_frame_types(control_bits: u8)
    ensures
        frame_type_of(ACK_BIT) == FrameType::Ack,
        frame_type_of(crate::transport_layer::control_bits::EOM_BIT) == FrameType::Data,
        frame_type_of(0) == FrameType::Data,
        control_bits > crate::transport_layer::control_bits::ALL_BITS ==> frame_type_of(control_bits)
            == FrameType::Unknown,
{
}

/// Whether `after` differs from `before` at most in the octets `lo .. hi`.
pub open spec fn changes_only(before: Seq<u8>, after: Seq<u8>, lo: int, hi: int) -> bool {
    &&& after.len() == before.len()
    &&& forall|j: int| 0 <= j < before.len() && !(lo <= j < hi) ==> #[trigger] after[j] == before[j]
}

/// Each setter of a frame changes only its own octets: the sequence number octets `0 .. 4`,
/// one header octet, the options from the options octet on, and the data from its offset on
/// together with the data length and offset octets.
pub proof fn lemma_setters_change_only_their_octets(
    bytes: Seq<u8>,
    sequence_number: u32,
    i: int,
    v: u8,
    options: Seq<u8>,
    options_size: int,
    data: Seq<u8>,
)
    requires
        bytes.len() == MAX_FRAME_SIZE,
        0 <= i < MAX_FRAME_SIZE,
        OPTIONS_OCTET + options.len() <= MAX_FRAME_SIZE,
        0 <= options_size,
        MIN_FRAME_SIZE + options_size + data.len() <= MAX_FRAME_SIZE,
    ensures
        changes_only(bytes, splice(bytes, 0, u32_be_bytes(sequence_number)), 0, 4),
        changes_only(bytes, bytes.update(i, v), i, i + 1),
        changes_only(bytes, splice(bytes, OPTIONS_OCTET as int, options), OPTIONS_OCTET as int, OPTIONS_OCTET + options.len()),
        changes_only(bytes, frame_with_data(bytes, options_size, data), 6, MAX_FRAME_SIZE as int),
{
    assert(u32_be_bytes(sequence_number).len() == 4);
}

/// A write that changes only the octets `lo .. hi` leaves each header field whose octets lie
/// outside them as it was: the sequence number (octets `0 .. 4`), the control bits (4), the
/// channel id (5), the data length (6) and the data offset (7).
pub proof fn lemma_write_keeps_other_fields(before: Seq<u8>, after: Seq<u8>, lo: int, hi: int)
    requires
        before.len() == MAX_FRAME_SIZE,
        changes_only(before, after, lo, hi),
    ensures
        hi <= 0 || lo >= 4 || hi <= lo ==> frame_sequence_number(after) == frame_sequence_number(before),
        !(lo <= 4 < hi) ==> frame_control_bits(after) == frame_control_bits(before),
        !(lo <= 5 < hi) ==> frame_channel_id(after) == frame_channel_id(before),
        !(lo <= 6 < hi) ==> frame_data_length(after) == frame_data_length(before),
        !(lo <= 7 < hi) ==> frame_data_offset(after) == frame_data_offset(before),
{
    if hi <= 0 || lo >= 4 || hi <= lo {
        assert(after.subrange(0, 4) =~= before.subrange(0, 4));
    }
    assert(after[4] == before[4] || (lo <= 4 < hi));
    assert(after[5] == before[5] || (lo <= 5 < hi));
    assert(after[6] == before[6] || (lo <= 6 < hi));
    assert(after[7] == before[7] || (lo <= 7 < hi));
}

/// Sending a frame's buffer and reading it back into a frame keeps its header: a frame made
/// from the first `n` octets of a buffer, `n` at least the header's size, holds the same
/// sequence number, control bits, channel id, data length and data offset.
pub proof fn lemma_buffer_keeps_header(bytes: Seq<u8>, n: int)
    requires
        bytes.len() == MAX_FRAME_SIZE,
        MIN_FRAME_SIZE <= n <= MAX_FRAME_SIZE,
    ensures
        ({
            let read = bytes.subrange(0, n) + Seq::new((MAX_FRAME_SIZE - n) as nat, |i: int| 0u8);
            &&& frame_sequence_number(read) == frame_sequence_number(bytes)
            &&& frame_control_bits(read) == frame_control_bits(bytes)
            &&& frame_channel_id(read) == frame_channel_id(bytes)
            &&& frame_data_length(read) == frame_data_length(bytes)
            &&& frame_data_offset(read) == frame_data_offset(bytes)
        }),
{
    let read = bytes.subrange(0, n) + Seq::new((MAX_FRAME_SIZE - n) as nat, |i: int| 0u8);
    assert(read.subrange(0, 4) =~= bytes.subrange(0, 4));
    assert(read[4] == bytes[4]);
    assert(read[5] == bytes[5]);
    assert(read[6] == bytes[6]);
    assert(read[7] == bytes[7]);
}

/// One setter call on a frame, as what it writes: the sequence number, one of the header
/// octets, options from an offset on, or data after options of a given size.
pub ghost enum FrameWrite {
    SequenceNumber(u32),
    ControlBits(u8),
    ChannelId(u8),
    DataLength(u8),
    DataOffset(u8),
    Options(int, Seq<u8>),
    Data(int, Seq<u8>),
}

/// The buffer after one write, as the setters' contracts give it.
pub open spec fn apply_write(bytes: Seq<u8>, w: FrameWrite) -> Seq<u8> {
    match w {
        FrameWrite::SequenceNumber(n) => splice(bytes, 0, u32_be_bytes(n)),
        FrameWrite::ControlBits(v) => bytes.update(CONTROL_BITS_OCTET as int, v),
        FrameWrite::ChannelId(v) => bytes.update(CHANNEL_ID_OCTET as int, v),
        FrameWrite::DataLength(v) => bytes.update((DATA_LENGTH_OCTET + DATA_LENGTH_OFFSET) as int, v),
        FrameWrite::DataOffset(v) => bytes.update((DATA_OFFSET_OCTET + DATA_OFFSET_OFFSET) as int, v),
        FrameWrite::Options(at, options) => splice(bytes, at, options),
        FrameWrite::Data(options_size, data) => frame_with_data(bytes, options_size, data),
    }
}

/// Whether a write stays within the frame, as the setters require.
pub open spec fn write_in_bounds(w: FrameWrite) -> bool {
    match w {
        FrameWrite::Options(at, options) => OPTIONS_OCTET <= at && at + options.len() <= MAX_FRAME_SIZE,
        FrameWrite::Data(options_size, data) => 0 <= options_size && MIN_FRAME_SIZE + options_size
            + data.len() <= MAX_FRAME_SIZE,
        _ => true,
    }
}

/// The buffer after the writes `ws`, one after another.
pub open spec fn apply_writes(bytes: Seq<u8>, ws: Seq<FrameWrite>) -> Seq<u8>
    decreases ws.len(),
{
    if ws.len() == 0 {
        bytes
    } else {
        apply_write(apply_writes(bytes, ws.drop_last()), ws.last())
    }
}

/// Any sequence of setter calls leaves each header field that none of them writes as it
/// was: the sequence number unless a sequence number is written, the control bits unless
/// they are written, the channel id likewise, the data length unless it or data is written,
/// and the data offset unless it or data is written.
pub proof fn lemma_writes_keep_unwritten_fields(bytes: Seq<u8>, ws: Seq<FrameWrite>)
    requires
        bytes.len() == MAX_FRAME_SIZE,
        forall|i: int| 0 <= i < ws.len() ==> write_in_bounds(#[trigger] ws[i]),
    ensures
        ({
            let after = apply_writes(bytes, ws);
            &&& after.len() == MAX_FRAME_SIZE
            &&& (forall|i: int| 0 <= i < ws.len() ==> !(#[trigger] ws[i] is SequenceNumber))
                ==> frame_sequence_number(after) == frame_sequence_number(bytes)
            &&& (forall|i: int| 0 <= i < ws.len() ==> !(#[trigger] ws[i] is ControlBits))
                ==> frame_control_bits(after) == frame_control_bits(bytes)
            &&& (forall|i: int| 0 <= i < ws.len() ==> !(#[trigger] ws[i] is ChannelId))
                ==> frame_channel_id(after) == frame_channel_id(bytes)
            &&& (forall|i: int| 0 <= i < ws.len() ==> !(#[trigger] ws[i] is DataLength) && !(ws[i] is Data))
                ==> frame_data_length(after) == frame_data_length(bytes)
            &&& (forall|i: int| 0 <= i < ws.len() ==> !(#[trigger] ws[i] is DataOffset) && !(ws[i] is Data))
                ==> frame_data_offset(after) == frame_data_offset(bytes)
        }),
    decreases ws.len(),
{
    if ws.len() > 0 {
        let init = ws.drop_last();
        assert forall|i: int| 0 <= i < init.len() implies write_in_bounds(#[trigger] init[i]) by {
            assert(init[i] == ws[i]);
        }
        lemma_writes_keep_unwritten_fields(bytes, init);
        let mid = apply_writes(bytes, init);
        let w = ws.last();
        assert(w == ws[ws.len() - 1]);
        assert(write_in_bounds(w));
        let after = apply_write(mid, w);
        match w {
            FrameWrite::SequenceNumber(n) => {
                lemma_setters_change_only_their_octets(mid, n, 0, 0, Seq::empty(), 0, Seq::empty());
                lemma_write_keeps_other_fields(mid, after, 0, 4);
            },
            FrameWrite::ControlBits(v) => {
                lemma_setters_change_only_their_octets(mid, 0, 4, v, Seq::empty(), 0, Seq::empty());
                lemma_write_keeps_other_fields(mid, after, 4, 5);
            },
            FrameWrite::ChannelId(v) => {
                lemma_setters_change_only_their_octets(mid, 0, 5, v, Seq::empty(), 0, Seq::empty());
                lemma_write_keeps_other_fields(mid, after, 5, 6);
            },
            FrameWrite::DataLength(v) => {
                lemma_setters_change_only_their_octets(mid, 0, 6, v, Seq::empty(), 0, Seq::empty());
                lemma_write_keeps_other_fields(mid, after, 6, 7);
            },
            FrameWrite::DataOffset(v) => {
                lemma_setters_change_only_their_octets(mid, 0, 7, v, Seq::empty(), 0, Seq::empty());
                lemma_write_keeps_other_fields(mid, after, 7, 8);
            },
            FrameWrite::Options(at, options) => {
                assert(changes_only(mid, after, at, at + options.len()));
                lemma_write_keeps_other_fields(mid, after, at, at + options.len());
            },
            FrameWrite::Data(options_size, data) => {
                lemma_setters_change_only_their_octets(mid, 0, 0, 0, Seq::empty(), options_size, data);
                lemma_write_keeps_other_fields(mid, after, 6, MAX_FRAME_SIZE as int);
            },
        }
        if forall|i: int| 0 <= i < ws.len() ==> !(#[trigger] ws[i] is SequenceNumber) {
            assert forall|i: int| 0 <= i < init.len() implies !(#[trigger] init[i] is SequenceNumber) by {
                assert(init[i] == ws[i]);
            }
        }
        if forall|i: int| 0 <= i < ws.len() ==> !(#[trigger] ws[i] is ControlBits) {
            assert forall|i: int| 0 <= i < init.len() implies !(#[trigger] init[i] is ControlBits) by {
                assert(init[i] == ws[i]);
            }
        }
        if forall|i: int| 0 <= i < ws.len() ==> !(#[trigger] ws[i] is ChannelId) {
            assert forall|i: int| 0 <= i < init.len() implies !(#[trigger] init[i] is ChannelId) by {
                assert(init[i] == ws[i]);
            }
        }
        if forall|i: int| 0 <= i < ws.len() ==> !(#[trigger] ws[i] is DataLength) && !(ws[i] is Data) {
            assert forall|i: int| 0 <= i < init.len() implies !(#[trigger] init[i] is DataLength) && !(init[i] is Data) by {
                assert(init[i] == ws[i]);
            }
        }
        if forall|i: int| 0 <= i < ws.len() ==> !(#[trigger] ws[i] is DataOffset) && !(ws[i] is Data) {
            assert forall|i: int| 0 <= i < init.len() implies !(#[trigger] init[i] is DataOffset) && !(init[i] is Data) by {
                assert(init[i] == ws[i]);
            }
        }
    }
}

/// A sequence number, control octet or data written and then followed by any setter calls
/// that do not write that field again reads back as written, also from a frame made of the
/// frame's buffer: the sequence number, the control bits, and the data offset after data
/// (the options' size past the header).
pub proof fn lemma_fields_read_back_after_writes(
    bytes: Seq<u8>,
    sequence_number: u32,
    control_bits: u8,
    options_size: int,
    data: Seq<u8>,
    ws: Seq<FrameWrite>,
    n: int,
)
    requires
        bytes.len() == MAX_FRAME_SIZE,
        0 <= options_size,
        MIN_FRAME_SIZE + options_size + data.len() <= MAX_FRAME_SIZE,
        MIN_FRAME_SIZE <= n <= MAX_FRAME_SIZE,
        forall|i: int| 0 <= i < ws.len() ==> write_in_bounds(#[trigger] ws[i]),
    ensures
        ({
            let after = apply_writes(apply_write(bytes, FrameWrite::SequenceNumber(sequence_number)), ws);
            let read = after.subrange(0, n) + Seq::new((MAX_FRAME_SIZE - n) as nat, |i: int| 0u8);
            (forall|i: int| 0 <= i < ws.len() ==> !(#[trigger] ws[i] is SequenceNumber)) ==> {
                &&& frame_sequence_number(after) == sequence_number
                &&& frame_sequence_number(read) == sequence_number
            }
        }),
        ({
            let after = apply_writes(apply_write(bytes, FrameWrite::ControlBits(control_bits)), ws);
            let read = after.subrange(0, n) + Seq::new((MAX_FRAME_SIZE - n) as nat, |i: int| 0u8);
            (forall|i: int| 0 <= i < ws.len() ==> !(#[trigger] ws[i] is ControlBits)) ==> {
                &&& frame_control_bits(after) == control_bits
                &&& frame_control_bits(read) == control_bits
            }
        }),
        ({
            let after = apply_writes(apply_write(bytes, FrameWrite::Data(options_size, data)), ws);
            let read = after.subrange(0, n) + Seq::new((MAX_FRAME_SIZE - n) as nat, |i: int| 0u8);
            (forall|i: int| 0 <= i < ws.len() ==> !(#[trigger] ws[i] is DataOffset) && !(ws[i] is Data))
                ==> {
                &&& frame_data_offset(after) == MIN_FRAME_SIZE + options_size
                &&& frame_data_offset(read) == MIN_FRAME_SIZE + options_size
            }
        }),
{
    let b1 = apply_write(bytes, FrameWrite::SequenceNumber(sequence_number));
    lemma_sequence_number_roundtrip(bytes, sequence_number);
    assert(b1.len() == MAX_FRAME_SIZE);
    lemma_writes_keep_unwritten_fields(b1, ws);
    lemma_buffer_keeps_header(apply_writes(b1, ws), n);
    let b2 = apply_write(bytes, FrameWrite::ControlBits(control_bits));
    lemma_writes_keep_unwritten_fields(b2, ws);
    lemma_buffer_keeps_header(apply_writes(b2, ws), n);
    let b3 = apply_write(bytes, FrameWrite::Data(options_size, data));
    lemma_data_roundtrip(bytes, options_size, data);
    lemma_setters_change_only_their_octets(bytes, 0, 0, 0, Seq::empty(), options_size, data);
    lemma_writes_keep_unwritten_fields(b3, ws);
    lemma_buffer_keeps_header(apply_writes(b3, ws), n);
}

} // verus!
