use vstd::prelude::*;

use crate::bytes::{splice, u32_be_bytes, be_u32_value, lemma_u32_be_roundtrip, lemma_splice_append};
use crate::constants::{MAX_FRAME_SIZE, MIN_FRAME_SIZE};
use crate::transport_layer::frame::lemma_encode_options_prefix;
use crate::transport_layer::option::{
    FrameOption, OptionKind, encode_option, encode_options, options_view, option_kind_of,
    option_kind_code,
};

verus! {

/// A frame of the first protocol version, laid out in a fixed buffer:
/// octets 0..4 hold the sequence number, 4..8 the acknowledgment number (both big endian),
/// octet 8 the control bits, octet 11 the data offset, then come the options and the data.
#[derive(Debug, Clone)]
pub struct Frame {
    frame: [u8; MAX_FRAME_SIZE],
    data_size: usize,
    /// In bytes
    options_size: usize,
}

pub const SEQUENCE_NUMBER_OCTET: usize = 0;

pub const ACKNOWLEDGMENT_NUMBER_OCTET: usize = 4;

pub const CONTROL_BITS_OCTET: usize = 8;

pub const DATA_OFFSET_OCTET: usize = 11;

pub const OPTIONS_OCTET: usize = 12;

/// The sequence number held by a frame buffer.
pub open spec fn frame_sequence_number(bytes: Seq<u8>) -> u32 {
    be_u32_value(bytes.subrange(0, 4)) as u32
}

/// The acknowledgment number held by a frame buffer.
pub open spec fn frame_acknowledgment_number(bytes: Seq<u8>) -> u32 {
    be_u32_value(bytes.subrange(4, 8)) as u32
}

/// The control octet of a frame buffer.
pub open spec fn frame_control_bits(bytes: Seq<u8>) -> u8 {
    bytes[CONTROL_BITS_OCTET as int]
}

/// The data offset octet of a frame buffer.
pub open spec fn frame_data_offset(bytes: Seq<u8>) -> u8 {
    bytes[DATA_OFFSET_OCTET as int]
}

/// The data of a frame buffer: everything from the data offset to the end of the buffer.
pub open spec fn frame_data(bytes: Seq<u8>) -> Seq<u8> {
    bytes.subrange(frame_data_offset(bytes) as int, bytes.len() as int)
}

/// The buffer after `set_data(data)` on a frame whose options take `options_size` octets.
pub open spec fn frame_with_data(bytes: Seq<u8>, options_size: int, data: Seq<u8>) -> Seq<u8> {
    splice(
        bytes.update(DATA_OFFSET_OCTET as int, (MIN_FRAME_SIZE + options_size) as u8),
        MIN_FRAME_SIZE + options_size,
        data,
    )
}

/// Whether `get_options` reads a buffer without panicking.
pub open spec fn options_readable(bytes: Seq<u8>) -> bool {
    &&& frame_data_offset(bytes) >= MIN_FRAME_SIZE
    &&& frame_data_offset(bytes) > MIN_FRAME_SIZE ==> {
        &&& bytes[OPTIONS_OCTET as int] <= 1
        &&& OPTIONS_OCTET + 2 + bytes[OPTIONS_OCTET + 1] <= MAX_FRAME_SIZE
    }
}

/// What `get_options` reads from a buffer when the data offset announces options: the first
/// option, once per `2 + length` octets announced (rounded up).
pub open spec fn frame_options_read(bytes: Seq<u8>, options: Seq<(OptionKind, Seq<u8>)>) -> bool {
    let size = frame_data_offset(bytes) - MIN_FRAME_SIZE;
    let step = 2 + bytes[OPTIONS_OCTET + 1];
    let first = (
        option_kind_of(bytes[OPTIONS_OCTET as int]),
        bytes.subrange(OPTIONS_OCTET + 2, OPTIONS_OCTET + 2 + bytes[OPTIONS_OCTET + 1]),
    );
    &&& options.len() * step >= size
    &&& options.len() > 0
    &&& (options.len() - 1) * step < size
    &&& forall|i: int| 0 <= i < options.len() ==> #[trigger] options[i] == first
}

impl Frame {
    /// The whole buffer of the frame.
    pub closed spec fn bytes(&self) -> Seq<u8> {
        self.frame@
    }

    /// How many octets of data `set_data` last wrote.
    pub closed spec fn data_len(&self) -> nat {
        self.data_size as nat
    }

    /// How many octets the options written since the last `set_options` take.
    pub closed spec fn options_len(&self) -> nat {
        self.options_size as nat
    }

    /// The whole buffer of the frame.
    pub fn bytes_slice(&self) -> (r: &[u8])
        ensures
            r@ == self.bytes(),
    {
        self.frame.as_slice()
    }

    pub proof fn lemma_len(&self)
        ensures
            self.bytes().len() == MAX_FRAME_SIZE,
    {
    }

    fn write_bytes(&mut self, offset: usize, data: &[u8])
        requires
            offset + data@.len() <= MAX_FRAME_SIZE,
        ensures
            final(self).bytes() == splice(old(self).bytes(), offset as int, data@),
            final(self).data_len() == old(self).data_len(),
            final(self).options_len() == old(self).options_len(),
    {
        let ghost start = self.frame@;
        let mut i: usize = 0;
        while i < data.len()
            invariant
                offset + data@.len() <= MAX_FRAME_SIZE,
                0 <= i <= data@.len(),
                self.frame@.len() == MAX_FRAME_SIZE,
                self.data_size == old(self).data_size,
                self.options_size == old(self).options_size,
                start == old(self).frame@,
                forall|j: int|
                    0 <= j < MAX_FRAME_SIZE && !(offset <= j < offset + i) ==> #[trigger] self.frame@[j]
                        == start[j],
                forall|j: int| offset <= j < offset + i ==> #[trigger] self.frame@[j] == data@[j - offset],
            decreases data@.len() - i,
        {
            self.frame[offset + i] = data[i];
            i = i + 1;
        }
        assert(self.frame@ =~= splice(start, offset as int, data@));
    }

    pub fn set_sequence_number(&mut self, sequence_number: u32)
        ensures
            final(self).bytes() == splice(old(self).bytes(), 0, u32_be_bytes(sequence_number)),
            final(self).data_len() == old(self).data_len(),
            final(self).options_len() == old(self).options_len(),
            frame_sequence_number(final(self).bytes()) == sequence_number,
    {
        let net_sequence_number = crate::bytes::u32_to_be_bytes(sequence_number);
        self.write_bytes(SEQUENCE_NUMBER_OCTET, net_sequence_number.as_slice());
        proof {
            lemma_u32_be_roundtrip(sequence_number);
            assert(self.frame@.subrange(0, 4) =~= u32_be_bytes(sequence_number));
        }
    }

    pub fn get_sequence_number(&self) -> (r: u32)
        ensures
            r == frame_sequence_number(self.bytes()),
    {
        crate::bytes::u32_from_be_bytes(self.frame[0], self.frame[1], self.frame[2], self.frame[3])
    }

    pub fn set_acknowledgment_number(&mut self, acknowledgment_number: u32)
        ensures
            final(self).bytes() == splice(
                old(self).bytes(),
                ACKNOWLEDGMENT_NUMBER_OCTET as int,
                u32_be_bytes(acknowledgment_number),
            ),
            final(self).data_len() == old(self).data_len(),
            final(self).options_len() == old(self).options_len(),
            frame_acknowledgment_number(final(self).bytes()) == acknowledgment_number,
    {
        let net_acknowledgment_number = crate::bytes::u32_to_be_bytes(acknowledgment_number);
        self.write_bytes(ACKNOWLEDGMENT_NUMBER_OCTET, net_acknowledgment_number.as_slice());
        proof {
            lemma_u32_be_roundtrip(acknowledgment_number);
            assert(self.frame@.subrange(4, 8) =~= u32_be_bytes(acknowledgment_number));
        }
    }

    pub fn get_acknowledgment_number(&self) -> (r: u32)
        ensures
            r == frame_acknowledgment_number(self.bytes()),
    {
        crate::bytes::u32_from_be_bytes(self.frame[4], self.frame[5], self.frame[6], self.frame[7])
    }

    pub fn set_control_bits(&mut self, control_bits: u8)
        ensures
            final(self).bytes() == old(self).bytes().update(
                CONTROL_BITS_OCTET as int,
                control_bits,
            ),
            final(self).data_len() == old(self).data_len(),
            final(self).options_len() == old(self).options_len(),
    {
        self.frame[CONTROL_BITS_OCTET] = control_bits;
    }

    pub fn get_control_bits(&self) -> (r: u8)
        ensures
            r == frame_control_bits(self.bytes()),
    {
        self.frame[CONTROL_BITS_OCTET]
    }

    /// Writes the options one after another from the options octet on, replacing those
    /// written before.
    pub fn set_options(&mut self, options: &[FrameOption])
        requires
            MIN_FRAME_SIZE + encode_options(options_view(options@)).len() <= MAX_FRAME_SIZE,
        ensures
            final(self).bytes() == splice(
                old(self).bytes(),
                OPTIONS_OCTET as int,
                encode_options(options_view(options@)),
            ),
            final(self).options_len() == encode_options(options_view(options@)).len(),
            final(self).data_len() == old(self).data_len(),
    {
        self.options_size = 0;
        let ghost start = self.frame@;
        let mut i: usize = 0;
        while i < options.len()
            invariant
                0 <= i <= options@.len(),
                MIN_FRAME_SIZE + encode_options(options_view(options@)).len() <= MAX_FRAME_SIZE,
                self.options_size == encode_options(options_view(options@.take(i as int))).len(),
                self.frame@ == splice(
                    start,
                    OPTIONS_OCTET as int,
                    encode_options(options_view(options@.take(i as int))),
                ),
                self.data_size == old(self).data_size,
                start == old(self).frame@,
            decreases options@.len() - i,
        {
            proof {
                lemma_encode_options_prefix(options_view(options@), i as int + 1);
                assert(options_view(options@.take(i + 1)) =~= options_view(options@).take(i + 1));
                assert(options_view(options@.take(i as int)) =~= options_view(options@).take(i as int));
                assert(options_view(options@).take(i + 1).drop_last() =~= options_view(options@).take(i as int));
            }
            let option = &options[i];
            let start_offset = OPTIONS_OCTET + self.options_size;
            let ghost before = self.frame@;
            self.frame[start_offset] = option.kind.code();
            let len = option.data.len();
            self.frame[start_offset + 1] = len as u8;
            let data_offset = start_offset + 2;
            self.write_bytes(data_offset, option.data);
            self.options_size = self.options_size + 2 + len;
            proof {
                let prev = encode_options(options_view(options@.take(i as int)));
                let one = encode_option(options@[i as int].kind, options@[i as int].data@);
                assert(self.frame@ =~= splice(before, start_offset as int, one));
                assert(encode_options(options_view(options@.take(i + 1))) == prev + one);
                lemma_splice_append(start, OPTIONS_OCTET as int, prev, one);
            }
            i = i + 1;
        }
        assert(options@.take(options@.len() as int) =~= options@);
    }

    /// Reads the options announced by the data offset.
    pub fn get_options(&self) -> (r: Option<Vec<FrameOption<'_>>>)
        requires
            options_readable(self.bytes()),
        ensures
            frame_data_offset(self.bytes()) == MIN_FRAME_SIZE <==> r is None,
            r matches Some(v) ==> frame_options_read(self.bytes(), options_view(v@)),
    {
        let mut options: Vec<FrameOption<'_>> = Vec::new();
        let offset = OPTIONS_OCTET;
        let options_size = self.get_data_offset() as usize - MIN_FRAME_SIZE;
        if options_size == 0 {
            return None;
        }
        let ghost bytes = self.frame@;
        let ghost first = (
            option_kind_of(bytes[OPTIONS_OCTET as int]),
            bytes.subrange(OPTIONS_OCTET + 2, OPTIONS_OCTET + 2 + bytes[OPTIONS_OCTET + 1]),
        );
        let ghost step = 2 + bytes[OPTIONS_OCTET + 1];
        let mut options_read: usize = 0;
        assert(options@.len() * step == 0) by (nonlinear_arith)
            requires
                options@.len() == 0,
        ;
        while options_read < options_size
            invariant
                bytes == self.frame@,
                bytes.len() == MAX_FRAME_SIZE,
                offset == OPTIONS_OCTET,
                first == (
                    option_kind_of(bytes[OPTIONS_OCTET as int]),
                    bytes.subrange(OPTIONS_OCTET + 2, OPTIONS_OCTET + 2 + bytes[OPTIONS_OCTET + 1]),
                ),
                options_readable(bytes),
                options_size == frame_data_offset(bytes) - MIN_FRAME_SIZE,
                options_size > 0,
                options_size <= 255,
                step == 2 + bytes[OPTIONS_OCTET + 1],
                options_read == options@.len() * step,
                options_read < 600,
                options@.len() > 0 ==> (options@.len() - 1) * step < options_size,
                forall|i: int| 0 <= i < options@.len() ==> #[trigger] options_view(options@)[i] == first,
            decreases 600 - options_read,
        {
            let kind: OptionKind = OptionKind::from(self.frame[offset]);
            let len = self.frame[offset + 1] as usize;
            let data_offset = offset + 2;
            let data = crate::bytes::subslice(self.frame.as_slice(), data_offset, data_offset + len);
            let ghost before = options@;
            options.push(FrameOption::new(kind, data));
            proof {
                assert(options@ == before.push(options@.last()));
                assert forall|i: int| 0 <= i < options@.len() implies #[trigger] options_view(options@)[i] == first by {
                    if i < before.len() {
                        assert(options_view(options@)[i] == options_view(before)[i]);
                    }
                }
                assert(options@.len() * step == before.len() * step + step) by (nonlinear_arith)
                    requires options@.len() == before.len() + 1;
            }
            options_read = options_read + 2 + len;
        }
        Some(options)
    }

    pub fn set_data_offset(&mut self, data_offset: u8)
        ensures
            final(self).bytes() == old(self).bytes().update(DATA_OFFSET_OCTET as int, data_offset),
            final(self).data_len() == old(self).data_len(),
            final(self).options_len() == old(self).options_len(),
    {
        self.frame[DATA_OFFSET_OCTET] = data_offset;
    }

    pub fn get_data_offset(&self) -> (r: u8)
        ensures
            r == frame_data_offset(self.bytes()),
    {
        self.frame[DATA_OFFSET_OCTET]
    }

    /// Writes the data after the options, with its offset in the header.
    pub fn set_data(&mut self, data: &[u8])
        requires
            MIN_FRAME_SIZE + old(self).options_len() + data@.len() <= MAX_FRAME_SIZE,
        ensures
            final(self).bytes() == frame_with_data(
                old(self).bytes(),
                old(self).options_len() as int,
                data@,
            ),
            final(self).data_len() == data@.len(),
            final(self).options_len() == old(self).options_len(),
    {
        self.data_size = data.len();
        let offset = MIN_FRAME_SIZE + self.options_size;
        self.set_data_offset(offset as u8);
        self.write_bytes(offset, data);
    }

    /// The buffer from the data offset to its end.
    pub fn get_data(&self) -> (r: &[u8])
        requires
            frame_data_offset(self.bytes()) <= MAX_FRAME_SIZE,
        ensures
            r@ == frame_data(self.bytes()),
    {
        let offset = self.get_data_offset() as usize;
        crate::bytes::subslice(self.frame.as_slice(), offset, MAX_FRAME_SIZE)
    }

    /// The header, the options and the data.
    pub fn get_buffer(&self) -> (r: &[u8])
        requires
            MIN_FRAME_SIZE + self.options_len() + self.data_len() <= MAX_FRAME_SIZE,
        ensures
            r@ == self.bytes().subrange(0, MIN_FRAME_SIZE + self.options_len() + self.data_len()),
    {
        crate::bytes::subslice(self.frame.as_slice(), 0, MIN_FRAME_SIZE + self.options_size + self.data_size)
    }

    /// A frame that starts with the bytes of `buffer`, zero after them.
    pub fn from_buffer(buffer: &[u8]) -> (r: Frame)
        requires
            buffer@.len() <= MAX_FRAME_SIZE,
        ensures
            r.bytes() == buffer@ + Seq::new((MAX_FRAME_SIZE - buffer@.len()) as nat, |i: int| 0u8),
            r.data_len() == 0,
            r.options_len() == 0,
    {
        let mut frame = Frame::default();
        frame.write_bytes(0, buffer);
        assert(frame.frame@ =~= buffer@ + Seq::new(
            (MAX_FRAME_SIZE - buffer@.len()) as nat,
            |i: int| 0u8,
        ));
        frame
    }
}

impl Default for Frame {
    fn default() -> (r: Self)
        ensures
            r.bytes() == Seq::new(MAX_FRAME_SIZE as nat, |i: int| 0u8),
            r.data_len() == 0,
            r.options_len() == 0,
    {
        let r = Self { frame: [0u8; MAX_FRAME_SIZE], data_size: 0, options_size: 0 };
        assert(r.frame@ =~= Seq::new(MAX_FRAME_SIZE as nat, |i: int| 0u8));
        r
    }
}

impl From<[u8; MAX_FRAME_SIZE]> for Frame {
    fn from(value: [u8; MAX_FRAME_SIZE]) -> (r: Self) {
        Self { frame: value, data_size: 0, options_size: 0 }
    }
}

impl vstd::std_specs::convert::FromSpecImpl<[u8; MAX_FRAME_SIZE]> for Frame {
    open spec fn obeys_from_spec() -> bool {
        true
    }

    closed spec fn from_spec(value: [u8; MAX_FRAME_SIZE]) -> Self {
        Frame { frame: value, data_size: 0, options_size: 0 }
    }
}

/// A frame made from a whole buffer holds that buffer, with no options and no data written.
pub proof fn lemma_frame_from_array(value: [u8; MAX_FRAME_SIZE])
    ensures
        <Frame as vstd::std_specs::convert::FromSpec<[u8; MAX_FRAME_SIZE]>>::from_spec(value).bytes() == value@,
        <Frame as vstd::std_specs::convert::FromSpec<[u8; MAX_FRAME_SIZE]>>::from_spec(value).data_len() == 0,
        <Frame as vstd::std_specs::convert::FromSpec<[u8; MAX_FRAME_SIZE]>>::from_spec(value).options_len() == 0,
{
}

/// The sequence number and the acknowledgment number are held apart: writing one leaves the
/// other, the control bits and the data offset as they were.
pub proof fn lemma_numbers_independent(bytes: Seq<u8>, sequence_number: u32, acknowledgment_number: u32)
    requires
        bytes.len() == MAX_FRAME_SIZE,
    ensures
        ({
            let after_seq = splice(bytes, 0, u32_be_bytes(sequence_number));
            let after_both = splice(after_seq, ACKNOWLEDGMENT_NUMBER_OCTET as int, u32_be_bytes(acknowledgment_number));
            &&& frame_sequence_number(after_both) == sequence_number
            &&& frame_acknowledgment_number(after_both) == acknowledgment_number
            &&& frame_acknowledgment_number(after_seq) == frame_acknowledgment_number(bytes)
            &&& frame_control_bits(after_both) == frame_control_bits(bytes)
            &&& frame_data_offset(after_both) == frame_data_offset(bytes)
        }),
{
    lemma_u32_be_roundtrip(sequence_number);
    lemma_u32_be_roundtrip(acknowledgment_number);
    let after_seq = splice(bytes, 0, u32_be_bytes(sequence_number));
    let after_both = splice(after_seq, ACKNOWLEDGMENT_NUMBER_OCTET as int, u32_be_bytes(acknowledgment_number));
    assert(after_both.subrange(0, 4) =~= u32_be_bytes(sequence_number));
    assert(after_both.subrange(4, 8) =~= u32_be_bytes(acknowledgment_number));
    assert(after_seq.subrange(4, 8) =~= bytes.subrange(4, 8));
}

/// Writing data and reading it back gives the data followed by the rest of the buffer; the
/// numbers and the control bits stay as they were.
pub proof fn lemma_data_roundtrip(bytes: Seq<u8>, options_size: int, data: Seq<u8>)
    requires
        bytes.len() == MAX_FRAME_SIZE,
        0 <= options_size,
        MIN_FRAME_SIZE + options_size + data.len() <= MAX_FRAME_SIZE,
    ensures
        ({
            let after = frame_with_data(bytes, options_size, data);
            &&& frame_data(after).take(data.len() as int) == data
            &&& frame_data_offset(after) == MIN_FRAME_SIZE + options_size
            &&& frame_sequence_number(after) == frame_sequence_number(bytes)
            &&& frame_acknowledgment_number(after) == frame_acknowledgment_number(bytes)
            &&& frame_control_bits(after) == frame_control_bits(bytes)
        }),
{
    let after = frame_with_data(bytes, options_size, data);
    assert(frame_data(after).take(data.len() as int) =~= data);
    assert(after.subrange(0, 4) =~= bytes.subrange(0, 4));
    assert(after.subrange(4, 8) =~= bytes.subrange(4, 8));
}

} // verus!
