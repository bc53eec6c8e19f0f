use vstd::prelude::*;

use crate::bytes::{splice, be_u32_value, u32_be_bytes, lemma_u32_be_roundtrip};
use crate::constants::{MAX_DATA_SIZE, MAX_FRAME_SIZE, MIN_FRAME_SIZE};
use crate::frame::{
    Frame, frame_control_bits, frame_sequence_number, frame_acknowledgment_number, frame_data,
    frame_data_offset, options_readable, OPTIONS_OCTET, CONTROL_BITS_OCTET, DATA_OFFSET_OCTET,
};
use crate::seq_util::resized;
use crate::transport_layer::control_bits::{ControlBits, known_bits};
use crate::transport_layer::option::{
    FrameOption, OptionKind, option_kind_of, encode_option, encode_options,
};
use crate::transport_layer::control_bits::EOM_BIT;
use crate::transmitter::{segment_frame_bytes, segment_options, segment_data};

verus! {

/// The receiving side of the first protocol version: where the message stands and the
/// buffer it is written into.
pub struct Receiver {
    /// The earliest sequence number that has not been received.
    earliest_not_received: u32,
    /// Buffer to store received data.
    read_buffer: Vec<u8>,
}

/// What the listener does after a frame.
pub enum ReceiverAction {
    /// The frame acknowledges this number: hand it to the transmitter.
    HandleAcknowledgment(u32),
    /// Acknowledge `acknowledge`; when `message` holds the complete message, hand it on and
    /// stop listening.
    Data { acknowledge: u32, message: Option<Vec<u8>> },
}

/// The earliest not received sequence number after receiving `sequence_number`: when the
/// received one is the next expected, that is the earliest not received, it moves just past
/// it; otherwise it stays.
pub open spec fn next_earliest(earliest: u32, sequence_number: u32) -> u32 {
    if sequence_number == earliest {
        (sequence_number + 1) as u32
    } else {
        earliest
    }
}

/// Whether the buffer-size option announces the size of the whole message.
pub open spec fn announces_buffer_size(bytes: Seq<u8>) -> bool {
    frame_data_offset(bytes) > MIN_FRAME_SIZE && option_kind_of(bytes[OPTIONS_OCTET as int])
        == OptionKind::BufferSize
}

/// The message size that the first option of a buffer announces.
pub open spec fn announced_size(bytes: Seq<u8>) -> int {
    be_u32_value(bytes.subrange(OPTIONS_OCTET + 2, OPTIONS_OCTET + 6))
}

/// The read buffer after the options of a frame are applied.
pub open spec fn buffer_after_options(buffer: Seq<u8>, bytes: Seq<u8>) -> Seq<u8> {
    if announces_buffer_size(bytes) {
        resized(buffer, announced_size(bytes), 0u8)
    } else {
        buffer
    }
}

/// Where the data of segment `sequence_number` starts in the read buffer.
pub open spec fn segment_offset(sequence_number: u32) -> int {
    (sequence_number - 1) * MAX_DATA_SIZE
}

/// The buffer after `data` is written into it from `offset` on: the octets that fall past
/// the end of the buffer, the frame's padding after the message, are not stored.
pub open spec fn store_segment(buffer: Seq<u8>, offset: int, data: Seq<u8>) -> Seq<u8> {
    if offset >= buffer.len() {
        buffer
    } else if offset + data.len() <= buffer.len() {
        splice(buffer, offset, data)
    } else {
        splice(buffer, offset, data.take(buffer.len() - offset))
    }
}

/// Whether the listener takes a frame without panicking, with this state: known control
/// bits; for a data frame, room for the counter, readable options whose buffer-size option
/// holds four octets, a data offset within the frame, and a segment number from 1 on.
pub open spec fn frame_acceptable(earliest: u32, buffer: Seq<u8>, bytes: Seq<u8>) -> bool {
    let control = frame_control_bits(bytes);
    let sequence_number = frame_sequence_number(bytes);
    &&& known_bits(control)
    &&& control % 2 == 0 ==> {
        &&& sequence_number == earliest ==> sequence_number < u32::MAX
        &&& options_readable(bytes)
        &&& announces_buffer_size(bytes) ==> bytes[OPTIONS_OCTET + 1] == 4
        &&& frame_data_offset(bytes) <= MAX_FRAME_SIZE
        &&& sequence_number >= 1
    }
}

impl Receiver {
    /// The earliest sequence number not received yet.
    pub closed spec fn earliest(&self) -> u32 {
        self.earliest_not_received
    }

    /// The read buffer.
    pub closed spec fn buffer(&self) -> Seq<u8> {
        self.read_buffer@
    }

    pub fn new() -> (r: Self)
        ensures
            r.earliest() == 0,
            r.buffer() == Seq::<u8>::empty(),
    {
        Self { earliest_not_received: 0, read_buffer: Vec::new() }
    }

    /// Whether `handle_frame` takes this frame in the receiver's state.
    pub fn accepts_frame(&self, frame: &Frame) -> (r: bool)
        ensures
            r == frame_acceptable(self.earliest(), self.buffer(), frame.bytes()),
    {
        proof {
            frame.lemma_len();
        }
        let b = frame.bytes_slice();
        let control = b[CONTROL_BITS_OCTET];
        if control > 3 {
            return false;
        }
        if control % 2 == 1 {
            return true;
        }
        let sequence_number = frame.get_sequence_number();
        if sequence_number == self.earliest_not_received && sequence_number == u32::MAX {
            return false;
        }
        let data_offset = b[DATA_OFFSET_OCTET] as usize;
        if data_offset < MIN_FRAME_SIZE {
            return false;
        }
        let announced = data_offset > MIN_FRAME_SIZE;
        if announced && (b[OPTIONS_OCTET] > 1 || OPTIONS_OCTET + 2 + b[OPTIONS_OCTET + 1] as usize > MAX_FRAME_SIZE) {
            return false;
        }
        let sizes = announced && b[OPTIONS_OCTET] == 0;
        if sizes && b[OPTIONS_OCTET + 1] != 4 {
            return false;
        }
        if data_offset > MAX_FRAME_SIZE {
            return false;
        }
        sequence_number != 0
    }

    /// Constructs the message from the buffer.
    pub fn construct_message(&self) -> (r: Vec<u8>)
        ensures
            r@ == self.buffer(),
    {
        crate::bytes::copy_range(self.read_buffer.as_slice(), 0, self.read_buffer.len())
    }

    /// Inserts data into the buffer at the position derived from sequence number; what
    /// lies past the end of the buffer is not stored.
    pub fn insert_data_into_buffer(&mut self, sequence_number: u32, data: &[u8])
        requires
            sequence_number >= 1,
        ensures
            final(self).buffer() == store_segment(old(self).buffer(), segment_offset(sequence_number), data@),
            final(self).earliest() == old(self).earliest(),
    {
        let buffer_len = self.read_buffer.len();
        let shift: u64 = (sequence_number as u64 - 1) * MAX_DATA_SIZE as u64;
        if shift >= buffer_len as u64 {
            return;
        }
        let buffer_shift = shift as usize;
        let count: usize = if data.len() <= buffer_len - buffer_shift {
            data.len()
        } else {
            buffer_len - buffer_shift
        };
        let ghost part = data@.take(count as int);
        proof {
            if count == data.len() {
                assert(part =~= data@);
            }
        }
        let mut i: usize = 0;
        let ghost start = self.read_buffer@;
        while i < count
            invariant
                buffer_shift == segment_offset(sequence_number),
                buffer_shift + count <= start.len(),
                count <= data@.len(),
                part == data@.take(count as int),
                start.len() == buffer_len,
                start == old(self).read_buffer@,
                self.earliest_not_received == old(self).earliest_not_received,
                0 <= i <= count,
                self.read_buffer@.len() == start.len(),
                forall|j: int|
                    0 <= j < start.len() && !(buffer_shift <= j < buffer_shift + i) ==> #[trigger] self.read_buffer@[j]
                        == start[j],
                forall|j: int|
                    buffer_shift <= j < buffer_shift + i ==> #[trigger] self.read_buffer@[j] == data@[j - buffer_shift],
            decreases count - i,
        {
            self.read_buffer.set(buffer_shift + i, data[i]);
            i += 1;
        }
        assert(self.read_buffer@ =~= splice(start, buffer_shift as int, part));
    }

    /// Resizes the buffer to the size specified in the option.
    /// This operation is performed when the first frame is received.
    pub fn sync_read_buffer(&mut self, option: &FrameOption)
        requires
            option.data@.len() == 4,
        ensures
            final(self).buffer() == resized(old(self).buffer(), be_u32_value(option.data@), 0u8),
            final(self).earliest() == old(self).earliest(),
    {
        let buffer_size = crate::bytes::u32_from_be_bytes(
            option.data[0],
            option.data[1],
            option.data[2],
            option.data[3],
        );
        assert(seq![option.data@[0], option.data@[1], option.data@[2], option.data@[3]] =~= option.data@);
        self.read_buffer.resize(buffer_size as usize, 0);
        assert(self.read_buffer@ =~= resized(old(self).read_buffer@, be_u32_value(option.data@), 0u8));
    }

    /// Updates the earliest_not_received value.
    /// Earliest not received is updated only if the sequence number is the next expected sequence number.
    pub fn update_earliest_not_received(&mut self, sequence_number: u32)
        requires
            sequence_number == old(self).earliest() ==> sequence_number < u32::MAX,
        ensures
            final(self).earliest() == next_earliest(old(self).earliest(), sequence_number),
            final(self).buffer() == old(self).buffer(),
    {
        if sequence_number == self.earliest_not_received {
            self.earliest_not_received = sequence_number + 1;
        }
    }

    /// Takes one frame from the network: an acknowledgment goes to the transmitter; a data
    /// frame is acknowledged, moves the counters, sizes the buffer as its options say, and
    /// its data goes into the buffer; the end-of-message bit completes the message.
    pub fn handle_frame(&mut self, frame: &Frame) -> (r: ReceiverAction)
        requires
            frame_acceptable(old(self).earliest(), old(self).buffer(), frame.bytes()),
        ensures
            ({
                let bytes = frame.bytes();
                let control = frame_control_bits(bytes);
                let sequence_number = frame_sequence_number(bytes);
                if control % 2 == 1 {
                    &&& r == ReceiverAction::HandleAcknowledgment(frame_acknowledgment_number(bytes))
                    &&& final(self).earliest() == old(self).earliest()
                    &&& final(self).buffer() == old(self).buffer()
                } else {
                    &&& final(self).earliest() == next_earliest(old(self).earliest(), sequence_number)
                    &&& final(self).buffer() == store_segment(
                        buffer_after_options(old(self).buffer(), bytes),
                        segment_offset(sequence_number),
                        frame_data(bytes),
                    )
                    &&& r matches ReceiverAction::Data { acknowledge, message }
                    &&& acknowledge == sequence_number
                    &&& (control / 2 == 1) == (message is Some)
                    &&& message matches Some(m) ==> m@ == final(self).buffer()
                }
            }),
    {
        proof {
            frame.lemma_len();
        }
        let bits = frame.get_control_bits();
        let control_bits = ControlBits::from_bits(bits).unwrap();
        let sequence_number = frame.get_sequence_number();
        if control_bits.contains(ControlBits::ack()) {
            assert(bits % 2 == 1) by (bit_vector)
                requires
                    bits <= 3u8,
                    bits & 1u8 == 1u8,
            ;
            let acknowledgment_number = frame.get_acknowledgment_number();
            return ReceiverAction::HandleAcknowledgment(acknowledgment_number);
        }
        assert(bits % 2 == 0) by (bit_vector)
            requires
                bits <= 3u8,
                bits & 1u8 != 1u8,
        ;
        self.update_earliest_not_received(sequence_number);
        let ghost before_options = self.read_buffer@;
        if let Some(options) = frame.get_options() {
            let mut i: usize = 0;
            while i < options.len()
                invariant
                    0 <= i <= options@.len(),
                    options@.len() > 0,
                    frame.bytes().len() == MAX_FRAME_SIZE,
                    options_readable(frame.bytes()),
                    announces_buffer_size(frame.bytes()) ==> frame.bytes()[OPTIONS_OCTET + 1] == 4,
                    crate::frame::frame_options_read(frame.bytes(), crate::transport_layer::option::options_view(options@)),
                    frame_acceptable(old(self).earliest(), old(self).buffer(), frame.bytes()),
                    frame_data_offset(frame.bytes()) > MIN_FRAME_SIZE,
                    before_options == old(self).read_buffer@,
                    self.earliest_not_received == next_earliest(old(self).earliest(), sequence_number),
                    i == 0 ==> self.read_buffer@ == before_options,
                    i > 0 ==> self.read_buffer@ == buffer_after_options(before_options, frame.bytes()),
                decreases options@.len() - i,
            {
                let option = &options[i];
                let ghost b = frame.bytes();
                proof {
                    assert(crate::transport_layer::option::options_view(options@)[i as int] == (option.kind, option.data@));
                    assert(option.kind == option_kind_of(b[OPTIONS_OCTET as int]));
                    assert(option.data@ == b.subrange(OPTIONS_OCTET + 2, OPTIONS_OCTET + 2 + b[OPTIONS_OCTET + 1]));
                }
                match option.kind {
                    OptionKind::BufferSize => {
                        assert(announces_buffer_size(b));
                        self.sync_read_buffer(option);
                        proof {
                            if i > 0 {
                                let n = announced_size(b);
                                assert(resized(resized(before_options, n, 0u8), n, 0u8) =~= resized(before_options, n, 0u8));
                            }
                        }
                    },
                    OptionKind::SegmentNumber => {
                        assert(!announces_buffer_size(b));
                    },
                }
                i += 1;
            }
        }
        assert(self.read_buffer@ == buffer_after_options(before_options, frame.bytes()));
        let data = frame.get_data();
        self.insert_data_into_buffer(sequence_number, data);
        if control_bits.contains(ControlBits::eom()) {
            assert(bits / 2 == 1) by (bit_vector)
                requires
                    bits <= 3u8,
                    bits & 2u8 == 2u8,
            ;
            let message = self.construct_message();
            ReceiverAction::Data { acknowledge: sequence_number, message: Some(message) }
        } else {
            assert(bits / 2 == 0) by (bit_vector)
                requires
                    bits <= 3u8,
                    bits & 2u8 != 2u8,
            ;
            ReceiverAction::Data { acknowledge: sequence_number, message: None }
        }
    }
}

/// How many segments a message of `len` octets takes.
pub open spec fn segment_count(len: nat) -> nat {
    ((len + MAX_DATA_SIZE - 1) / MAX_DATA_SIZE as int) as nat
}

/// The octets that the options of segment `s` of `k` take.
pub open spec fn segment_options_size(s: u32, k: u32) -> int {
    if s == 1 && k > 1 {
        12
    } else {
        6
    }
}

/// The layout of the frame that carries segment `s` of the `k` segments of `data`, numbered
/// `n`: its number, its control bits (end of message on the last segment only), where its
/// data starts, its first option (the message's size on the first segment, the segment's
/// number on the others), and the segment's octets at the start of its data.
pub proof fn lemma_segment_frame_layout(data: Seq<u8>, s: u32, k: u32, n: u32)
    requires
        0 < data.len() <= u32::MAX,
        k == segment_count(data.len()),
        1 <= s <= k,
    ensures
        ({
            let b = segment_frame_bytes(data, s, k, n);
            let seg = segment_data(data, s);
            &&& b.len() == MAX_FRAME_SIZE
            &&& encode_options(segment_options(data.len() as u32, s, k)).len() == segment_options_size(s, k)
            &&& frame_sequence_number(b) == n
            &&& frame_control_bits(b) == if s == k { EOM_BIT } else { 0u8 }
            &&& frame_data_offset(b) == MIN_FRAME_SIZE + segment_options_size(s, k)
            &&& b[OPTIONS_OCTET as int] == if s == 1 { 0u8 } else { 1u8 }
            &&& b[OPTIONS_OCTET + 1] == 4
            &&& s == 1 ==> b.subrange(OPTIONS_OCTET + 2, OPTIONS_OCTET + 6) == u32_be_bytes(data.len() as u32)
            &&& seg.len() == if s * MAX_DATA_SIZE <= data.len() { MAX_DATA_SIZE as int } else { data.len() - (s - 1) * MAX_DATA_SIZE }
            &&& frame_data(b).len() >= seg.len()
            &&& forall|t: int| 0 <= t < seg.len() ==> #[trigger] frame_data(b)[t] == seg[t]
        }),
{
    let len = data.len() as u32;
    let opts = segment_options(len, s, k);
    let options = encode_options(opts);
    lemma_u32_be_roundtrip(len);
    lemma_u32_be_roundtrip(s);
    lemma_u32_be_roundtrip(n);
    lemma_u32_be_roundtrip(0);
    let e: Seq<(OptionKind, Seq<u8>)> = Seq::empty();
    assert(encode_options(e) =~= Seq::<u8>::empty());
    let first = if s == 1 { (OptionKind::BufferSize, u32_be_bytes(len)) } else { (OptionKind::SegmentNumber, u32_be_bytes(s)) };
    if s == 1 && k > 1 {
        assert(opts.drop_last() =~= seq![first]);
        assert(opts.drop_last().drop_last() =~= e);
        assert(encode_options(opts.drop_last()) =~= encode_option(first.0, first.1));
        assert(options =~= encode_option(first.0, first.1) + encode_option(OptionKind::SegmentNumber, u32_be_bytes(s)));
    } else {
        assert(opts =~= seq![first]);
        assert(opts.drop_last() =~= e);
        assert(options =~= encode_option(first.0, first.1));
    }
    assert(options.len() == segment_options_size(s, k));
    assert(options[0] == if s == 1 { 0u8 } else { 1u8 });
    assert(options[1] == 4);
    if s == 1 {
        assert(options.subrange(2, 6) =~= u32_be_bytes(len));
    }
    let with_options = splice(crate::transmitter::zero_frame_legacy(), OPTIONS_OCTET as int, options);
    let numbered = splice(
        splice(with_options, 0, u32_be_bytes(n)),
        crate::frame::ACKNOWLEDGMENT_NUMBER_OCTET as int,
        u32_be_bytes(0),
    );
    let control = if s == k { EOM_BIT } else { 0u8 };
    let o = options.len() as int;
    let seg = segment_data(data, s);
    let x = numbered.update(CONTROL_BITS_OCTET as int, control);
    let b = segment_frame_bytes(data, s, k, n);
    assert(b == crate::frame::frame_with_data(x, o, seg));
    assert(seg.len() <= MAX_DATA_SIZE);
    assert(b.len() == MAX_FRAME_SIZE);
    assert(b.subrange(0, 4) =~= u32_be_bytes(n));
    assert(b[CONTROL_BITS_OCTET as int] == control);
    assert(b[DATA_OFFSET_OCTET as int] == MIN_FRAME_SIZE + o);
    assert(b[OPTIONS_OCTET as int] == options[0]);
    assert(b[OPTIONS_OCTET + 1] == options[1]);
    if s == 1 {
        assert(b.subrange(OPTIONS_OCTET + 2, OPTIONS_OCTET + 6) =~= options.subrange(2, 6));
    }
    assert forall|t: int| 0 <= t < seg.len() implies #[trigger] frame_data(b)[t] == seg[t] by {
        assert(frame_data(b)[t] == b[MIN_FRAME_SIZE + o + t]);
    }
}

proof fn lemma_store_segment(buffer: Seq<u8>, offset: int, data: Seq<u8>)
    requires
        0 <= offset,
    ensures
        ({
            let r = store_segment(buffer, offset, data);
            &&& r.len() == buffer.len()
            &&& forall|j: int| 0 <= j < buffer.len() && (j < offset || j >= offset + data.len()) ==> #[trigger] r[j] == buffer[j]
            &&& forall|j: int| offset <= j < buffer.len() && j < offset + data.len() ==> #[trigger] r[j] == data[j - offset]
        }),
{
}

/// The read buffer after each buffer of `frames` is taken in turn as a data frame, as
/// `handle_frame` takes it.
pub open spec fn receive_all(buffer: Seq<u8>, frames: Seq<Seq<u8>>) -> Seq<u8>
    decreases frames.len(),
{
    if frames.len() == 0 {
        buffer
    } else {
        let before = receive_all(buffer, frames.drop_last());
        let b = frames.last();
        store_segment(
            buffer_after_options(before, b),
            segment_offset(frame_sequence_number(b)),
            frame_data(b),
        )
    }
}

/// The buffers of the frames that send the first `n` segments of `data`, segment `s`
/// numbered `s`, as a window starting from nothing acknowledged numbers them.
pub open spec fn message_frames(data: Seq<u8>, n: int) -> Seq<Seq<u8>> {
    Seq::new(n as nat, |i: int| segment_frame_bytes(data, (i + 1) as u32, segment_count(data.len()) as u32, (i + 1) as u32))
}

proof fn lemma_receive_prefix(data: Seq<u8>, m: int)
    requires
        0 < data.len() <= u32::MAX,
        1 <= m <= segment_count(data.len()),
    ensures
        ({
            let r = receive_all(Seq::empty(), message_frames(data, m));
            let done = if m * MAX_DATA_SIZE <= data.len() { m * MAX_DATA_SIZE } else { data.len() as int };
            &&& r.len() == data.len()
            &&& forall|j: int| 0 <= j < done ==> #[trigger] r[j] == data[j]
        }),
    decreases m,
{
    let k = segment_count(data.len()) as u32;
    let frames = message_frames(data, m);
    let s = m as u32;
    lemma_segment_frame_layout(data, s, k, s);
    let b = frames.last();
    assert(b == segment_frame_bytes(data, s, k, s));
    assert(frames.drop_last() =~= message_frames(data, m - 1));
    let before = receive_all(Seq::empty(), frames.drop_last());
    let seg = segment_data(data, s);
    let offset = (m - 1) * MAX_DATA_SIZE;
    assert(segment_offset(frame_sequence_number(b)) == offset);
    if m == 1 {
        assert(message_frames(data, 0) =~= Seq::<Seq<u8>>::empty());
        assert(before == Seq::<u8>::empty());
        lemma_u32_be_roundtrip(data.len() as u32);
        assert(announces_buffer_size(b));
        assert(announced_size(b) == data.len());
        assert(buffer_after_options(before, b).len() == data.len());
    } else {
        lemma_receive_prefix(data, m - 1);
        assert(!announces_buffer_size(b));
        assert(buffer_after_options(before, b) == before);
    }
    let mid = buffer_after_options(before, b);
    lemma_store_segment(mid, offset, frame_data(b));
    let r = receive_all(Seq::empty(), frames);
    assert(r == store_segment(mid, offset, frame_data(b)));
    let done = if m * MAX_DATA_SIZE <= data.len() { m * MAX_DATA_SIZE } else { data.len() as int };
    assert forall|j: int| 0 <= j < done implies #[trigger] r[j] == data[j] by {
        if j >= offset {
            assert(r[j] == frame_data(b)[j - offset]);
            assert(frame_data(b)[j - offset] == seg[j - offset]);
        } else {
            assert(r[j] == mid[j]);
        }
    }
}

/// A message sent segment by segment, each frame numbered by its segment, the first one
/// announcing the message's size, and taken in order by a receiver that starts from an empty
/// buffer: every frame is a data frame the receiver takes, only the last ends the message,
/// and the buffer then holds exactly the message.
pub proof fn lemma_message_is_received(data: Seq<u8>)
    requires
        0 < data.len() <= u32::MAX,
    ensures
        ({
            let n = segment_count(data.len()) as int;
            let frames = message_frames(data, n);
            &&& receive_all(Seq::empty(), frames) == data
            &&& forall|i: int, earliest: u32, buffer: Seq<u8>|
                0 <= i < n ==> #[trigger] frame_acceptable(earliest, buffer, frames[i])
            &&& forall|i: int| 0 <= i < n ==> frame_control_bits(#[trigger] frames[i]) % 2 == 0
            &&& forall|i: int| 0 <= i < n ==> (frame_control_bits(#[trigger] frames[i]) / 2 == 1 <==> i == n - 1)
        }),
{
    let n = segment_count(data.len()) as int;
    let k = n as u32;
    lemma_receive_prefix(data, n);
    let r = receive_all(Seq::empty(), message_frames(data, n));
    assert(r =~= data);
    assert forall|i: int, earliest: u32, buffer: Seq<u8>|
        0 <= i < n implies #[trigger] frame_acceptable(earliest, buffer, message_frames(data, n)[i]) by {
        lemma_segment_frame_layout(data, (i + 1) as u32, k, (i + 1) as u32);
    }
    assert forall|i: int| 0 <= i < n implies frame_control_bits(#[trigger] message_frames(data, n)[i]) % 2 == 0
        && (frame_control_bits(message_frames(data, n)[i]) / 2 == 1 <==> i == n - 1) by {
        lemma_segment_frame_layout(data, (i + 1) as u32, k, (i + 1) as u32);
    }
}

/// The data of segments `1 ..= n` of a message, one after another.
pub open spec fn segments_concat(data: Seq<u8>, n: int) -> Seq<u8>
    decreases n,
{
    if n <= 0 {
        Seq::empty()
    } else {
        segments_concat(data, n - 1) + segment_data(data, n as u32)
    }
}

proof fn lemma_segments_concat_prefix(data: Seq<u8>, n: int)
    requires
        0 < data.len() <= u32::MAX,
        0 <= n <= segment_count(data.len()),
    ensures
        segments_concat(data, n) == data.take(
            if n * MAX_DATA_SIZE <= data.len() { n * MAX_DATA_SIZE } else { data.len() as int },
        ),
    decreases n,
{
    if n > 0 {
        lemma_segments_concat_prefix(data, n - 1);
        assert((n - 1) * MAX_DATA_SIZE < data.len());
        assert(segments_concat(data, n) =~= data.take(
            if n * MAX_DATA_SIZE <= data.len() { n * MAX_DATA_SIZE } else { data.len() as int },
        ));
    } else {
        assert(data.take(0) =~= Seq::<u8>::empty());
    }
}

/// The frames that send a message, segment `j` numbered `first + j`, make up the message:
/// their segments, in order, are the message; the first announces the message's size; only
/// the last has the end-of-message bit; each is numbered as sent and carries its segment at
/// the start of its data.
pub proof fn lemma_sent_segments_make_the_message(data: Seq<u8>, first: u32)
    requires
        0 < data.len() <= u32::MAX,
        first + segment_count(data.len()) <= u32::MAX,
    ensures
        ({
            let k = segment_count(data.len()) as u32;
            &&& segments_concat(data, k as int) == data
            &&& announces_buffer_size(segment_frame_bytes(data, 1, k, (first + 1) as u32))
            &&& announced_size(segment_frame_bytes(data, 1, k, (first + 1) as u32)) == data.len()
            &&& forall|j: u32| 1 <= j <= k ==> {
                let b = #[trigger] segment_frame_bytes(data, j, k, (first + j) as u32);
                &&& frame_sequence_number(b) == first + j
                &&& (frame_control_bits(b) == EOM_BIT <==> j == k)
                &&& frame_control_bits(b) % 2 == 0
                &&& frame_data(b).len() >= segment_data(data, j).len()
                &&& frame_data(b).subrange(0, segment_data(data, j).len() as int) == segment_data(data, j)
            }
        }),
{
    let k = segment_count(data.len()) as u32;
    lemma_segments_concat_prefix(data, k as int);
    assert(data.take(data.len() as int) =~= data);
    lemma_segment_frame_layout(data, 1, k, (first + 1) as u32);
    lemma_u32_be_roundtrip(data.len() as u32);
    assert forall|j: u32| 1 <= j <= k implies {
        let b = #[trigger] segment_frame_bytes(data, j, k, (first + j) as u32);
        &&& frame_sequence_number(b) == first + j
        &&& (frame_control_bits(b) == EOM_BIT <==> j == k)
        &&& frame_control_bits(b) % 2 == 0
        &&& frame_data(b).len() >= segment_data(data, j).len()
        &&& frame_data(b).subrange(0, segment_data(data, j).len() as int) == segment_data(data, j)
    } by {
        lemma_segment_frame_layout(data, j, k, (first + j) as u32);
        let b = segment_frame_bytes(data, j, k, (first + j) as u32);
        assert(frame_data(b).subrange(0, segment_data(data, j).len() as int) =~= segment_data(data, j));
    }
}

/// Every frame that holds only known control bits and has the acknowledgment bit is taken by
/// the receiver, whatever its state: an acknowledgment is never refused.
pub proof fn lemma_acknowledgments_are_accepted(earliest: u32, buffer: Seq<u8>, bytes: Seq<u8>)
    requires
        known_bits(frame_control_bits(bytes)),
        frame_control_bits(bytes) % 2 == 1,
    ensures
        frame_acceptable(earliest, buffer, bytes),
{
}

/// The frame that acknowledges `n` is an acknowledgment of `n` that the receiver takes in any
/// state.
pub proof fn lemma_ack_frames_are_accepted(earliest: u32, buffer: Seq<u8>, n: u32)
    ensures
        frame_acceptable(earliest, buffer, crate::transmitter::legacy_ack_frame_bytes(n)),
        frame_control_bits(crate::transmitter::legacy_ack_frame_bytes(n)) == crate::transport_layer::control_bits::ACK_BIT,
        crate::frame::frame_acknowledgment_number(crate::transmitter::legacy_ack_frame_bytes(n)) == n,
{
    let b = crate::transmitter::legacy_ack_frame_bytes(n);
    lemma_u32_be_roundtrip(n);
    lemma_u32_be_roundtrip(0);
    assert(b.subrange(4, 8) =~= u32_be_bytes(n));
    assert(frame_control_bits(b) == 1);
    lemma_acknowledgments_are_accepted(earliest, buffer, b);
}

/// When a message takes more than one segment, the frame of segment `s` carries `s` in its
/// segment-number option: the first option of every segment after the first, the second
/// option of the first segment (after the message's size).
pub proof fn lemma_segment_frames_carry_their_numbers(data: Seq<u8>, s: u32, k: u32, n: u32)
    requires
        0 < data.len() <= u32::MAX,
        k == segment_count(data.len()),
        1 <= s <= k,
        k > 1,
    ensures
        ({
            let b = segment_frame_bytes(data, s, k, n);
            &&& s > 1 ==> {
                &&& option_kind_of(b[OPTIONS_OCTET as int]) == OptionKind::SegmentNumber
                &&& b[OPTIONS_OCTET + 1] == 4
                &&& b.subrange(OPTIONS_OCTET + 2, OPTIONS_OCTET + 6) == u32_be_bytes(s)
                &&& be_u32_value(b.subrange(OPTIONS_OCTET + 2, OPTIONS_OCTET + 6)) == s
            }
            &&& s == 1 ==> {
                &&& option_kind_of(b[OPTIONS_OCTET + 6]) == OptionKind::SegmentNumber
                &&& b[OPTIONS_OCTET + 7] == 4
                &&& b.subrange(OPTIONS_OCTET + 8, OPTIONS_OCTET + 12) == u32_be_bytes(1)
                &&& be_u32_value(b.subrange(OPTIONS_OCTET + 8, OPTIONS_OCTET + 12)) == 1
            }
        }),
{
    let len = data.len() as u32;
    let opts = segment_options(len, s, k);
    let options = encode_options(opts);
    lemma_u32_be_roundtrip(len);
    lemma_u32_be_roundtrip(s);
    lemma_u32_be_roundtrip(n);
    lemma_u32_be_roundtrip(0);
    let e: Seq<(OptionKind, Seq<u8>)> = Seq::empty();
    assert(encode_options(e) =~= Seq::<u8>::empty());
    let number = encode_option(OptionKind::SegmentNumber, u32_be_bytes(s));
    if s == 1 {
        let first = (OptionKind::BufferSize, u32_be_bytes(len));
        assert(opts.drop_last() =~= seq![first]);
        assert(opts.drop_last().drop_last() =~= e);
        assert(encode_options(opts.drop_last()) =~= encode_option(first.0, first.1));
        assert(options =~= encode_option(first.0, first.1) + number);
        assert(options.subrange(6, 12) =~= number);
    } else {
        assert(opts =~= seq![(OptionKind::SegmentNumber, u32_be_bytes(s))]);
        assert(opts.drop_last() =~= e);
        assert(options =~= number);
    }
    lemma_segment_frame_layout(data, s, k, n);
    let with_options = splice(crate::transmitter::zero_frame_legacy(), OPTIONS_OCTET as int, options);
    let numbered = splice(
        splice(with_options, 0, u32_be_bytes(n)),
        crate::frame::ACKNOWLEDGMENT_NUMBER_OCTET as int,
        u32_be_bytes(0),
    );
    let control = if s == k { EOM_BIT } else { 0u8 };
    let o = options.len() as int;
    let x = numbered.update(CONTROL_BITS_OCTET as int, control);
    let b = segment_frame_bytes(data, s, k, n);
    assert(b == crate::frame::frame_with_data(x, o, segment_data(data, s)));
    assert forall|t: int| OPTIONS_OCTET <= t < OPTIONS_OCTET + o implies #[trigger] b[t] == options[t - OPTIONS_OCTET] by {
        assert(b[t] == x[t]);
    }
    if s == 1 {
        assert(b[OPTIONS_OCTET + 6] == number[0]);
        assert(b[OPTIONS_OCTET + 7] == number[1]);
        assert(b.subrange(OPTIONS_OCTET + 8, OPTIONS_OCTET + 12) =~= u32_be_bytes(1));
    } else {
        assert(b[OPTIONS_OCTET as int] == number[0]);
        assert(b.subrange(OPTIONS_OCTET + 2, OPTIONS_OCTET + 6) =~= u32_be_bytes(s));
    }
}

/// The earliest sequence number not received moves on only when it arrives, and then just
/// past it; any other number leaves it where it is.
pub proof fn lemma_earliest_moves_on_arrival(earliest: u32, sequence_number: u32)
    requires
        earliest < u32::MAX,
    ensures
        next_earliest(earliest, earliest) == earliest + 1,
        sequence_number != earliest ==> next_earliest(earliest, sequence_number) == earliest,
{
}

} // verus!
