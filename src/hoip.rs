//! The frame format: a fourteen-byte header followed by the concatenated
//! sample records.
use crate::endian::{
    be_bytes, be_value, lemma_be_bytes_len, lemma_be_bytes_of_value,
    lemma_be_value_bound, lemma_be_value_of_bytes, lemma_byte_span_values, read_be, write_be,
};
use vstd::prelude::*;
use vstd::slice::slice_subrange;

verus! {

/// The role of the peer that sent a frame, which fixes the shape of its samples.
#[derive(Debug, Clone, Copy, PartialEq, Eq, Structural)]
pub enum PayloadType {
    Master,
    Slave,
}

/// The sampling method used.
#[derive(Debug, Clone, Copy, PartialEq, Eq, Structural)]
pub enum SamplingScheme {
    /// Lossless sampling.
    Lossless,
    /// Sampling based on Weber thresholds.
    Weber,
    /// Sampling based on level crossing.
    LevelCrossing,
}

/// Where delays are saved to.
#[derive(Debug, Clone, Copy, PartialEq, Eq, Structural)]
pub enum DelayIndicator {
    /// Delay is saved inside of the header.
    InHeader,
    /// Delay is saved inside of the payload.
    InPayload,
}

/// Why a byte sequence is not a frame.
#[derive(Debug, Clone, Copy, PartialEq, Eq, Structural)]
pub enum FrameError {
    /// Fewer bytes than a header, or than the samples that a header announces.
    ShortRead,
    /// The first header byte sets both the Weber and the level-crossing flag.
    MalformedFrame,
}

/// The header of a frame.
#[derive(Debug, Clone, Copy, PartialEq, Eq, Structural)]
pub struct Header {
    pub payload_type: PayloadType,
    pub sampling_scheme: SamplingScheme,
    /// The number of samples stored in the payload, from one to four.
    pub num_samples: u8,
    /// Where the delays are stored.
    pub delay_indicator: DelayIndicator,
    /// The threshold currently used (e.g. for Weber or level crossing).
    pub threshold: u16,
    /// The latest rott measured by the sender, in microseconds.
    pub rott: u32,
    /// When the frame was sent, in microseconds of the sender's clock.
    pub timestamp: u64,
}

/// A frame: a header and the samples it describes.
#[derive(Debug, Clone, PartialEq)]
pub struct Message {
    pub header: Header,
    pub payload: Vec<u8>,
}

/// The length of a frame header in bytes.
pub const HEADER_LEN: usize = 14;

/// The largest rott that the three bytes of the header field can carry.
pub const MAX_WIRE_ROTT: u32 = 0xFF_FFFF;

pub open spec fn flag(set: bool, mask: u8) -> u8 {
    if set {
        mask
    } else {
        0
    }
}

/// The first header byte. Bits are counted from the most significant one:
/// bit 0 is the role, bits 3 and 4 the Weber and level-crossing schemes,
/// bits 5 and 6 the number of samples less one (bit 5 its low bit), bit 7
/// the delay location.
pub open spec fn first_byte(h: Header) -> u8 {
    flag(h.payload_type == PayloadType::Slave, 0x80) | flag(
        h.sampling_scheme == SamplingScheme::Weber,
        0x10,
    ) | flag(h.sampling_scheme == SamplingScheme::LevelCrossing, 0x08) | flag(
        h.num_samples == 2 || h.num_samples == 4,
        0x04,
    ) | flag(h.num_samples == 3 || h.num_samples == 4, 0x02) | flag(
        h.delay_indicator == DelayIndicator::InPayload,
        0x01,
    )
}

/// The rott as the header carries it: saturated at three bytes.
pub open spec fn wire_rott(rott: u32) -> u32 {
    if rott <= MAX_WIRE_ROTT {
        rott
    } else {
        MAX_WIRE_ROTT
    }
}

/// The bytes of a frame with header `h` and payload `payload`.
pub open spec fn frame_bytes(h: Header, payload: Seq<u8>) -> Seq<u8> {
    seq![first_byte(h)] + be_bytes(h.threshold as nat, 2) + be_bytes(wire_rott(h.rott) as nat, 3)
        + be_bytes(h.timestamp as nat, 8) + payload
}

/// The header that the bytes `s` begin with, or why they do not begin with one.
pub open spec fn parse_header(s: Seq<u8>) -> Result<Header, FrameError> {
    if s.len() < HEADER_LEN {
        Err(FrameError::ShortRead)
    } else {
        let b = s[0];
        let weber = b & 0x10 != 0;
        let level = b & 0x08 != 0;
        let high = b & 0x02 != 0;
        let low = b & 0x04 != 0;
        if weber && level {
            Err(FrameError::MalformedFrame)
        } else {
            Ok(
                Header {
                    payload_type: if b & 0x80 != 0 {
                        PayloadType::Slave
                    } else {
                        PayloadType::Master
                    },
                    sampling_scheme: if weber {
                        SamplingScheme::Weber
                    } else if level {
                        SamplingScheme::LevelCrossing
                    } else {
                        SamplingScheme::Lossless
                    },
                    num_samples: if high {
                        if low {
                            4
                        } else {
                            3
                        }
                    } else if low {
                        2
                    } else {
                        1
                    },
                    delay_indicator: if b & 0x01 != 0 {
                        DelayIndicator::InPayload
                    } else {
                        DelayIndicator::InHeader
                    },
                    threshold: be_value(s.subrange(1, 3)) as u16,
                    rott: be_value(s.subrange(3, 6)) as u32,
                    timestamp: be_value(s.subrange(6, 14)) as u64,
                },
            )
        }
    }
}

proof fn lemma_flag_bits(a: u8, b: u8, c: u8, d: u8, e: u8, f: u8)
    requires
        a == 0 || a == 0x80,
        b == 0 || b == 0x10,
        c == 0 || c == 0x08,
        d == 0 || d == 0x04,
        e == 0 || e == 0x02,
        f == 0 || f == 0x01,
    ensures
        ((a | b | c | d | e | f) & 0x80 != 0) == (a == 0x80),
        ((a | b | c | d | e | f) & 0x10 != 0) == (b == 0x10),
        ((a | b | c | d | e | f) & 0x08 != 0) == (c == 0x08),
        ((a | b | c | d | e | f) & 0x04 != 0) == (d == 0x04),
        ((a | b | c | d | e | f) & 0x02 != 0) == (e == 0x02),
        ((a | b | c | d | e | f) & 0x01 != 0) == (f == 0x01),
{
    assert(((a | b | c | d | e | f) & 0x80 != 0) == (a == 0x80) && ((a | b | c | d | e | f) & 0x10
        != 0) == (b == 0x10) && ((a | b | c | d | e | f) & 0x08 != 0) == (c == 0x08) && ((a | b | c
        | d | e | f) & 0x04 != 0) == (d == 0x04) && ((a | b | c | d | e | f) & 0x02 != 0) == (e
        == 0x02) && ((a | b | c | d | e | f) & 0x01 != 0) == (f == 0x01)) by (bit_vector)
        requires
            a == 0 || a == 0x80,
            b == 0 || b == 0x10,
            c == 0 || c == 0x08,
            d == 0 || d == 0x04,
            e == 0 || e == 0x02,
            f == 0 || f == 0x01,
    ;
}

/// Decoding the bytes of a frame gives back its header, with the rott
/// saturated at three bytes, and its payload.
pub proof fn lemma_rott_saturates(h: Header, payload: Seq<u8>)
    requires
        1 <= h.num_samples <= 4,
    ensures
        parse_header(frame_bytes(h, payload)) == Ok::<Header, FrameError>(
            Header { rott: wire_rott(h.rott), ..h },
        ),
        frame_bytes(h, payload).skip(HEADER_LEN as int) == payload,
{
    let s = frame_bytes(h, payload);
    let t = be_bytes(h.threshold as nat, 2);
    let r = be_bytes(wire_rott(h.rott) as nat, 3);
    let ts = be_bytes(h.timestamp as nat, 8);
    lemma_be_bytes_len(h.threshold as nat, 2);
    lemma_be_bytes_len(wire_rott(h.rott) as nat, 3);
    lemma_be_bytes_len(h.timestamp as nat, 8);
    lemma_byte_span_values();
    lemma_be_value_of_bytes(h.threshold as nat, 2);
    lemma_be_value_of_bytes(wire_rott(h.rott) as nat, 3);
    lemma_be_value_of_bytes(h.timestamp as nat, 8);
    assert(s.subrange(1, 3) =~= t);
    assert(s.subrange(3, 6) =~= r);
    assert(s.subrange(6, 14) =~= ts);
    assert(s.skip(HEADER_LEN as int) =~= payload);
    assert(s[0] == first_byte(h));
    lemma_flag_bits(
        flag(h.payload_type == PayloadType::Slave, 0x80),
        flag(h.sampling_scheme == SamplingScheme::Weber, 0x10),
        flag(h.sampling_scheme == SamplingScheme::LevelCrossing, 0x08),
        flag(h.num_samples == 2 || h.num_samples == 4, 0x04),
        flag(h.num_samples == 3 || h.num_samples == 4, 0x02),
        flag(h.delay_indicator == DelayIndicator::InPayload, 0x01),
    );
}

/// Every frame whose rott fits in three bytes decodes to itself.
pub proof fn lemma_frame_round_trip(h: Header, payload: Seq<u8>)
    requires
        1 <= h.num_samples <= 4,
        h.rott <= MAX_WIRE_ROTT,
    ensures
        parse_header(frame_bytes(h, payload)) == Ok::<Header, FrameError>(h),
        frame_bytes(h, payload).skip(HEADER_LEN as int) == payload,
{
    lemma_rott_saturates(h, payload);
    assert(Header { rott: wire_rott(h.rott), ..h } == h);
}

fn flag_exec(set: bool, mask: u8) -> (r: u8)
    ensures
        r == flag(set, mask),
{
    if set {
        mask
    } else {
        0
    }
}

impl Message {
    /// Encodes the frame. The rott is saturated at `MAX_WIRE_ROTT`.
    pub fn to_bytes(&self) -> (r: Vec<u8>)
        requires
            1 <= self.header.num_samples <= 4,
        ensures
            r@ == frame_bytes(self.header, self.payload@),
    {
        let h = self.header;
        let ns = h.num_samples;
        let byte = flag_exec(h.payload_type == PayloadType::Slave, 0x80) | flag_exec(
            h.sampling_scheme == SamplingScheme::Weber,
            0x10,
        ) | flag_exec(h.sampling_scheme == SamplingScheme::LevelCrossing, 0x08) | flag_exec(
            ns == 2 || ns == 4,
            0x04,
        ) | flag_exec(ns == 3 || ns == 4, 0x02) | flag_exec(
            h.delay_indicator == DelayIndicator::InPayload,
            0x01,
        );
        // Part of the wire format that peers expect; it is zero for
        // every admissible sample count.
        let extra = (ns ^ 0b0000_0011u8) >> 5u8;
        assert(ns <= 4 ==> (ns ^ 0b0000_0011u8) >> 5u8 == 0) by (bit_vector);
        assert(byte | 0u8 == byte) by (bit_vector);
        let byte = byte | extra;

        proof {
            lemma_byte_span_values();
        }
        let mut wtr: Vec<u8> = Vec::new();
        wtr.push(byte);
        let mut threshold = write_be(h.threshold as u64, 2);
        wtr.append(&mut threshold);
        let rott = if h.rott <= MAX_WIRE_ROTT {
            h.rott
        } else {
            MAX_WIRE_ROTT
        };
        let mut rott_bytes = write_be(rott as u64, 3);
        wtr.append(&mut rott_bytes);
        let mut timestamp = write_be(h.timestamp, 8);
        wtr.append(&mut timestamp);
        let ghost head = wtr@;
        let mut i: usize = 0;
        while i < self.payload.len()
            invariant
                i <= self.payload@.len(),
                wtr@ == head + self.payload@.take(i as int),
            decreases self.payload@.len() - i,
        {
            wtr.push(self.payload[i]);
            i += 1;
            assert(wtr@ =~= head + self.payload@.take(i as int));
        }
        assert(self.payload@.take(i as int) =~= self.payload@);
        assert(wtr@ =~= frame_bytes(self.header, self.payload@));
        wtr
    }

    /// Decodes a frame: the header from the first fourteen bytes, the
    /// payload from the rest.
    pub fn from_bytes(bs: &[u8]) -> (r: Result<Message, FrameError>)
        ensures
            match r {
                Ok(m) => parse_header(bs@) == Ok::<Header, FrameError>(m.header) && m.payload@
                    == bs@.skip(HEADER_LEN as int),
                Err(e) => parse_header(bs@) == Err::<Header, FrameError>(e),
            },
    {
        if bs.len() < HEADER_LEN {
            return Err(FrameError::ShortRead);
        }
        let b = bs[0];
        let weber = b & 0x10 != 0;
        let level = b & 0x08 != 0;
        let high = b & 0x02 != 0;
        let low = b & 0x04 != 0;
        if weber && level {
            return Err(FrameError::MalformedFrame);
        }
        let payload_type = if b & 0x80 != 0 {
            PayloadType::Slave
        } else {
            PayloadType::Master
        };
        let sampling_scheme = if weber {
            SamplingScheme::Weber
        } else if level {
            SamplingScheme::LevelCrossing
        } else {
            SamplingScheme::Lossless
        };
        let num_samples: u8 = if high {
            if low {
                4
            } else {
                3
            }
        } else if low {
            2
        } else {
            1
        };
        let delay_indicator = if b & 0x01 != 0 {
            DelayIndicator::InPayload
        } else {
            DelayIndicator::InHeader
        };
        let t = slice_subrange(bs, 1, 3);
        let r = slice_subrange(bs, 3, 6);
        let ts = slice_subrange(bs, 6, 14);
        proof {
            lemma_byte_span_values();
            lemma_be_value_bound(t@);
            lemma_be_value_bound(r@);
            assert(t@.take(2) =~= t@);
            assert(r@.take(3) =~= r@);
            assert(ts@.take(8) =~= ts@);
        }
        let threshold = read_be(t, 2) as u16;
        let rott = read_be(r, 3) as u32;
        let timestamp = read_be(ts, 8);

        let mut payload: Vec<u8> = Vec::new();
        let mut i: usize = HEADER_LEN;
        while i < bs.len()
            invariant
                HEADER_LEN <= i <= bs@.len(),
                payload@ == bs@.subrange(HEADER_LEN as int, i as int),
            decreases bs@.len() - i,
        {
            payload.push(bs[i]);
            i += 1;
            assert(payload@ =~= bs@.subrange(HEADER_LEN as int, i as int));
        }
        assert(payload@ =~= bs@.skip(HEADER_LEN as int));
        Ok(
            Message {
                header: Header {
                    payload_type,
                    sampling_scheme,
                    num_samples,
                    delay_indicator,
                    threshold,
                    rott,
                    timestamp,
                },
                payload,
            },
        )
    }

    pub fn rott(&self) -> (r: u32)
        ensures
            r == self.header.rott,
    {
        self.header.rott
    }

    pub fn timestamp(&self) -> (r: u64)
        ensures
            r == self.header.timestamp,
    {
        self.header.timestamp
    }

    pub fn num_samples(&self) -> (r: u8)
        ensures
            r == self.header.num_samples,
    {
        self.header.num_samples
    }
}

/// The bytes of a sequence of 32-bit words, each most significant byte first.
pub open spec fn words_bytes(ws: Seq<u32>) -> Seq<u8>
    decreases ws.len(),
{
    if ws.len() == 0 {
        Seq::empty()
    } else {
        words_bytes(ws.drop_last()) + be_bytes(ws.last() as nat, 4)
    }
}

pub proof fn lemma_words_bytes_len(ws: Seq<u32>)
    ensures
        words_bytes(ws).len() == 4 * ws.len(),
    decreases ws.len(),
{
    if ws.len() > 0 {
        lemma_words_bytes_len(ws.drop_last());
        lemma_be_bytes_len(ws.last() as nat, 4);
    }
}

/// Reads `count` big-endian words from the front of `bs`.
fn read_words(bs: &[u8], count: usize) -> (r: Vec<u32>)
    requires
        4 * count <= bs@.len(),
    ensures
        r@.len() == count,
        words_bytes(r@) == bs@.take(4 * count),
{
    let mut r: Vec<u32> = Vec::new();
    let mut i: usize = 0;
    let n = bs.len();
    while i < count
        invariant
            i <= count,
            4 * count <= bs@.len(),
            n == bs@.len(),
            r@.len() == i,
            words_bytes(r@) == bs@.take(4 * i),
        decreases count - i,
    {
        let chunk = slice_subrange(bs, 4 * i, 4 * i + 4);
        proof {
            lemma_byte_span_values();
            lemma_be_value_bound(chunk@);
            assert(chunk@.take(4) =~= chunk@);
        }
        let w = read_be(chunk, 4) as u32;
        let ghost prev = r@;
        r.push(w);
        proof {
            lemma_be_bytes_of_value(chunk@);
            assert(r@.drop_last() =~= prev);
            assert(bs@.take(4 * i) + chunk@ =~= bs@.take(4 * (i + 1)));
        }
        i += 1;
    }
    r
}

/// Writes the words of `ws`, each most significant byte first.
fn write_words(ws: &[u32]) -> (r: Vec<u8>)
    ensures
        r@ == words_bytes(ws@),
{
    let mut r: Vec<u8> = Vec::new();
    let mut i: usize = 0;
    while i < ws.len()
        invariant
            i <= ws@.len(),
            r@ == words_bytes(ws@.take(i as int)),
        decreases ws@.len() - i,
    {
        proof {
            lemma_byte_span_values();
        }
        let mut b = write_be(ws[i] as u64, 4);
        r.append(&mut b);
        proof {
            assert(ws@.take(i + 1).drop_last() =~= ws@.take(i as int));
        }
        i += 1;
    }
    assert(ws@.take(i as int) =~= ws@);
    r
}

/// A sample record of fixed length.
pub trait Serializable: Sized {
    /// The bytes that encode the record.
    spec fn spec_bytes(&self) -> Seq<u8>;

    /// The length of every record of this type, in bytes.
    spec fn spec_len() -> nat;

    /// Returns the length of the record in bytes.
    fn len() -> (r: usize)
        ensures
            r as nat == Self::spec_len(),
            r > 0,
    ;

    /// Decodes a record from the first `len()` bytes of `bs`.
    fn from_bytes(bs: &[u8]) -> (r: Self)
        requires
            Self::spec_len() <= bs@.len(),
        ensures
            r.spec_bytes() == bs@.take(Self::spec_len() as int),
    ;

    /// Encodes the record.
    fn to_bytes(self) -> (r: Vec<u8>)
        ensures
            r@ == self.spec_bytes(),
            r@.len() == Self::spec_len(),
    ;
}

/// A sample from the slave to the master: a force, as the bit patterns of
/// three IEEE-754 single-precision numbers.
#[derive(Debug, Clone, Copy, PartialEq)]
pub struct PayloadS2M {
    pub force: [u32; 3],
}

impl PayloadS2M {
    pub fn new(force: [u32; 3]) -> (r: Self)
        ensures
            r.force == force,
    {
        Self { force }
    }

    pub fn force(&self) -> (r: [u32; 3])
        ensures
            r == self.force,
    {
        self.force
    }
}

/// A sample from the master to the slave: a position and a velocity, as the
/// bit patterns of six IEEE-754 single-precision numbers.
#[derive(Debug, Clone, Copy, PartialEq)]
pub struct PayloadM2S {
    pub pos: [u32; 3],
    pub vel: [u32; 3],
}

impl PayloadM2S {
    pub fn new(pos: [u32; 3], vel: [u32; 3]) -> (r: Self)
        ensures
            r.pos == pos,
            r.vel == vel,
    {
        Self { pos, vel }
    }

    pub fn pos(&self) -> (r: [u32; 3])
        ensures
            r == self.pos,
    {
        self.pos
    }

    pub fn vel(&self) -> (r: [u32; 3])
        ensures
            r == self.vel,
    {
        self.vel
    }
}

impl Serializable for PayloadS2M {
    open spec fn spec_bytes(&self) -> Seq<u8> {
        words_bytes(self.force@)
    }

    open spec fn spec_len() -> nat {
        12
    }

    fn len() -> (r: usize) {
        3 * 4
    }

    fn from_bytes(bs: &[u8]) -> (r: Self) {
        let w = read_words(bs, 3);
        let r = Self { force: [w[0], w[1], w[2]] };
        assert(r.force@ =~= w@);
        r
    }

    fn to_bytes(self) -> (r: Vec<u8>) {
        proof {
            lemma_words_bytes_len(self.force@);
        }
        write_words(&self.force)
    }
}

impl Serializable for PayloadM2S {
    open spec fn spec_bytes(&self) -> Seq<u8> {
        words_bytes(self.pos@ + self.vel@)
    }

    open spec fn spec_len() -> nat {
        24
    }

    fn len() -> (r: usize) {
        3 * 4 + 3 * 4
    }

    fn from_bytes(bs: &[u8]) -> (r: Self) {
        let w = read_words(bs, 6);
        let r = Self { pos: [w[0], w[1], w[2]], vel: [w[3], w[4], w[5]] };
        assert(r.pos@ + r.vel@ =~= w@);
        r
    }

    fn to_bytes(self) -> (r: Vec<u8>) {
        let mut ws: Vec<u32> = Vec::new();
        ws.push(self.pos[0]);
        ws.push(self.pos[1]);
        ws.push(self.pos[2]);
        ws.push(self.vel[0]);
        ws.push(self.vel[1]);
        ws.push(self.vel[2]);
        assert(ws@ =~= self.pos@ + self.vel@);
        proof {
            lemma_words_bytes_len(ws@);
        }
        write_words(ws.as_slice())
    }
}

} // verus!
