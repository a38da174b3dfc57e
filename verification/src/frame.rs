//! Control-frame decoding (25 bytes, 16 analog channels + flags + footer).

use vstd::prelude::*;

verus! {

/// Total length of a control frame.
pub const FRAME_LEN: usize = 25;

/// First byte of every control frame.
pub const START: u8 = 0x0F;

/// Number of 11-bit analog channels carried in a frame.
pub const CHANNELS: usize = 16;

/// Number of bytes that carry the channels.
pub const PAYLOAD_LEN: usize = 22;

/// Lowest raw channel value in the nominal 1000-2000 us range.
pub const RAW_MIN: u16 = 172;

/// Highest raw channel value in the nominal 1000-2000 us range.
pub const RAW_MAX: u16 = 1811;

/// Footer byte (offset 24) classification.
///
/// The footer is the only field besides the start byte that constrains frame
/// validity: S.BUS carries no checksum.
#[derive(Debug, Clone, Copy, PartialEq, Eq, Structural)]
pub enum Footer {
    /// `0x00`: plain S.BUS. No telemetry slots follow this frame.
    Sbus1,
    /// `0x04` / `0x14` / `0x24` / `0x34`: S.BUS2. `group` is 0..=3 and selects
    /// which eight telemetry slots may respond after this frame.
    Sbus2 {
        /// Telemetry slot group.
        group: u8,
    },
}

/// The footer that a byte stands for: `0x00`, or a group below 4 in the high
/// nibble over a low nibble of 4.
pub open spec fn footer_of(byte: u8) -> Option<Footer> {
    if byte == 0 {
        Some(Footer::Sbus1)
    } else if byte % 16 == 4 && byte / 16 < 4 {
        Some(Footer::Sbus2 { group: byte / 16 })
    } else {
        None
    }
}

impl Footer {
    /// Whether this footer can occur on the wire.
    pub open spec fn valid(self) -> bool {
        self matches Footer::Sbus2 { group } ==> group < 4
    }

    /// The wire byte of this footer.
    pub open spec fn wire_byte(self) -> int {
        match self {
            Footer::Sbus1 => 0,
            Footer::Sbus2 { group } => 16 * (group % 16) + 4,
        }
    }

    /// The telemetry slot group that this footer selects.
    pub open spec fn slot_group(self) -> Option<u8> {
        match self {
            Footer::Sbus1 => None,
            Footer::Sbus2 { group } => Some(group),
        }
    }

    /// Classify a footer byte, or `None` if it is not a known footer value.
    pub fn from_byte(byte: u8) -> (footer: Option<Footer>)
        ensures
            footer == footer_of(byte),
    {
        match byte {
            0x00 => Some(Footer::Sbus1),
            0x04 => Some(Footer::Sbus2 { group: 0 }),
            0x14 => Some(Footer::Sbus2 { group: 1 }),
            0x24 => Some(Footer::Sbus2 { group: 2 }),
            0x34 => Some(Footer::Sbus2 { group: 3 }),
            _ => None,
        }
    }

    /// The wire byte for this footer.
    pub fn to_byte(self) -> (byte: u8)
        ensures
            byte == self.wire_byte(),
    {
        match self {
            Footer::Sbus1 => 0x00,
            Footer::Sbus2 { group } => {
                assert((group << 4) | 0x04 == 16 * (group % 16) + 4) by (bit_vector);
                (group << 4) | 0x04
            },
        }
    }

    /// Telemetry slot group, or `None` for plain S.BUS.
    pub fn group(self) -> (group: Option<u8>)
        ensures
            group == self.slot_group(),
    {
        match self {
            Footer::Sbus1 => None,
            Footer::Sbus2 { group } => Some(group),
        }
    }
}

/// Reason a 25-byte candidate is not a valid control frame.
#[derive(Debug, Clone, Copy, PartialEq, Eq, Structural)]
pub enum FrameError {
    /// Byte 0 is not [`START`].
    BadStart {
        /// The byte found there.
        found: u8,
    },
    /// Byte 24 is not a recognised footer value.
    BadFooter {
        /// The byte found there.
        found: u8,
    },
}

/// A decoded control frame.
#[derive(Debug, Clone, Copy, PartialEq, Eq)]
pub struct Frame {
    /// 16 analog channels, each 0..=2047.
    pub channels: [u16; CHANNELS],
    /// Digital channel 17 (flag bit 0).
    pub ch17: bool,
    /// Digital channel 18 (flag bit 1).
    pub ch18: bool,
    /// Receiver is dropping RF frames (flag bit 2).
    pub frame_lost: bool,
    /// Receiver is in failsafe (flag bit 3).
    pub failsafe: bool,
    /// Footer classification, which also tells whether slots may follow.
    pub footer: Footer,
}

/// What a [`Frame`] says.
#[verifier::ext_equal]
pub struct FrameModel {
    pub channels: Seq<u16>,
    pub ch17: bool,
    pub ch18: bool,
    pub frame_lost: bool,
    pub failsafe: bool,
    pub footer: Footer,
}

impl View for Frame {
    type V = FrameModel;

    open spec fn view(&self) -> FrameModel {
        FrameModel {
            channels: self.channels@,
            ch17: self.ch17,
            ch18: self.ch18,
            frame_lost: self.frame_lost,
            failsafe: self.failsafe,
            footer: self.footer,
        }
    }
}

/// Bit `k` of a byte, from the least significant (0) to the most significant
/// (7).
pub open spec fn byte_bit(byte: u8, k: int) -> nat {
    (if k == 0 {
        byte % 2
    } else if k == 1 {
        byte / 2 % 2
    } else if k == 2 {
        byte / 4 % 2
    } else if k == 3 {
        byte / 8 % 2
    } else if k == 4 {
        byte / 16 % 2
    } else if k == 5 {
        byte / 32 % 2
    } else if k == 6 {
        byte / 64 % 2
    } else {
        byte / 128 % 2
    }) as nat
}

/// Bit `n` of a byte string whose bytes are read in order, least significant
/// bit first.
pub open spec fn bit_at(d: Seq<u8>, n: int) -> nat {
    byte_bit(d[n / 8], n % 8)
}

/// The number whose `count` binary digits, least significant first, are the
/// bits of `d` from `start` on.
pub open spec fn bits_value(d: Seq<u8>, start: int, count: nat) -> nat
    decreases count,
{
    if count == 0 {
        0
    } else {
        bit_at(d, start) + 2 * bits_value(d, start + 1, (count - 1) as nat)
    }
}

/// Channel `i` of a payload: the 11 bits that follow those of channel `i - 1`.
pub open spec fn channel_value(payload: Seq<u8>, i: int) -> nat {
    bits_value(payload, 11 * i, 11)
}

/// The bytes of a frame that carry the channels.
pub open spec fn payload_of(bytes: Seq<u8>) -> Seq<u8> {
    bytes.subrange(1, 23)
}

/// Whether 25 bytes are a control frame: only the start byte and the footer
/// say so.
pub open spec fn is_frame(bytes: Seq<u8>) -> bool {
    bytes.len() == FRAME_LEN && bytes[0] == START && footer_of(bytes[24]) is Some
}

/// What a control frame says.
pub open spec fn frame_of(bytes: Seq<u8>) -> FrameModel
    recommends
        is_frame(bytes),
{
    FrameModel {
        channels: Seq::new(CHANNELS as nat, |i: int| channel_value(payload_of(bytes), i) as u16),
        ch17: byte_bit(bytes[23], 0) == 1,
        ch18: byte_bit(bytes[23], 1) == 1,
        frame_lost: byte_bit(bytes[23], 2) == 1,
        failsafe: byte_bit(bytes[23], 3) == 1,
        footer: footer_of(bytes[24])->0,
    }
}

/// What decoding a 25-byte candidate gives. A bad start byte is reported
/// before a bad footer.
pub open spec fn decoded_frame(bytes: Seq<u8>) -> Result<FrameModel, FrameError>
    recommends
        bytes.len() == FRAME_LEN,
{
    if bytes[0] != START {
        Err(FrameError::BadStart { found: bytes[0] })
    } else if footer_of(bytes[24]) is None {
        Err(FrameError::BadFooter { found: bytes[24] })
    } else {
        Ok(frame_of(bytes))
    }
}

/// The pulse width of a raw channel value: [`RAW_MIN`] lies at 1000 us,
/// [`RAW_MAX`] at 2000 us, and every other value on the line through these
/// two, rounded to the nearest microsecond. (3278 is twice the distance of the
/// two raw values, and adding half of it rounds.)
pub open spec fn pulse_us(raw: int) -> int {
    1000 + (2000 * (raw - RAW_MIN) + 1639) / 3278
}

/// Three bytes as one little-endian number.
spec fn window(lo: u8, mid: u8, hi: u8) -> u32 {
    lo as u32 | (mid as u32) << 8 | (hi as u32) << 16
}

proof fn lemma_byte_bit(byte: u8, k: u8)
    requires
        k < 8,
    ensures
        (byte >> k) & 1 == byte_bit(byte, k as int),
{
    assert((byte >> 0u8) & 1 == byte % 2 && (byte >> 1u8) & 1 == byte / 2 % 2 && (byte >> 2u8) & 1
        == byte / 4 % 2 && (byte >> 3u8) & 1 == byte / 8 % 2 && (byte >> 4u8) & 1 == byte / 16 % 2
        && (byte >> 5u8) & 1 == byte / 32 % 2 && (byte >> 6u8) & 1 == byte / 64 % 2 && (byte >> 7u8)
        & 1 == byte / 128 % 2) by (bit_vector);
}

proof fn lemma_window_bit(lo: u8, mid: u8, hi: u8, n: u32)
    requires
        n < 24,
    ensures
        (window(lo, mid, hi) >> n) & 1 == (if n < 8 {
            byte_bit(lo, n as int)
        } else if n < 16 {
            byte_bit(mid, n - 8)
        } else {
            byte_bit(hi, n - 16)
        }),
{
    if n < 8 {
        lemma_byte_bit(lo, n as u8);
    } else if n < 16 {
        lemma_byte_bit(mid, (n - 8) as u8);
    } else {
        lemma_byte_bit(hi, (n - 16) as u8);
    }
    assert(n < 24 ==> ((lo as u32 | (mid as u32) << 8 | (hi as u32) << 16) >> n) & 1 == (if n < 8 {
        (lo >> (n as u8)) & 1
    } else if n < 16 {
        (mid >> ((n - 8) as u8)) & 1
    } else {
        (hi >> ((n - 16) as u8)) & 1
    })) by (bit_vector);
}

proof fn lemma_window_value(w: u32, s: u32)
    requires
        s < 8,
    ensures
        (w >> s) & 0x7FF == ((w >> s) & 1) + 2 * ((w >> ((s + 1) as u32)) & 1) + 4 * ((w >> ((s
            + 2) as u32)) & 1) + 8 * ((w >> ((s + 3) as u32)) & 1) + 16 * ((w >> ((s + 4) as u32))
            & 1) + 32 * ((w >> ((s + 5) as u32)) & 1) + 64 * ((w >> ((s + 6) as u32)) & 1) + 128 * ((
        w >> ((s + 7) as u32)) & 1) + 256 * ((w >> ((s + 8) as u32)) & 1) + 512 * ((w >> ((s
            + 9) as u32)) & 1) + 1024 * ((w >> ((s + 10) as u32)) & 1),
{
    assert(s < 8 ==> (w >> s) & 0x7FF == ((w >> s) & 1) + 2 * ((w >> ((s + 1) as u32)) & 1) + 4 * ((w
        >> ((s + 2) as u32)) & 1) + 8 * ((w >> ((s + 3) as u32)) & 1) + 16 * ((w >> ((s
        + 4) as u32)) & 1) + 32 * ((w >> ((s + 5) as u32)) & 1) + 64 * ((w >> ((s + 6) as u32)) & 1)
        + 128 * ((w >> ((s + 7) as u32)) & 1) + 256 * ((w >> ((s + 8) as u32)) & 1) + 512 * ((w >> ((s
        + 9) as u32)) & 1) + 1024 * ((w >> ((s + 10) as u32)) & 1)) by (bit_vector);
}

proof fn lemma_payload_bit(d: Seq<u8>, i: int, lo: u8, mid: u8, hi: u8, s: u32, j: int)
    requires
        d.len() == PAYLOAD_LEN,
        0 <= i < CHANNELS,
        0 <= j < 11,
        s == (11 * i) % 8,
        lo == d[(11 * i) / 8],
        mid == d[(11 * i) / 8 + 1],
        i < CHANNELS - 1 ==> hi == d[(11 * i) / 8 + 2],
    ensures
        (window(lo, mid, hi) >> ((s + j) as u32)) & 1 == bit_at(d, 11 * i + j),
{
    lemma_window_bit(lo, mid, hi, (s + j) as u32);
}

/// A channel as the sum of its bits.
proof fn lemma_channel_sum(d: Seq<u8>, i: int)
    ensures
        ({
            let a = 11 * i;
            channel_value(d, i) == bit_at(d, a) + 2 * bit_at(d, a + 1) + 4 * bit_at(d, a + 2) + 8
                * bit_at(d, a + 3) + 16 * bit_at(d, a + 4) + 32 * bit_at(d, a + 5) + 64 * bit_at(
                d,
                a + 6,
            ) + 128 * bit_at(d, a + 7) + 256 * bit_at(d, a + 8) + 512 * bit_at(d, a + 9) + 1024
                * bit_at(d, a + 10)
        }),
{
    reveal_with_fuel(bits_value, 12);
}

#[verifier::spinoff_prover]
proof fn lemma_channel_window(d: Seq<u8>, i: int, lo: u8, mid: u8, hi: u8, s: u32)
    requires
        d.len() == PAYLOAD_LEN,
        0 <= i < CHANNELS,
        s == (11 * i) % 8,
        lo == d[(11 * i) / 8],
        mid == d[(11 * i) / 8 + 1],
        i < CHANNELS - 1 ==> hi == d[(11 * i) / 8 + 2],
    ensures
        (window(lo, mid, hi) >> s) & 0x7FF == channel_value(d, i),
{
    lemma_window_value(window(lo, mid, hi), s);
    lemma_channel_sum(d, i);
    lemma_payload_bit(d, i, lo, mid, hi, s, 0);
    lemma_payload_bit(d, i, lo, mid, hi, s, 1);
    lemma_payload_bit(d, i, lo, mid, hi, s, 2);
    lemma_payload_bit(d, i, lo, mid, hi, s, 3);
    lemma_payload_bit(d, i, lo, mid, hi, s, 4);
    lemma_payload_bit(d, i, lo, mid, hi, s, 5);
    lemma_payload_bit(d, i, lo, mid, hi, s, 6);
    lemma_payload_bit(d, i, lo, mid, hi, s, 7);
    lemma_payload_bit(d, i, lo, mid, hi, s, 8);
    lemma_payload_bit(d, i, lo, mid, hi, s, 9);
    lemma_payload_bit(d, i, lo, mid, hi, s, 10);
}

/// Unpack the 22 payload bytes into 16 little-endian 11-bit channels.
fn unpack_channels(d: &[u8; PAYLOAD_LEN]) -> (channels: [u16; CHANNELS])
    ensures
        forall|i: int| 0 <= i < CHANNELS ==> #[trigger] channels[i] == channel_value(d@, i),
{
    let mut channels = [0u16; CHANNELS];
    for i in 0..CHANNELS
        invariant
            forall|k: int| 0 <= k < i ==> #[trigger] channels[k] == channel_value(d@, k),
    {
        let first: usize = (11 * i) / 8;
        let shift: u32 = ((11 * i) % 8) as u32;
        let lo: u8 = d[first];
        let mid: u8 = d[first + 1];
        // The last channel ends with the payload.
        let hi: u8 = if i < CHANNELS - 1 { d[first + 2] } else { 0 };
        let w: u32 = lo as u32 | (mid as u32) << 8 | (hi as u32) << 16;
        let value: u32 = (w >> shift) & 0x7FF;
        proof {
            lemma_channel_window(d@, i as int, lo, mid, hi, shift);
            assert(value <= 0x7FF) by (bit_vector)
                requires value == (w >> shift) & 0x7FF;
        }
        channels[i] = value as u16;
    }
    channels
}

impl Frame {
    /// Decode a 25-byte candidate.
    ///
    /// Only the start byte and the footer are validated: there is no checksum
    /// in S.BUS, so a frame that passes these checks is not guaranteed intact.
    /// Stream-level confidence comes from staying in sync (see
    /// [`crate::parser::Parser`]).
    pub fn decode(bytes: &[u8; FRAME_LEN]) -> (frame: Result<Frame, FrameError>)
        ensures
            decoded_frame(bytes@) == (match frame {
                Ok(f) => Ok::<FrameModel, FrameError>(f@),
                Err(e) => Err(e),
            }),
    {
        if bytes[0] != START {
            return Err(FrameError::BadStart { found: bytes[0] });
        }
        let footer = match Footer::from_byte(bytes[24]) {
            Some(f) => f,
            None => return Err(FrameError::BadFooter { found: bytes[24] }),
        };

        let mut payload = [0u8; PAYLOAD_LEN];
        for i in 0..PAYLOAD_LEN
            invariant
                forall|k: int| 0 <= k < i ==> #[trigger] payload[k] == bytes[k + 1],
        {
            payload[i] = bytes[i + 1];
        }
        let flags: u8 = bytes[23];
        let frame = Frame {
            channels: unpack_channels(&payload),
            ch17: flags & 0x01 != 0,
            ch18: flags & 0x02 != 0,
            frame_lost: flags & 0x04 != 0,
            failsafe: flags & 0x08 != 0,
            footer,
        };
        proof {
            assert(payload@ =~= payload_of(bytes@));
            assert(frame.channels@ =~= frame_of(bytes@).channels);
            assert((flags & 0x01 != 0) == (flags % 2 == 1) && (flags & 0x02 != 0) == (flags / 2 % 2
                == 1) && (flags & 0x04 != 0) == (flags / 4 % 2 == 1) && (flags & 0x08 != 0) == (flags
                / 8 % 2 == 1)) by (bit_vector);
        }
        Ok(frame)
    }

    /// Channel `index` converted to approximate microseconds, or `None` if
    /// `index` is out of range.
    pub fn channel_us(&self, index: usize) -> (us: Option<u16>)
        ensures
            us is Some <==> index < CHANNELS,
            us matches Some(us) ==> us == pulse_us(self@.channels[index as int] as int),
    {
        if index < CHANNELS {
            Some(raw_to_us(self.channels[index]))
        } else {
            None
        }
    }
}

/// Convert a raw channel value to approximate pulse width in microseconds.
///
/// Maps [`RAW_MIN`]..=[`RAW_MAX`] onto 1000..=2000 us. This is the conventional
/// approximation and depends on transmitter/receiver endpoint settings, so it
/// is for display only: use raw values for control.
pub fn raw_to_us(raw: u16) -> (us: u16)
    ensures
        us == pulse_us(raw as int),
{
    let span: i32 = (RAW_MAX - RAW_MIN) as i32;
    let offset: i32 = raw as i32 - RAW_MIN as i32;
    // Round to nearest. The span is odd, so there is never a tie.
    let scaled: i32 = if offset >= 0 {
        (offset * 1000 + span / 2) / span
    } else {
        -((-offset * 1000 + span / 2) / span)
    };
    proof {
        let magnitude: int = if offset >= 0 { offset as int } else { -offset };
        let top: int = magnitude * 1000 + 819;
        assert(top / (span as int) == top / 1639) by (nonlinear_arith)
            requires
                span == 1639,
        ;
        assert(scaled == if offset >= 0 { top / 1639 } else { -(top / 1639) });
    }
    (scaled + 1000) as u16
}

/// Every footer of the wire is read back from its byte.
pub proof fn law_footer_round_trip(footer: Footer)
    requires
        footer.valid(),
    ensures
        0 <= footer.wire_byte() < 256,
        footer_of(footer.wire_byte() as u8) == Some(footer),
{
}

/// Every byte that is read as a footer is that footer's byte, and the footer
/// is one of the wire's.
pub proof fn law_footer_byte_round_trip(byte: u8)
    requires
        footer_of(byte) is Some,
    ensures
        (footer_of(byte)->0).valid(),
        (footer_of(byte)->0).wire_byte() == byte,
{
}

proof fn lemma_bits_value_bound(d: Seq<u8>, start: int, count: nat)
    ensures
        bits_value(d, start, count) < vstd::arithmetic::power2::pow2(count),
    decreases count,
{
    if count == 0 {
        vstd::arithmetic::power2::lemma2_to64();
    } else {
        lemma_bits_value_bound(d, start + 1, (count - 1) as nat);
        vstd::arithmetic::power2::lemma_pow2_unfold(count);
    }
}

/// Channels stay in the 11-bit range.
pub proof fn law_channel_range(payload: Seq<u8>, i: int)
    ensures
        channel_value(payload, i) <= 2047,
{
    lemma_bits_value_bound(payload, 11 * i, 11);
    vstd::arithmetic::power2::lemma2_to64();
}

/// The high nibble of the flag byte is unused: it does not disturb what a
/// candidate decodes to.
pub proof fn law_flag_high_nibble_is_unused(a: Seq<u8>, b: Seq<u8>)
    requires
        a.len() == FRAME_LEN,
        b.len() == FRAME_LEN,
        forall|i: int| 0 <= i < FRAME_LEN && i != 23 ==> a[i] == b[i],
        a[23] % 16 == b[23] % 16,
    ensures
        decoded_frame(a) == decoded_frame(b),
{
    assert(payload_of(a) =~= payload_of(b));
    let x = a[23];
    let y = b[23];
    assert(x % 2 == y % 2 && x / 2 % 2 == y / 2 % 2 && x / 4 % 2 == y / 4 % 2 && x / 8 % 2 == y / 8
        % 2) by (bit_vector)
        requires
            x % 16 == y % 16,
    ;
    assert(frame_of(a) =~= frame_of(b));
}

proof fn lemma_bits_value_digit(c: Seq<u8>, d: Seq<u8>, start: int, count: nat, j: int)
    requires
        bits_value(c, start, count) == bits_value(d, start, count),
        0 <= j < count,
    ensures
        bit_at(c, start + j) == bit_at(d, start + j),
    decreases count,
{
    if j > 0 {
        lemma_bits_value_digit(c, d, start + 1, (count - 1) as nat, j - 1);
    }
}

proof fn lemma_bits_value_same(c: Seq<u8>, d: Seq<u8>, start: int, count: nat)
    requires
        forall|n: int| start <= n < start + count ==> bit_at(c, n) == #[trigger] bit_at(d, n),
    ensures
        bits_value(c, start, count) == bits_value(d, start, count),
    decreases count,
{
    if count > 0 {
        assert(bit_at(c, start) == bit_at(d, start));
        lemma_bits_value_same(c, d, start + 1, (count - 1) as nat);
    }
}

proof fn lemma_channels_determine_byte(c: Seq<u8>, d: Seq<u8>, k: int)
    requires
        0 <= k < PAYLOAD_LEN,
        forall|i: int|
            8 * k / 11 <= i <= (8 * k + 7) / 11 ==> channel_value(c, i) == channel_value(d, i),
    ensures
        c[k] == d[k],
{
    assert forall|n: int| 8 * k <= n < 8 * k + 8 implies bit_at(c, n) == bit_at(d, n) by {
        let i = n / 11;
        assert(channel_value(c, i) == channel_value(d, i));
        lemma_bits_value_digit(c, d, 11 * i, 11, n % 11);
    }
    let x = c[k];
    let y = d[k];
    assert(bit_at(c, 8 * k + 0) == bit_at(d, 8 * k + 0));
    assert(bit_at(c, 8 * k + 1) == bit_at(d, 8 * k + 1));
    assert(bit_at(c, 8 * k + 2) == bit_at(d, 8 * k + 2));
    assert(bit_at(c, 8 * k + 3) == bit_at(d, 8 * k + 3));
    assert(bit_at(c, 8 * k + 4) == bit_at(d, 8 * k + 4));
    assert(bit_at(c, 8 * k + 5) == bit_at(d, 8 * k + 5));
    assert(bit_at(c, 8 * k + 6) == bit_at(d, 8 * k + 6));
    assert(bit_at(c, 8 * k + 7) == bit_at(d, 8 * k + 7));
    assert(x == y) by (bit_vector)
        requires
            x % 2 == y % 2,
            x / 2 % 2 == y / 2 % 2,
            x / 4 % 2 == y / 4 % 2,
            x / 8 % 2 == y / 8 % 2,
            x / 16 % 2 == y / 16 % 2,
            x / 32 % 2 == y / 32 % 2,
            x / 64 % 2 == y / 64 % 2,
            x / 128 % 2 == y / 128 % 2,
    ;
}

/// The channels lose nothing of the payload: payloads with the same channels
/// are the same payload.
pub proof fn law_channels_determine_payload(c: Seq<u8>, d: Seq<u8>)
    requires
        c.len() == PAYLOAD_LEN,
        d.len() == PAYLOAD_LEN,
        forall|i: int| 0 <= i < CHANNELS ==> channel_value(c, i) == channel_value(d, i),
    ensures
        c == d,
{
    assert forall|k: int| 0 <= k < PAYLOAD_LEN implies c[k] == d[k] by {
        lemma_channels_determine_byte(c, d, k);
    }
    assert(c =~= d);
}

/// The two halves of the payload share no bytes: the first 11 bytes and the
/// first 8 channels determine each other, and so do the last 11 bytes and the
/// last 8 channels.
pub proof fn law_payload_halves_are_independent(c: Seq<u8>, d: Seq<u8>)
    requires
        c.len() == PAYLOAD_LEN,
        d.len() == PAYLOAD_LEN,
    ensures
        c.subrange(0, 11) == d.subrange(0, 11) <==> (forall|i: int|
            0 <= i < 8 ==> channel_value(c, i) == channel_value(d, i)),
        c.subrange(11, 22) == d.subrange(11, 22) <==> (forall|i: int|
            8 <= i < 16 ==> channel_value(c, i) == channel_value(d, i)),
{
    lemma_payload_half(c, d, 0);
    lemma_payload_half(c, d, 1);
}

proof fn lemma_payload_half(c: Seq<u8>, d: Seq<u8>, half: int)
    requires
        c.len() == PAYLOAD_LEN,
        d.len() == PAYLOAD_LEN,
        0 <= half < 2,
    ensures
        c.subrange(11 * half, 11 * half + 11) == d.subrange(11 * half, 11 * half + 11) <==> (
        forall|i: int|
            8 * half <= i < 8 * half + 8 ==> channel_value(c, i) == channel_value(d, i)),
{
    let x = c.subrange(11 * half, 11 * half + 11);
    let y = d.subrange(11 * half, 11 * half + 11);
    if x == y {
        assert forall|i: int| 8 * half <= i < 8 * half + 8 implies channel_value(c, i)
            == channel_value(d, i) by {
            assert forall|n: int| 11 * i <= n < 11 * i + 11 implies bit_at(c, n)
                == #[trigger] bit_at(d, n) by {
                assert(x[n / 8 - 11 * half] == y[n / 8 - 11 * half]);
            }
            lemma_bits_value_same(c, d, 11 * i, 11);
        }
    }
    if forall|i: int|
        8 * half <= i < 8 * half + 8 ==> channel_value(c, i) == channel_value(d, i) {
        assert forall|k: int| 11 * half <= k < 11 * half + 11 implies c[k] == d[k] by {
            lemma_channels_determine_byte(c, d, k);
        }
        assert(x =~= y);
    }
}

/// The conversion maps the nominal raw range onto 1000..=2000 us, end on end.
pub proof fn law_pulse_range(raw: int)
    ensures
        pulse_us(RAW_MIN as int) == 1000,
        pulse_us(RAW_MAX as int) == 2000,
        RAW_MIN <= raw <= RAW_MAX ==> 1000 <= pulse_us(raw) <= 2000,
{
}

/// A larger raw value never gives a shorter pulse.
pub proof fn law_pulse_is_monotone(a: int, b: int)
    requires
        a <= b,
    ensures
        pulse_us(a) <= pulse_us(b),
{
}

/// The pulse width is the nearest one: it is off the exact line by at most
/// half a microsecond.
pub proof fn law_pulse_is_nearest(raw: int)
    ensures
        -(RAW_MAX - RAW_MIN) <= 2 * ((pulse_us(raw) - 1000) * (RAW_MAX - RAW_MIN) - 1000 * (raw
            - RAW_MIN)) <= RAW_MAX - RAW_MIN,
{
    let over: int = pulse_us(raw) - 1000;
    assert(over * (RAW_MAX - RAW_MIN) == 1639 * over) by (nonlinear_arith)
        requires
            RAW_MAX - RAW_MIN == 1639,
    ;
}

/// Exactly five bytes are footers: `0x00` is plain S.BUS, and `0x04`, `0x14`,
/// `0x24` and `0x34` are S.BUS2 with the groups 0, 1, 2 and 3.
pub proof fn law_five_bytes_are_footers(byte: u8, group: u8)
    ensures
        footer_of(byte) == Some(Footer::Sbus1) <==> byte == 0x00,
        footer_of(byte) == Some(Footer::Sbus2 { group }) <==> {
            ||| byte == 0x04 && group == 0
            ||| byte == 0x14 && group == 1
            ||| byte == 0x24 && group == 2
            ||| byte == 0x34 && group == 3
        },
        footer_of(byte) is None <==> byte != 0x00 && byte != 0x04 && byte != 0x14 && byte != 0x24
            && byte != 0x34,
{
}

/// An S.BUS2 footer selects its own group and carries it in the high nibble of
/// its byte, while a plain S.BUS footer selects none.
pub proof fn law_footer_selects_its_group(group: u8)
    ensures
        Footer::Sbus1.slot_group() is None,
        Footer::Sbus1.wire_byte() == 0x00,
        (Footer::Sbus2 { group }).slot_group() == Some(group),
        (Footer::Sbus2 { group }).wire_byte() == (group << 4) | 0x04,
{
    assert((group << 4) | 0x04 == 16 * (group % 16) + 4) by (bit_vector);
}

/// A 25-byte candidate is a frame exactly where it starts with `0x0F` and ends
/// with one of the five footer bytes; otherwise the offending byte is reported,
/// the start byte first.
pub proof fn law_start_and_footer_decide(bytes: Seq<u8>)
    requires
        bytes.len() == 25,
    ensures
        ({
            let known = bytes[24] == 0x00 || bytes[24] == 0x04 || bytes[24] == 0x14 || bytes[24]
                == 0x24 || bytes[24] == 0x34;
            &&& is_frame(bytes) <==> bytes[0] == 0x0F && known
            &&& decoded_frame(bytes) is Ok <==> bytes[0] == 0x0F && known
            &&& bytes[0] != 0x0F ==> decoded_frame(bytes) == Err::<FrameModel, FrameError>(
                FrameError::BadStart { found: bytes[0] },
            )
            &&& bytes[0] == 0x0F && !known ==> decoded_frame(bytes) == Err::<FrameModel, FrameError>(
                FrameError::BadFooter { found: bytes[24] },
            )
            &&& decoded_frame(bytes) matches Ok(frame) ==> frame == frame_of(bytes) && footer_of(
                bytes[24],
            ) == Some(frame.footer)
        }),
{
}

/// Only 25 bytes can be a frame.
pub proof fn law_a_frame_has_25_bytes(bytes: Seq<u8>)
    requires
        is_frame(bytes),
    ensures
        bytes.len() == 25,
{
}

/// Each flag of a frame is its own bit of byte 23 and depends on nothing else:
/// bit 0 is ch17, bit 1 ch18, bit 2 frame_lost and bit 3 failsafe. Two frames
/// that agree on a bit agree on its flag.
pub proof fn law_each_flag_is_its_own_bit(a: Seq<u8>, b: Seq<u8>)
    requires
        a.len() == 25,
        b.len() == 25,
        decoded_frame(a) is Ok,
        decoded_frame(b) is Ok,
    ensures
        ({
            let f = decoded_frame(a)->Ok_0;
            let g = decoded_frame(b)->Ok_0;
            &&& f.ch17 <==> a[23] & 0x01 != 0
            &&& f.ch18 <==> a[23] & 0x02 != 0
            &&& f.frame_lost <==> a[23] & 0x04 != 0
            &&& f.failsafe <==> a[23] & 0x08 != 0
            &&& a[23] & 0x01 == b[23] & 0x01 ==> f.ch17 == g.ch17
            &&& a[23] & 0x02 == b[23] & 0x02 ==> f.ch18 == g.ch18
            &&& a[23] & 0x04 == b[23] & 0x04 ==> f.frame_lost == g.frame_lost
            &&& a[23] & 0x08 == b[23] & 0x08 ==> f.failsafe == g.failsafe
        }),
{
    lemma_flag_bits(a[23]);
    lemma_flag_bits(b[23]);
}

proof fn lemma_flag_bits(flags: u8)
    ensures
        (flags & 0x01 != 0) == (flags % 2 == 1),
        (flags & 0x02 != 0) == (flags / 2 % 2 == 1),
        (flags & 0x04 != 0) == (flags / 4 % 2 == 1),
        (flags & 0x08 != 0) == (flags / 8 % 2 == 1),
{
    assert((flags & 0x01 != 0) == (flags % 2 == 1) && (flags & 0x02 != 0) == (flags / 2 % 2 == 1)
        && (flags & 0x04 != 0) == (flags / 4 % 2 == 1) && (flags & 0x08 != 0) == (flags / 8 % 2
        == 1)) by (bit_vector);
}

/// Setting a flag bit sets its flag and changes nothing else of the frame; the
/// failsafe flag in particular goes up whatever the other flags say.
pub proof fn law_setting_a_bit_sets_only_its_flag(bytes: Seq<u8>)
    requires
        bytes.len() == 25,
        decoded_frame(bytes) is Ok,
    ensures
        ({
            let frame = decoded_frame(bytes)->Ok_0;
            let flags = bytes[23];
            &&& decoded_frame(bytes.update(23, flags | 0x01)) == Ok::<FrameModel, FrameError>(
                FrameModel { ch17: true, ..frame },
            )
            &&& decoded_frame(bytes.update(23, flags | 0x02)) == Ok::<FrameModel, FrameError>(
                FrameModel { ch18: true, ..frame },
            )
            &&& decoded_frame(bytes.update(23, flags | 0x04)) == Ok::<FrameModel, FrameError>(
                FrameModel { frame_lost: true, ..frame },
            )
            &&& decoded_frame(bytes.update(23, flags | 0x08)) == Ok::<FrameModel, FrameError>(
                FrameModel { failsafe: true, ..frame },
            )
        }),
{
    lemma_setting_a_bit(bytes, 0x01);
    lemma_setting_a_bit(bytes, 0x02);
    lemma_setting_a_bit(bytes, 0x04);
    lemma_setting_a_bit(bytes, 0x08);
}

proof fn lemma_setting_a_bit(bytes: Seq<u8>, mask: u8)
    requires
        bytes.len() == 25,
        decoded_frame(bytes) is Ok,
        mask == 0x01 || mask == 0x02 || mask == 0x04 || mask == 0x08,
    ensures
        ({
            let frame = decoded_frame(bytes)->Ok_0;
            decoded_frame(bytes.update(23, bytes[23] | mask)) == Ok::<FrameModel, FrameError>(
                FrameModel {
                    ch17: frame.ch17 || mask == 0x01,
                    ch18: frame.ch18 || mask == 0x02,
                    frame_lost: frame.frame_lost || mask == 0x04,
                    failsafe: frame.failsafe || mask == 0x08,
                    ..frame
                },
            )
        }),
{
    let flags = bytes[23];
    let set = flags | mask;
    let after = bytes.update(23, set);
    assert(payload_of(after) =~= payload_of(bytes));
    assert((set % 2 == 1) == (flags % 2 == 1 || mask == 0x01) && (set / 2 % 2 == 1) == (flags / 2 % 2
        == 1 || mask == 0x02) && (set / 4 % 2 == 1) == (flags / 4 % 2 == 1 || mask == 0x04) && (set
        / 8 % 2 == 1) == (flags / 8 % 2 == 1 || mask == 0x08)) by (bit_vector)
        requires
            set == flags | mask,
            mask == 0x01 || mask == 0x02 || mask == 0x04 || mask == 0x08,
    ;
}

/// Bit `j` of channel `i` is bit `11 * i + j` of the payload, counted from the
/// least significant bit of byte 1 on; a channel has no other bits.
pub proof fn law_each_channel_bit_has_its_place(bytes: Seq<u8>, i: int, j: int)
    requires
        bytes.len() == 25,
        decoded_frame(bytes) is Ok,
        0 <= i < 16,
        0 <= j < 11,
    ensures
        ({
            let channels = (decoded_frame(bytes)->Ok_0).channels;
            &&& channels.len() == 16
            &&& channels[i] <= 2047
            &&& (channels[i] >> (j as u16)) & 1 == (bytes[1 + (11 * i + j) / 8] >> (((11 * i + j)
                % 8) as u8)) & 1
        }),
{
    let d = payload_of(bytes);
    law_channel_range(d, i);
    lemma_channel_bit(d, i, j);
    lemma_byte_bit(d[(11 * i + j) / 8], ((11 * i + j) % 8) as u8);
}

proof fn lemma_bit_bound(d: Seq<u8>, n: int)
    ensures
        bit_at(d, n) <= 1,
{
}

/// The bits that eleven binary digits add up to.
proof fn lemma_digits(
    b0: u16,
    b1: u16,
    b2: u16,
    b3: u16,
    b4: u16,
    b5: u16,
    b6: u16,
    b7: u16,
    b8: u16,
    b9: u16,
    b10: u16,
    v: u16,
)
    requires
        v == b0 + 2 * b1 + 4 * b2 + 8 * b3 + 16 * b4 + 32 * b5 + 64 * b6 + 128 * b7 + 256 * b8 + 512
            * b9 + 1024 * b10,
        b0 <= 1 && b1 <= 1 && b2 <= 1 && b3 <= 1 && b4 <= 1 && b5 <= 1 && b6 <= 1 && b7 <= 1 && b8
            <= 1 && b9 <= 1 && b10 <= 1,
    ensures
        (v >> 0u16) & 1 == b0 && (v >> 1u16) & 1 == b1 && (v >> 2u16) & 1 == b2 && (v >> 3u16) & 1
            == b3 && (v >> 4u16) & 1 == b4 && (v >> 5u16) & 1 == b5 && (v >> 6u16) & 1 == b6 && (v
            >> 7u16) & 1 == b7 && (v >> 8u16) & 1 == b8 && (v >> 9u16) & 1 == b9 && (v >> 10u16) & 1
            == b10,
{
    assert((v >> 0u16) & 1 == b0 && (v >> 1u16) & 1 == b1 && (v >> 2u16) & 1 == b2 && (v >> 3u16) & 1
        == b3 && (v >> 4u16) & 1 == b4 && (v >> 5u16) & 1 == b5 && (v >> 6u16) & 1 == b6 && (v
        >> 7u16) & 1 == b7 && (v >> 8u16) & 1 == b8 && (v >> 9u16) & 1 == b9 && (v >> 10u16) & 1
        == b10) by (bit_vector)
        requires
            v == b0 + 2 * b1 + 4 * b2 + 8 * b3 + 16 * b4 + 32 * b5 + 64 * b6 + 128 * b7 + 256 * b8
                + 512 * b9 + 1024 * b10,
            b0 <= 1 && b1 <= 1 && b2 <= 1 && b3 <= 1 && b4 <= 1 && b5 <= 1 && b6 <= 1 && b7 <= 1
                && b8 <= 1 && b9 <= 1 && b10 <= 1,
    ;
}

#[verifier::spinoff_prover]
#[verifier::rlimit(40)]
proof fn lemma_channel_bit(d: Seq<u8>, i: int, j: int)
    requires
        0 <= j < 11,
    ensures
        ((channel_value(d, i) as u16) >> (j as u16)) & 1 == bit_at(d, 11 * i + j),
{
    let a = 11 * i;
    law_channel_range(d, i);
    lemma_channel_sum(d, i);
    lemma_bit_bound(d, a);
    lemma_bit_bound(d, a + 1);
    lemma_bit_bound(d, a + 2);
    lemma_bit_bound(d, a + 3);
    lemma_bit_bound(d, a + 4);
    lemma_bit_bound(d, a + 5);
    lemma_bit_bound(d, a + 6);
    lemma_bit_bound(d, a + 7);
    lemma_bit_bound(d, a + 8);
    lemma_bit_bound(d, a + 9);
    lemma_bit_bound(d, a + 10);
    lemma_digits(
        bit_at(d, a) as u16,
        bit_at(d, a + 1) as u16,
        bit_at(d, a + 2) as u16,
        bit_at(d, a + 3) as u16,
        bit_at(d, a + 4) as u16,
        bit_at(d, a + 5) as u16,
        bit_at(d, a + 6) as u16,
        bit_at(d, a + 7) as u16,
        bit_at(d, a + 8) as u16,
        bit_at(d, a + 9) as u16,
        bit_at(d, a + 10) as u16,
        channel_value(d, i) as u16,
    );
}

/// A frame's model shows each of its fields as it is.
pub proof fn law_a_frame_shows_its_fields(frame: Frame)
    ensures
        frame@.channels == frame.channels@,
        frame@.ch17 == frame.ch17,
        frame@.ch18 == frame.ch18,
        frame@.frame_lost == frame.frame_lost,
        frame@.failsafe == frame.failsafe,
        frame@.footer == frame.footer,
{
}

} // verus!
