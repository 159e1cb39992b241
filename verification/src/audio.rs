//! Sound bank plumbing that needs no floating point: the cue catalogue, the deterministic
//! xorshift noise source, and the RIFF/WAVE encoder for 16-bit mono PCM. Synthesis itself (the
//! waveforms and the limiter that quantizes them) lives with the presentation.

use vstd::prelude::*;
use crate::event::Event;

verus! {

/// Every one-shot cue in the game.
#[derive(Clone, Copy, Debug, PartialEq, Eq, Hash, Structural)]
pub enum Cue {
    Ignite,
    Bell,
    CreatureCall,
    Splash,
    Rescue,
    Capture,
    LayerTick,
    Transform,
    Dawn,
    VoyageJoin,
    Blocked,
}

/// Number of cues.
pub const CUE_COUNT: usize = 11;

/// Position of a cue in the sound bank, in declaration order.
pub open spec fn cue_index(c: Cue) -> nat {
    match c {
        Cue::Ignite => 0,
        Cue::Bell => 1,
        Cue::CreatureCall => 2,
        Cue::Splash => 3,
        Cue::Rescue => 4,
        Cue::Capture => 5,
        Cue::LayerTick => 6,
        Cue::Transform => 7,
        Cue::Dawn => 8,
        Cue::VoyageJoin => 9,
        Cue::Blocked => 10,
    }
}

impl Cue {
    /// Slot of this cue in the sound bank.
    pub fn index(self) -> (r: usize)
        ensures
            r == cue_index(self),
            r < CUE_COUNT,
    {
        match self {
            Cue::Ignite => 0,
            Cue::Bell => 1,
            Cue::CreatureCall => 2,
            Cue::Splash => 3,
            Cue::Rescue => 4,
            Cue::Capture => 5,
            Cue::LayerTick => 6,
            Cue::Transform => 7,
            Cue::Dawn => 8,
            Cue::VoyageJoin => 9,
            Cue::Blocked => 10,
        }
    }

    /// Every cue, in bank order.
    pub fn all() -> (r: Vec<Cue>)
        ensures
            r@.len() == CUE_COUNT,
            forall|k: int| 0 <= k < CUE_COUNT ==> cue_index(#[trigger] r@[k]) == k,
    {
        vec![
            Cue::Ignite,
            Cue::Bell,
            Cue::CreatureCall,
            Cue::Splash,
            Cue::Rescue,
            Cue::Capture,
            Cue::LayerTick,
            Cue::Transform,
            Cue::Dawn,
            Cue::VoyageJoin,
            Cue::Blocked,
        ]
    }
}

/// How the presentation plays a cue: at the event's position or unplaced, at a volume given in
/// hundredths.
#[derive(Clone, Copy, Debug, PartialEq, Eq, Structural)]
pub struct Sound {
    pub cue: Cue,
    pub positioned: bool,
    pub volume_percent: u32,
}

/// The sound an event makes, if any.
pub open spec fn cue_of(e: Event) -> Option<Sound> {
    let at = |cue: Cue, v: u32| Some(Sound { cue, positioned: true, volume_percent: v });
    let flat = |cue: Cue, v: u32| Some(Sound { cue, positioned: false, volume_percent: v });
    match e {
        Event::Ignite => flat(Cue::Ignite, 90),
        Event::Dawn => flat(Cue::Dawn, 70),
        // A ship announcing itself out of the dark is deliberately quiet: the player has to listen.
        Event::ShipArrived { .. } => at(Cue::Bell, 35),
        Event::CreatureAppears { .. } => at(Cue::CreatureCall, 80),
        Event::Rescued { .. } => at(Cue::Rescue, 80),
        Event::Sunk { .. } => at(Cue::Splash, 85),
        Event::Wrecked { .. } => at(Cue::Splash, 70),
        Event::Transformed { .. } => at(Cue::Transform, 75),
        Event::Bell => at(Cue::Bell, 60),
        Event::CreatureCall => at(Cue::CreatureCall, 70),
        Event::LayerChanged { .. } => flat(Cue::LayerTick, 30),
        Event::Captured { .. } => flat(Cue::Capture, 55),
        Event::VoyageArrived => flat(Cue::Rescue, 80),
        _ => None,
    }
}

/// The sound an event makes, if any.
pub fn cue_for(e: Event) -> (r: Option<Sound>)
    ensures
        r == cue_of(e),
{
    let at = |cue: Cue, v: u32| -> (p: Option<Sound>)
        ensures
            p == Some(Sound { cue, positioned: true, volume_percent: v }),
        { Some(Sound { cue, positioned: true, volume_percent: v }) };
    let flat = |cue: Cue, v: u32| -> (p: Option<Sound>)
        ensures
            p == Some(Sound { cue, positioned: false, volume_percent: v }),
        { Some(Sound { cue, positioned: false, volume_percent: v }) };
    match e {
        Event::Ignite => flat(Cue::Ignite, 90),
        Event::Dawn => flat(Cue::Dawn, 70),
        Event::ShipArrived { .. } => at(Cue::Bell, 35),
        Event::CreatureAppears { .. } => at(Cue::CreatureCall, 80),
        Event::Rescued { .. } => at(Cue::Rescue, 80),
        Event::Sunk { .. } => at(Cue::Splash, 85),
        Event::Wrecked { .. } => at(Cue::Splash, 70),
        Event::Transformed { .. } => at(Cue::Transform, 75),
        Event::Bell => at(Cue::Bell, 60),
        Event::CreatureCall => at(Cue::CreatureCall, 70),
        Event::LayerChanged { .. } => flat(Cue::LayerTick, 30),
        Event::Captured { .. } => flat(Cue::Capture, 55),
        Event::VoyageArrived => flat(Cue::Rescue, 80),
        _ => None,
    }
}

/// One xorshift32 step (shifts 13, 17, 5).
pub open spec fn xorshift(x: u32) -> u32 {
    let a = x ^ (x << 13u32);
    let b = a ^ (a >> 17u32);
    b ^ (b << 5u32)
}

/// The xorshift step is a bijection that fixes zero, so a non-zero state never becomes zero and
/// the generator never sticks.
pub proof fn lemma_xorshift_nonzero(x: u32)
    requires
        x != 0,
    ensures
        xorshift(x) != 0,
{
    let a = x ^ (x << 13u32);
    let b = a ^ (a >> 17u32);
    assert(x != 0 ==> a != 0) by (bit_vector)
        requires
            a == x ^ (x << 13u32),
    ;
    assert(a != 0 ==> b != 0) by (bit_vector)
        requires
            b == a ^ (a >> 17u32),
    ;
    assert(b != 0 ==> (b ^ (b << 5u32)) != 0) by (bit_vector);
}

/// Deterministic noise source, so every build sounds identical. The state is never zero.
pub struct Rng {
    state: u32,
}

impl Rng {
    #[verifier::type_invariant]
    spec fn inv(self) -> bool {
        self.state != 0
    }

    pub closed spec fn state(self) -> u32 {
        self.state
    }

    /// Seeded generator; the low bit is forced so the state is never zero.
    pub fn new(seed: u32) -> (r: Rng)
        ensures
            r.state() == seed | 1,
    {
        assert((seed | 1u32) != 0) by (bit_vector);
        Rng { state: seed | 1 }
    }

    /// Advance one xorshift step and return the new state.
    pub fn next_u32(&mut self) -> (r: u32)
        ensures
            r == xorshift(old(self).state()),
            final(self).state() == r,
            r != 0,
    {
        proof {
            use_type_invariant(&*self);
        }
        let mut x = self.state;
        proof {
            lemma_xorshift_nonzero(x);
        }
        x ^= x << 13u32;
        x ^= x >> 17u32;
        x ^= x << 5u32;
        self.state = x;
        x
    }
}

/// Little-endian bytes of a 16-bit value.
pub open spec fn le16(v: int) -> Seq<u8> {
    seq![(v % 256) as u8, ((v / 256) % 256) as u8]
}

/// Little-endian bytes of a 32-bit value.
pub open spec fn le32(v: int) -> Seq<u8> {
    seq![
        (v % 256) as u8,
        ((v / 256) % 256) as u8,
        ((v / 65536) % 256) as u8,
        ((v / 16777216) % 256) as u8,
    ]
}

/// Two's-complement bit pattern of a sample.
pub open spec fn sample_bits(x: i16) -> int {
    if x < 0 {
        x + 65536
    } else {
        x as int
    }
}

/// Byte `b` of the PCM payload for `s`: each sample as little-endian 16 bits.
pub open spec fn pcm_byte(s: Seq<i16>, b: int) -> u8 {
    if b % 2 == 0 {
        (sample_bits(s[b / 2]) % 256) as u8
    } else {
        (sample_bits(s[b / 2]) / 256) as u8
    }
}

/// RIFF chunk head: tag, size of everything after this field (wrapping to 32 bits), form type.
pub open spec fn riff_part(n: int) -> Seq<u8> {
    seq![82u8, 73u8, 70u8, 70u8] + le32((36 + 2 * n) % 0x1_0000_0000) + seq![87u8, 65u8, 86u8, 69u8]
}

/// Format chunk: PCM, mono, `rate` Hz, 16 bits per sample.
pub open spec fn fmt_part(rate: int) -> Seq<u8> {
    seq![102u8, 109u8, 116u8, 32u8] + le32(16) + le16(1) + le16(1) + le32(rate) + le32(2 * rate)
        + le16(2) + le16(16)
}

/// Data chunk head: tag and payload size (wrapping to 32 bits).
pub open spec fn data_part(n: int) -> Seq<u8> {
    seq![100u8, 97u8, 116u8, 97u8] + le32((2 * n) % 0x1_0000_0000)
}

/// The 44-byte RIFF/WAVE header for `n` mono 16-bit samples at `rate` Hz.
#[verifier::opaque]
pub open spec fn wav_header(n: int, rate: int) -> Seq<u8> {
    riff_part(n) + fmt_part(rate) + data_part(n)
}

/// A complete WAV file for the samples.
pub open spec fn wav_file(s: Seq<i16>, rate: int) -> Seq<u8> {
    wav_header(s.len() as int, rate) + Seq::new((2 * s.len()) as nat, |b: int| pcm_byte(s, b))
}

/// Little-endian 32-bit field at `at`.
pub open spec fn read_u32(bytes: Seq<u8>, at: int) -> int {
    bytes[at] + 256 * bytes[at + 1] + 65536 * bytes[at + 2] + 16777216 * bytes[at + 3]
}

/// Signed 16-bit sample stored at byte offset `at`.
pub open spec fn read_i16(bytes: Seq<u8>, at: int) -> int {
    let v = bytes[at] + 256 * bytes[at + 1];
    if v >= 32768 {
        v - 65536
    } else {
        v
    }
}

fn push_le32(out: &mut Vec<u8>, w: u32)
    ensures
        final(out)@ == old(out)@ + le32(w as int),
{
    out.push((w % 256) as u8);
    out.push(((w / 256) % 256) as u8);
    out.push(((w / 65536) % 256) as u8);
    out.push(((w / 16777216) % 256) as u8);
    assert(final(out)@ =~= old(out)@ + le32(w as int));
}

fn push_le16(out: &mut Vec<u8>, w: u16)
    ensures
        final(out)@ == old(out)@ + le16(w as int),
{
    out.push((w % 256) as u8);
    out.push(((w / 256) % 256) as u8);
    assert(final(out)@ =~= old(out)@ + le16(w as int));
}

fn push_tag(out: &mut Vec<u8>, a: u8, b: u8, c: u8, d: u8)
    ensures
        final(out)@ == old(out)@ + seq![a, b, c, d],
{
    out.push(a);
    out.push(b);
    out.push(c);
    out.push(d);
    assert(final(out)@ =~= old(out)@ + seq![a, b, c, d]);
}

/// A valid RIFF/WAVE mono PCM16 file holding `samples` at `sample_rate` Hz.
pub fn wav_bytes(samples: &[i16], sample_rate: u32) -> (out: Vec<u8>)
    requires
        samples@.len() <= (usize::MAX - 44) / 2,
        sample_rate <= u32::MAX / 2,
    ensures
        out@ == wav_file(samples@, sample_rate as int),
{
    let n = samples.len();
    let data_len = n * 2;
    let mut out: Vec<u8> = Vec::with_capacity(44 + data_len);
    push_tag(&mut out, 82, 73, 70, 70);  // "RIFF"
    push_le32(&mut out, (((36 + data_len) as u64) % 0x1_0000_0000u64) as u32);
    push_tag(&mut out, 87, 65, 86, 69);  // "WAVE"
    push_tag(&mut out, 102, 109, 116, 32);  // "fmt "
    push_le32(&mut out, 16);  // PCM fmt chunk size
    push_le16(&mut out, 1);  // format: PCM
    push_le16(&mut out, 1);  // channels: mono
    push_le32(&mut out, sample_rate);
    push_le32(&mut out, sample_rate * 2);  // byte rate
    push_le16(&mut out, 2);  // block align
    push_le16(&mut out, 16);  // bits per sample
    push_tag(&mut out, 100, 97, 116, 97);  // "data"
    push_le32(&mut out, ((data_len as u64) % 0x1_0000_0000u64) as u32);
    let ghost header = out@;
    assert(header =~= wav_header(n as int, sample_rate as int)) by {
        reveal(wav_header);
    }
    let mut k: usize = 0;
    while k < n
        invariant
            n == samples@.len(),
            n <= (usize::MAX - 44) / 2,
            k <= n,
            header == wav_header(n as int, sample_rate as int),
            header.len() == 44,
            out@.len() == 44 + 2 * k,
            out@.subrange(0, 44) == header,
            forall|b: int| 0 <= b < 2 * k ==> #[trigger] out@[44 + b] == pcm_byte(samples@, b),
        decreases n - k,
    {
        let x = samples[k];
        let bits: u32 = if x < 0 {
            (x as i32 + 65536) as u32
        } else {
            x as u32
        };
        let ghost before = out@;
        out.push((bits % 256) as u8);
        out.push((bits / 256) as u8);
        proof {
            assert(sample_bits(x) == bits);
            assert forall|b: int| 0 <= b < 2 * (k + 1) implies #[trigger] out@[44 + b] == pcm_byte(samples@, b) by {
                if b < 2 * k {
                    assert(out@[44 + b] == before[44 + b]);
                } else if b == 2 * k {
                    assert(b / 2 == k);
                } else {
                    assert(b / 2 == k);
                }
            }
            assert(out@.subrange(0, 44) =~= before.subrange(0, 44));
        }
        k += 1;
    }
    proof {
        let file = wav_file(samples@, sample_rate as int);
        assert(file.len() == out@.len());
        assert forall|b: int| 0 <= b < out@.len() implies out@[b] == file[b] by {
            if b < 44 {
                assert(out@[b] == out@.subrange(0, 44)[b]);
            } else {
                assert(out@[44 + (b - 44)] == pcm_byte(samples@, b - 44));
            }
        }
        assert(out@ =~= file);
    }
    out
}

proof fn lemma_header_fields(n: int, rate: int)
    requires
        0 <= n,
        0 <= rate < 0x1_0000_0000,
    ensures
        wav_header(n, rate).len() == 44,
        forall|t: int| 0 <= t < 4 ==> wav_header(n, rate)[4 + t] == #[trigger] le32((36 + 2 * n) % 0x1_0000_0000)[t],
        forall|t: int| 0 <= t < 4 ==> wav_header(n, rate)[24 + t] == #[trigger] le32(rate)[t],
        forall|t: int| 0 <= t < 4 ==> wav_header(n, rate)[40 + t] == #[trigger] le32((2 * n) % 0x1_0000_0000)[t],
{
    reveal(wav_header);
    let r = riff_part(n);
    let m = fmt_part(rate);
    let d = data_part(n);
    let h = wav_header(n, rate);
    let v1 = (36 + 2 * n) % 0x1_0000_0000;
    let v2 = (2 * n) % 0x1_0000_0000;
    let r1 = seq![82u8, 73u8, 70u8, 70u8] + le32(v1);
    let m1 = seq![102u8, 109u8, 116u8, 32u8] + le32(16) + le16(1) + le16(1);
    let m2 = m1 + le32(rate);
    assert(r1.len() == 8);
    assert(r.len() == 12);
    assert(m1.len() == 12);
    assert(m2.len() == 16);
    assert(m.len() == 24);
    assert(d.len() == 8);
    assert forall|t: int| 0 <= t < 4 implies h[4 + t] == le32(v1)[t] by {
        assert(h[4 + t] == (r + m)[4 + t]);
        assert((r + m)[4 + t] == r[4 + t]);
        assert(r[4 + t] == r1[4 + t]);
    }
    assert forall|t: int| 0 <= t < 4 implies h[24 + t] == le32(rate)[t] by {
        assert(h[24 + t] == (r + m)[24 + t]);
        assert((r + m)[24 + t] == m[12 + t]);
        assert(m[12 + t] == m2[12 + t]);
    }
    assert forall|t: int| 0 <= t < 4 implies h[40 + t] == le32(v2)[t] by {
        assert(h[40 + t] == d[4 + t]);
    }
}

proof fn lemma_le32_read(v: int)
    requires
        0 <= v < 0x1_0000_0000,
    ensures
        le32(v)[0] + 256 * le32(v)[1] + 65536 * le32(v)[2] + 16777216 * le32(v)[3] == v,
{
}

proof fn lemma_pcm_decode(s: Seq<i16>, k: int)
    requires
        0 <= k < s.len(),
    ensures
        pcm_byte(s, 2 * k) + 256 * pcm_byte(s, 2 * k + 1) == sample_bits(s[k]),
        sample_bits(s[k]) >= 32768 ==> sample_bits(s[k]) - 65536 == s[k],
        sample_bits(s[k]) < 32768 ==> sample_bits(s[k]) == s[k],
{
    assert((2 * k) / 2 == k);
    assert((2 * k + 1) / 2 == k);
    assert((2 * k) % 2 == 0);
    assert((2 * k + 1) % 2 == 1);
}

/// The header describes its payload: the file is 44 bytes plus two per sample, the size fields
/// count the bytes after them, the sample rate sits at offset 24, and decoding the payload gives
/// back every sample.
pub proof fn lemma_wav_round_trip(s: Seq<i16>, rate: u32)
    requires
        2 * s.len() + 36 < 0x1_0000_0000,
    ensures
        wav_file(s, rate as int).len() == 44 + 2 * s.len(),
        read_u32(wav_file(s, rate as int), 4) == wav_file(s, rate as int).len() - 8,
        read_u32(wav_file(s, rate as int), 40) == 2 * s.len(),
        read_u32(wav_file(s, rate as int), 24) == rate,
        forall|k: int| 0 <= k < s.len() ==> read_i16(wav_file(s, rate as int), 44 + 2 * k) == s[k],
{
    let n = s.len() as int;
    let f = wav_file(s, rate as int);
    let h = wav_header(n, rate as int);
    let payload = Seq::new((2 * s.len()) as nat, |b: int| pcm_byte(s, b));
    lemma_header_fields(n, rate as int);
    assert(f == h + payload);
    let v1 = (36 + 2 * n) % 0x1_0000_0000;
    let v2 = (2 * n) % 0x1_0000_0000;
    lemma_le32_read(v1);
    lemma_le32_read(v2);
    lemma_le32_read(rate as int);
    assert(f[4] == h[4] && f[5] == h[5] && f[6] == h[6] && f[7] == h[7]);
    assert(h[4] == le32(v1)[0] && h[5] == le32(v1)[1] && h[6] == le32(v1)[2] && h[7] == le32(v1)[3]);
    assert(f[24] == h[24] && f[25] == h[25] && f[26] == h[26] && f[27] == h[27]);
    assert(h[24] == le32(rate as int)[0] && h[25] == le32(rate as int)[1] && h[26] == le32(rate as int)[2] && h[27] == le32(rate as int)[3]);
    assert(f[40] == h[40] && f[41] == h[41] && f[42] == h[42] && f[43] == h[43]);
    assert(h[40] == le32(v2)[0] && h[41] == le32(v2)[1] && h[42] == le32(v2)[2] && h[43] == le32(v2)[3]);
    assert forall|k: int| 0 <= k < s.len() implies read_i16(f, 44 + 2 * k) == s[k] by {
        assert(f[44 + 2 * k] == payload[2 * k]);
        assert(f[44 + 2 * k + 1] == payload[2 * k + 1]);
        lemma_pcm_decode(s, k);
    }
}

} // verus!
