//! Audio: the RIFF/WAVE reader and sample conversion of the AC'97 driver,
//! the driver's descriptor-ring streaming plan, the `audiod` mixer and the
//! `aplay` tone generator. The programs move bytes between files, channels
//! and the sound device; what is decided about those bytes is decided here.
use vstd::prelude::*;
use crate::bytes::push_all;
use crate::programs::args::{parse_u32, all_digits, dec_value};

verus! {

// ── little-endian fields ────────────────────────────────────────────────────

pub open spec fn le16(d: Seq<u8>, o: int) -> u16 {
    (d[o] + 256 * d[o + 1]) as u16
}

pub open spec fn le32(d: Seq<u8>, o: int) -> u32 {
    (d[o] + 256 * d[o + 1] + 65536 * d[o + 2] + 16777216 * d[o + 3]) as u32
}

/// The signed 16-bit sample stored little-endian at `o`.
pub open spec fn le_i16(d: Seq<u8>, o: int) -> i16 {
    let u = d[o] + 256 * d[o + 1];
    if u >= 32768 { (u - 65536) as i16 } else { u as i16 }
}

pub fn le_u16(d: &[u8], o: usize) -> (v: u16)
    requires
        o + 2 <= d@.len(),
    ensures
        v == le16(d@, o as int),
{
    d[o] as u16 + (d[o + 1] as u16) * 256
}

pub fn le_u32(d: &[u8], o: usize) -> (v: u32)
    requires
        o + 4 <= d@.len(),
    ensures
        v == le32(d@, o as int),
{
    d[o] as u32 + (d[o + 1] as u32) * 256 + (d[o + 2] as u32) * 65536 + (d[o + 3] as u32) * 16777216
}

pub fn sample_i16(d: &[u8], o: usize) -> (v: i16)
    requires
        o + 2 <= d@.len(),
    ensures
        v == le_i16(d@, o as int),
{
    let u: i32 = d[o] as i32 + (d[o + 1] as i32) * 256;
    if u >= 32768 { (u - 65536) as i16 } else { u as i16 }
}

/// Whether the four bytes at `o` spell the tag `t0 t1 t2 t3`.
pub open spec fn tag_at(d: Seq<u8>, o: int, t0: u8, t1: u8, t2: u8, t3: u8) -> bool {
    d[o] == t0 && d[o + 1] == t1 && d[o + 2] == t2 && d[o + 3] == t3
}

fn tag_is(d: &[u8], o: usize, t0: u8, t1: u8, t2: u8, t3: u8) -> (r: bool)
    requires
        o + 4 <= d@.len(),
    ensures
        r == tag_at(d@, o as int, t0, t1, t2, t3),
{
    d[o] == t0 && d[o + 1] == t1 && d[o + 2] == t2 && d[o + 3] == t3
}

// ── RIFF/WAVE ───────────────────────────────────────────────────────────────

/// What the chunk walk has found so far.
#[derive(Clone, Copy, PartialEq, Eq, Structural)]
pub struct WavFields {
    pub channels: u16,
    pub sample_rate: u32,
    pub bits: u16,
    pub data_start: usize,
    pub data_len: usize,
}

pub open spec fn no_fields() -> WavFields {
    WavFields { channels: 0, sample_rate: 0, bits: 0, data_start: 0, data_len: 0 }
}

/// "RIFF" at 0 and "WAVE" at 8, in a file of at least a canonical header.
pub open spec fn riff_wave(d: Seq<u8>) -> bool {
    &&& d.len() >= 44
    &&& tag_at(d, 0, 0x52, 0x49, 0x46, 0x46)
    &&& tag_at(d, 8, 0x57, 0x41, 0x56, 0x45)
}

pub open spec fn is_fmt(d: Seq<u8>, o: int) -> bool {
    tag_at(d, o, 0x66, 0x6d, 0x74, 0x20)
}

pub open spec fn is_data(d: Seq<u8>, o: int) -> bool {
    tag_at(d, o, 0x64, 0x61, 0x74, 0x61)
}

/// A chunk's length rounded up to even (chunks are word aligned).
pub open spec fn padded(len: int) -> int {
    len + len % 2
}

/// The fields after taking in the chunk at `off` of length `len`.
pub open spec fn take_chunk(d: Seq<u8>, off: int, len: int, st: WavFields) -> WavFields {
    let body = off + 8;
    if is_fmt(d, off) {
        WavFields {
            channels: le16(d, body + 2),
            sample_rate: le32(d, body + 4),
            bits: le16(d, body + 14),
            ..st
        }
    } else if is_data(d, off) {
        WavFields { data_start: body as usize, data_len: len as usize, ..st }
    } else {
        st
    }
}

/// The driver's chunk walk from `off`: every chunk must lie inside the file,
/// and a `fmt ` chunk must be at least 16 bytes of PCM (format 1).
pub open spec fn walk_chunks(d: Seq<u8>, off: int, st: WavFields) -> Option<WavFields>
    decreases d.len() + 2 - off,
{
    if off < 0 || off + 8 > d.len() {
        Some(st)
    } else {
        let len = le32(d, off + 4) as int;
        let body = off + 8;
        if body + len > d.len() {
            None
        } else if is_fmt(d, off) && (len < 16 || le16(d, body) != 1) {
            None
        } else {
            walk_chunks(d, body + padded(len), take_chunk(d, off, len, st))
        }
    }
}

/// Mono or stereo, 8 or 16 bits, with sample data.
pub open spec fn playable(st: WavFields) -> bool {
    &&& st.channels == 1 || st.channels == 2
    &&& st.bits == 8 || st.bits == 16
    &&& st.data_start != 0
    &&& st.data_len != 0
}

/// A WAV file as the driver plays it.
pub struct WavView {
    pub data: Seq<u8>,
    pub channels: u16,
    pub sample_rate: u32,
    pub bits: u16,
}

/// What the driver's reader makes of the file `d`.
pub open spec fn wav_of(d: Seq<u8>) -> Option<WavView> {
    if !riff_wave(d) {
        None
    } else {
        match walk_chunks(d, 12, no_fields()) {
            Some(st) => if playable(st) {
                Some(WavView {
                    data: d.subrange(st.data_start as int, st.data_start + st.data_len),
                    channels: st.channels,
                    sample_rate: st.sample_rate,
                    bits: st.bits,
                })
            } else {
                None
            },
            None => None,
        }
    }
}

/// The sample data of a playable file, borrowed from the file.
pub struct WavInfo<'a> {
    data: &'a [u8],
    channels: u16,
    sample_rate: u32,
    bits: u16,
}

impl<'a> View for WavInfo<'a> {
    type V = WavView;

    closed spec fn view(&self) -> WavView {
        WavView { data: self.data@, channels: self.channels, sample_rate: self.sample_rate, bits: self.bits }
    }
}

/// Bytes per frame: one sample per channel.
pub open spec fn frame_size(w: WavView) -> int {
    w.channels * (w.bits / 8)
}

pub open spec fn frame_count(w: WavView) -> int {
    (w.data.len() as int) / frame_size(w)
}

pub open spec fn wav_ok(w: WavView) -> bool {
    &&& w.channels == 1 || w.channels == 2
    &&& w.bits == 8 || w.bits == 16
}

/// An unsigned 8-bit sample as a signed 16-bit one.
pub open spec fn widen8(b: u8) -> i16 {
    ((b - 128) * 256) as i16
}

/// Frame `f` as a stereo pair; silence past the end.
pub open spec fn stereo_frame(w: WavView, f: int) -> (i16, i16) {
    if f >= frame_count(w) {
        (0, 0)
    } else {
        let base = f * frame_size(w);
        if w.bits == 16 {
            if w.channels == 1 {
                (le_i16(w.data, base), le_i16(w.data, base))
            } else {
                (le_i16(w.data, base), le_i16(w.data, base + 2))
            }
        } else {
            if w.channels == 1 {
                (widen8(w.data[base]), widen8(w.data[base]))
            } else {
                (widen8(w.data[base]), widen8(w.data[base + 1]))
            }
        }
    }
}

/// The stereo pair at frame `i` of interleaved samples.
pub open spec fn pair_at(s: Seq<i16>, i: int) -> (i16, i16) {
    (s[2 * i], s[2 * i + 1])
}

/// The signed 16-bit value of the little-endian bytes `lo`, `hi`.
pub open spec fn signed16(lo: u8, hi: u8) -> int {
    lo + 256 * hi - (if hi >= 128 { 65536int } else { 0 })
}

/// What frame `f` of a playable file plays as: past the last whole frame,
/// silence; a mono frame's one sample on both channels; a stereo frame's
/// samples left then right. 16-bit samples are signed little-endian, 8-bit
/// ones unsigned and centred on 128, scaled by 256.
pub proof fn law_stereo_frame(w: WavView, f: int)
    requires
        wav_ok(w),
        0 <= f,
    ensures
        ({
            let (l, r) = stereo_frame(w, f);
            let d = w.data;
            let bytes = w.channels * (w.bits / 8);
            &&& (f + 1) * bytes > d.len() ==> l == 0 && r == 0
            &&& (f + 1) * bytes <= d.len() ==> {
                &&& w.bits == 16 && w.channels == 1 ==> l as int == signed16(d[2 * f], d[2 * f + 1]) && r == l
                &&& w.bits == 16 && w.channels == 2 ==> l as int == signed16(d[4 * f], d[4 * f + 1]) && r as int == signed16(
                    d[4 * f + 2],
                    d[4 * f + 3],
                )
                &&& w.bits == 8 && w.channels == 1 ==> l as int == (d[f] - 128) * 256 && r == l
                &&& w.bits == 8 && w.channels == 2 ==> l as int == (d[2 * f] - 128) * 256 && r as int == (d[2 * f + 1] - 128) * 256
            }
        }),
{
    let bytes = w.channels * (w.bits / 8);
    let n = frame_count(w);
    assert(bytes == 1 || bytes == 2 || bytes == 4);
    assert(frame_size(w) == bytes);
    assert(f < n <==> (f + 1) * bytes <= w.data.len()) by (nonlinear_arith)
        requires
            bytes >= 1,
            n == w.data.len() as int / bytes,
            f >= 0,
    ;
    if bytes == 1 {
        assert(f * bytes == f);
    } else if bytes == 2 {
        assert(f * bytes == 2 * f);
    } else {
        assert(f * bytes == 4 * f);
    }
}

impl<'a> WavInfo<'a> {
    #[verifier::type_invariant]
    closed spec fn inv(&self) -> bool {
        wav_ok(self@)
    }

    pub fn channels(&self) -> (c: u16)
        ensures
            c == self@.channels,
            wav_ok(self@),
    {
        proof {
            use_type_invariant(self);
        }
        self.channels
    }

    pub fn sample_rate(&self) -> (r: u32)
        ensures
            r == self@.sample_rate,
    {
        self.sample_rate
    }

    pub fn bits(&self) -> (b: u16)
        ensures
            b == self@.bits,
            wav_ok(self@),
    {
        proof {
            use_type_invariant(self);
        }
        self.bits
    }

    pub fn data(&self) -> (d: &'a [u8])
        ensures
            d@ == self@.data,
    {
        self.data
    }

    /// Whole frames in the sample data.
    pub fn frames(&self) -> (n: usize)
        ensures
            n == frame_count(self@),
            wav_ok(self@),
    {
        proof {
            use_type_invariant(self);
        }
        assert(self.channels == 1 || self.channels == 2);
        assert(self.bits == 8 || self.bits == 16);
        self.data.len() / (self.channels as usize * (self.bits as usize / 8))
    }

    /// `count` frames from `start` as interleaved stereo 16-bit samples.
    pub fn fill_stereo_i16(&self, start: usize, count: usize) -> (out: Vec<i16>)
        requires
            start + count <= usize::MAX,
            2 * count <= usize::MAX,
        ensures
            out@.len() == 2 * count,
            forall|i: int| 0 <= i < count ==> #[trigger] pair_at(out@, i) == stereo_frame(self@, start + i),
    {
        proof {
            use_type_invariant(self);
        }
        assert(self.channels == 1 || self.channels == 2);
        assert(self.bits == 8 || self.bits == 16);
        let fs = self.channels as usize * (self.bits as usize / 8);
        let total = self.frames();
        let dl = self.data.len();
        let ghost w = self@;
        let mut out: Vec<i16> = Vec::new();
        let mut i: usize = 0;
        while i < count
            invariant
                w == self@,
                wav_ok(w),
                dl == w.data.len(),
                fs == frame_size(w),
                total == frame_count(w),
                start + count <= usize::MAX,
                2 * count <= usize::MAX,
                i <= count,
                out@.len() == 2 * i,
                forall|k: int| 0 <= k < i ==> #[trigger] pair_at(out@, k) == stereo_frame(w, start + k),
            decreases count - i,
        {
            let frame = start + i;
            let (l, r) = if frame >= total {
                (0i16, 0i16)
            } else {
                assert(frame * fs + fs <= w.data.len()) by (nonlinear_arith)
                    requires
                        frame < total,
                        total == (w.data.len() as int) / (fs as int),
                        fs >= 1,
                ;
                assert(frame * fs <= usize::MAX) by (nonlinear_arith)
                    requires
                        frame * fs + fs <= w.data.len(),
                        w.data.len() <= usize::MAX,
                ;
                let base = frame * fs;
                if self.bits == 16 {
                    if self.channels == 1 {
                        let s = sample_i16(self.data, base);
                        (s, s)
                    } else {
                        assert(fs == 4);
                        (sample_i16(self.data, base), sample_i16(self.data, base + 2))
                    }
                } else {
                    if self.channels == 1 {
                        let s: i16 = ((self.data[base] as i16) - 128) * 256;
                        (s, s)
                    } else {
                        assert(fs == 2);
                        (((self.data[base] as i16) - 128) * 256, ((self.data[base + 1] as i16) - 128) * 256)
                    }
                }
            };
            assert((l, r) == stereo_frame(w, frame as int));
            let ghost before = out@;
            out.push(l);
            out.push(r);
            assert forall|k: int| 0 <= k < i + 1 implies #[trigger] pair_at(out@, k) == stereo_frame(w, start + k) by {
                if k < i {
                    assert(pair_at(out@, k) == pair_at(before, k));
                }
            }
            i = i + 1;
        }
        out
    }
}

/// The driver's reader: a playable RIFF/WAVE file gives its sample data and
/// format; anything else gives `None`.
pub fn parse_wav<'a>(data: &'a [u8]) -> (r: Option<WavInfo<'a>>)
    requires
        data@.len() < usize::MAX,
    ensures
        match r {
            Some(w) => wav_of(data@) == Some(w@),
            None => wav_of(data@) is None,
        },
{
    if data.len() < 44 || !tag_is(data, 0, 0x52, 0x49, 0x46, 0x46) || !tag_is(data, 8, 0x57, 0x41, 0x56, 0x45) {
        return None;
    }
    let ghost d = data@;
    let mut off: usize = 12;
    let mut st = WavFields { channels: 0, sample_rate: 0, bits: 0, data_start: 0, data_len: 0 };
    while off <= data.len() && data.len() - off >= 8
        invariant
            d == data@,
            d.len() < usize::MAX,
            12 <= off <= d.len() + 1,
            st.data_start + st.data_len <= d.len(),
            walk_chunks(d, off as int, st) == walk_chunks(d, 12, no_fields()),
        decreases data.len() + 2 - off,
    {
        let len = le_u32(data, off + 4) as usize;
        let body = off + 8;
        if len > data.len() - body {
            return None;
        }
        let fmt = tag_is(data, off, 0x66, 0x6d, 0x74, 0x20);
        if fmt {
            if len < 16 || le_u16(data, body) != 1 {
                return None;
            }
            st = WavFields {
                channels: le_u16(data, body + 2),
                sample_rate: le_u32(data, body + 4),
                bits: le_u16(data, body + 14),
                ..st
            };
        } else if tag_is(data, off, 0x64, 0x61, 0x74, 0x61) {
            st = WavFields { data_start: body, data_len: len, ..st };
        }
        off = body + len + len % 2;
    }
    if !((st.channels == 1 || st.channels == 2) && (st.bits == 8 || st.bits == 16) && st.data_start != 0
        && st.data_len != 0) {
        return None;
    }
    Some(WavInfo {
        data: &data[st.data_start..st.data_start + st.data_len],
        channels: st.channels,
        sample_rate: st.sample_rate,
        bits: st.bits,
    })
}


/// The header reader's chunk walk over the first bytes of a file: a `fmt `
/// chunk must hold 16 bytes of PCM (format 1); a chunk that runs past what was
/// read ends the walk.
pub open spec fn walk_header(d: Seq<u8>, off: int, st: WavFields) -> Option<WavFields>
    decreases d.len() + 2 - off,
{
    if off < 0 || off + 8 > d.len() {
        Some(st)
    } else {
        let len = le32(d, off + 4) as int;
        let body = off + 8;
        if is_fmt(d, off) && (body + 16 > d.len() || le16(d, body) != 1) {
            None
        } else {
            let next = body + padded(len);
            if next > d.len() {
                Some(take_chunk(d, off, len, st))
            } else {
                walk_header(d, next, take_chunk(d, off, len, st))
            }
        }
    }
}

/// What the header reader makes of the first bytes `d` of a file.
pub open spec fn header_of(d: Seq<u8>) -> Option<WavFields> {
    if !riff_wave(d) {
        None
    } else {
        match walk_header(d, 12, no_fields()) {
            Some(st) => if playable(st) { Some(st) } else { None },
            None => None,
        }
    }
}

/// The format and the place of the sample data, read from the start of a
/// RIFF/WAVE file (the data may run past the bytes given).
pub fn parse_wav_header(data: &[u8]) -> (r: Option<WavFields>)
    requires
        data@.len() < usize::MAX,
    ensures
        r == header_of(data@),
{
    if data.len() < 44 || !tag_is(data, 0, 0x52, 0x49, 0x46, 0x46) || !tag_is(data, 8, 0x57, 0x41, 0x56, 0x45) {
        return None;
    }
    let ghost d = data@;
    let mut off: usize = 12;
    let mut st = WavFields { channels: 0, sample_rate: 0, bits: 0, data_start: 0, data_len: 0 };
    while off <= data.len() && data.len() - off >= 8
        invariant_except_break
            walk_header(d, off as int, st) == walk_header(d, 12, no_fields()),
        invariant
            d == data@,
            d.len() < usize::MAX,
            12 <= off <= d.len(),
        ensures
            walk_header(d, 12, no_fields()) == Some(st),
        decreases data.len() + 2 - off,
    {
        let len = le_u32(data, off + 4) as usize;
        let body = off + 8;
        let fmt = tag_is(data, off, 0x66, 0x6d, 0x74, 0x20);
        if fmt {
            if data.len() - body < 16 || le_u16(data, body) != 1 {
                return None;
            }
            st = WavFields {
                channels: le_u16(data, body + 2),
                sample_rate: le_u32(data, body + 4),
                bits: le_u16(data, body + 14),
                ..st
            };
        } else if tag_is(data, off, 0x64, 0x61, 0x74, 0x61) {
            st = WavFields { data_start: body, data_len: len, ..st };
        }
        if len > data.len() - body || len + len % 2 > data.len() - body {
            break;
        }
        off = body + len + len % 2;
    }
    if !((st.channels == 1 || st.channels == 2) && (st.bits == 8 || st.bits == 16) && st.data_start != 0
        && st.data_len != 0) {
        return None;
    }
    Some(st)
}


// ── the header reader's playback ────────────────────────────────────────────

/// An unsigned 8-bit sample `b` as the 16-bit sample `(b - 128) << 8`,
/// little-endian: a zero low byte and `b - 128` (mod 256) above it.
pub open spec fn widen8_bytes(b: u8) -> Seq<u8> {
    seq![0u8, ((b as int - 128) % 256) as u8]
}

/// Output frame `i` of a block (four bytes: left, then right, each 16-bit
/// little-endian): a mono 16-bit sample doubled, or 8-bit samples widened
/// (a mono one doubled).
pub open spec fn out_frame(pcm: Seq<u8>, channels: u16, bits: u16, i: int) -> Seq<u8> {
    if bits == 16 {
        seq![pcm[2 * i], pcm[2 * i + 1], pcm[2 * i], pcm[2 * i + 1]]
    } else if channels == 1 {
        widen8_bytes(pcm[i]) + widen8_bytes(pcm[i])
    } else {
        widen8_bytes(pcm[2 * i]) + widen8_bytes(pcm[2 * i + 1])
    }
}

/// Output frames `0..n`.
pub open spec fn out_frames(pcm: Seq<u8>, channels: u16, bits: u16, n: int) -> Seq<u8>
    decreases n,
{
    if n <= 0 { Seq::empty() } else { out_frames(pcm, channels, bits, n - 1) + out_frame(pcm, channels, bits, n - 1) }
}

/// A block of sample data as 16-bit stereo for the sound device: mono
/// 16-bit and 8-bit data are converted frame by frame (a trailing partial
/// frame is dropped), 16-bit stereo passes through unchanged.
pub open spec fn stereo_block_of(pcm: Seq<u8>, channels: u16, bits: u16) -> Seq<u8> {
    if channels == 1 && bits == 16 {
        out_frames(pcm, 1, 16, pcm.len() as int / 2)
    } else if bits == 8 {
        out_frames(pcm, channels, 8, pcm.len() as int / (channels as int))
    } else {
        pcm
    }
}

/// `b - 128` modulo 256: the high byte of a widened 8-bit sample.
fn flip_sign(b: u8) -> (r: u8)
    ensures
        seq![0u8, r] == widen8_bytes(b),
{
    if b >= 128 { b - 128 } else { b + 128 }
}

/// Convert a block read from a WAV file of the given format (as the header
/// reader accepts: one or two channels) to 16-bit stereo.
pub fn stereo_block(pcm: &[u8], channels: u16, bits: u16) -> (out: Vec<u8>)
    requires
        channels == 1 || channels == 2,
    ensures
        out@ == stereo_block_of(pcm@, channels, bits),
{
    let mut out: Vec<u8> = Vec::new();
    let plen = pcm.len();
    if channels == 1 && bits == 16 {
        let frames = plen / 2;
        let mut i: usize = 0;
        while i < frames
            invariant
                frames == pcm@.len() / 2,
                plen == pcm@.len(),
                i <= frames,
                out@ == out_frames(pcm@, 1, 16, i as int),
            decreases frames - i,
        {
            let lo = pcm[2 * i];
            let hi = pcm[2 * i + 1];
            out.push(lo);
            out.push(hi);
            out.push(lo);
            out.push(hi);
            proof {
                assert(out@ =~= out_frames(pcm@, 1, 16, i as int) + out_frame(pcm@, 1, 16, i as int));
            }
            i = i + 1;
        }
        out
    } else if bits == 8 {
        let frames = if channels == 1 { plen } else { plen / 2 };
        let mut i: usize = 0;
        while i < frames
            invariant
                channels == 1 || channels == 2,
                bits == 8,
                frames == pcm@.len() as int / (channels as int),
                plen == pcm@.len(),
                i <= frames,
                out@ == out_frames(pcm@, channels, 8, i as int),
            decreases frames - i,
        {
            let (l, r) = if channels == 1 { (pcm[i], pcm[i]) } else { (pcm[2 * i], pcm[2 * i + 1]) };
            let hl = flip_sign(l);
            let hr = flip_sign(r);
            out.push(0);
            out.push(hl);
            out.push(0);
            out.push(hr);
            proof {
                assert(out@ =~= out_frames(pcm@, channels, 8, i as int) + out_frame(pcm@, channels, 8, i as int));
            }
            i = i + 1;
        }
        out
    } else {
        push_all(&mut out, pcm);
        assert(out@ =~= pcm@);
        out
    }
}

/// How many bytes of sample data to read next: what is left, at most 1024
/// frames of `frame_size` bytes.
pub fn block_len(remaining: usize, frame_size: usize) -> (n: usize)
    requires
        frame_size <= 4,
    ensures
        n == (if remaining < 1024 * frame_size { remaining as int } else { 1024 * frame_size }),
{
    let cap = 1024 * frame_size;
    if remaining < cap { remaining } else { cap }
}

// ── streaming through the descriptor ring ───────────────────────────────────

/// Buffer descriptors in the ring.
pub const BDL_COUNT: usize = 32;
/// Frames per descriptor.
pub const STREAM_CHUNK_FRAMES: usize = 8192;
/// The largest file the driver reads.
pub const MAX_WAV_SIZE: usize = 33554432;

/// A piece of the file to convert and queue on descriptor `desc`.
#[derive(Clone, Copy, PartialEq, Eq, Structural)]
pub struct Chunk {
    pub start: usize,
    pub frames: usize,
    pub desc: usize,
    /// The piece ends the file (its descriptor raises the completion flag).
    pub last: bool,
}

/// Where a playback stands: what was queued, what the device has played,
/// which descriptor it was last seen on, and how long it has been silent.
#[derive(Clone, Copy, PartialEq, Eq, Structural)]
pub struct Playback {
    pub total: usize,
    pub next_frame: usize,
    pub next_desc: usize,
    pub played: usize,
    pub last_civ: usize,
    pub idle_ms: u64,
    pub max_idle_ms: u64,
}

pub open spec fn playback_wf(p: Playback) -> bool {
    &&& p.next_frame <= p.total
    &&& p.played <= p.total
    &&& p.last_civ < BDL_COUNT
    &&& p.next_desc <= p.next_frame
}

/// The next piece after `p.next_frame`, if any frames are left.
pub open spec fn chunk_after(p: Playback) -> Option<Chunk> {
    if p.next_frame < p.total {
        let left = p.total - p.next_frame;
        let frames = if left <= STREAM_CHUNK_FRAMES { left } else { STREAM_CHUNK_FRAMES as int };
        Some(Chunk {
            start: p.next_frame,
            frames: frames as usize,
            desc: (p.next_desc % BDL_COUNT) as usize,
            last: p.next_frame + frames >= p.total,
        })
    } else {
        None
    }
}

/// `p` after queuing the piece `c`.
pub open spec fn queued(p: Playback, c: Chunk) -> Playback {
    Playback { next_frame: (p.next_frame + c.frames) as usize, next_desc: (p.next_desc + 1) as usize, ..p }
}

/// Descriptors the device has moved on by when it is seen on `civ`.
pub open spec fn civ_steps(last: int, civ: int) -> int {
    if civ == last { 0 } else if civ > last { civ - last } else { BDL_COUNT - last + civ }
}

impl Playback {
    /// A playback of `total` frames at `rate`: nothing queued or played, and
    /// a silence allowance of the file's length plus two seconds.
    pub fn new(total: usize, rate: u32) -> (p: Playback)
        requires
            total <= MAX_WAV_SIZE,
        ensures
            playback_wf(p),
            p == (Playback {
                total,
                next_frame: 0,
                next_desc: 0,
                played: 0,
                last_civ: 0,
                idle_ms: 0,
                max_idle_ms: ((total * 1000) / (if rate >= 1 { rate as int } else { 1 }) + 2000) as u64,
            }),
    {
        let r: u64 = if rate >= 1 { rate as u64 } else { 1 };
        let ms: u64 = (total as u64 * 1000) / r;
        assert(ms <= total * 1000) by (nonlinear_arith)
            requires
                ms == (total * 1000) / (r as int),
                r >= 1,
        ;
        Playback {
            total,
            next_frame: 0,
            next_desc: 0,
            played: 0,
            last_civ: 0,
            idle_ms: 0,
            max_idle_ms: ms + 2000,
        }
    }

    /// The next piece to queue, and the playback past it.
    pub fn next_chunk(&mut self) -> (c: Option<Chunk>)
        requires
            playback_wf(*old(self)),
        ensures
            playback_wf(*final(self)),
            c == chunk_after(*old(self)),
            match c {
                Some(k) => *final(self) == queued(*old(self), k),
                None => *final(self) == *old(self),
            },
    {
        if self.next_frame < self.total {
            let left = self.total - self.next_frame;
            let frames = if left <= STREAM_CHUNK_FRAMES { left } else { STREAM_CHUNK_FRAMES };
            let c = Chunk {
                start: self.next_frame,
                frames,
                desc: self.next_desc % BDL_COUNT,
                last: self.next_frame + frames >= self.total,
            };
            self.next_frame = self.next_frame + frames;
            self.next_desc = self.next_desc + 1;
            Some(c)
        } else {
            None
        }
    }

    /// While the ring is first filled: the next piece, while descriptors
    /// are left.
    pub fn initial_chunk(&mut self) -> (c: Option<Chunk>)
        requires
            playback_wf(*old(self)),
        ensures
            playback_wf(*final(self)),
            old(self).next_desc < BDL_COUNT ==> c == chunk_after(*old(self)),
            old(self).next_desc >= BDL_COUNT ==> c is None,
            match c {
                Some(k) => *final(self) == queued(*old(self), k),
                None => *final(self) == *old(self),
            },
    {
        if self.next_desc < BDL_COUNT { self.next_chunk() } else { None }
    }

    /// The last valid descriptor index: the last one queued.
    pub fn lvi(&self) -> (v: u8)
        requires
            self.next_desc <= BDL_COUNT,
        ensures
            v == (if self.next_desc == 0 { BDL_COUNT - 1 } else { self.next_desc - 1 }),
    {
        (if self.next_desc == 0 { BDL_COUNT - 1 } else { self.next_desc - 1 }) as u8
    }

    /// The device was started and reports descriptor `civ`.
    pub fn started(&mut self, civ: u8)
        requires
            playback_wf(*old(self)),
        ensures
            playback_wf(*final(self)),
            *final(self) == (Playback { last_civ: (civ % 32) as usize, ..*old(self) }),
    {
        self.last_civ = (civ % 32) as usize;
    }

    /// Still playing: frames are left and the device has not been silent too long.
    pub fn running(&self) -> (b: bool)
        ensures
            b == (self.played < self.total && self.idle_ms < self.max_idle_ms),
    {
        self.played < self.total && self.idle_ms < self.max_idle_ms
    }

    /// The device reports descriptor `civ`: the descriptors it has finished
    /// since it was last seen (resetting the silence count), or 0 (counting
    /// another millisecond of silence).
    pub fn observe(&mut self, civ: u8) -> (steps: usize)
        requires
            playback_wf(*old(self)),
            old(self).idle_ms < old(self).max_idle_ms,
        ensures
            playback_wf(*final(self)),
            steps == civ_steps(old(self).last_civ as int, (civ % 32) as int),
            steps < BDL_COUNT,
            steps == 0 ==> *final(self) == (Playback { idle_ms: (old(self).idle_ms + 1) as u64, ..*old(self) }),
            steps != 0 ==> *final(self) == (Playback { idle_ms: 0, ..*old(self) }),
    {
        let c = (civ % 32) as usize;
        if c != self.last_civ {
            self.idle_ms = 0;
            if c > self.last_civ { c - self.last_civ } else { BDL_COUNT - self.last_civ + c }
        } else {
            self.idle_ms = self.idle_ms + 1;
            0
        }
    }

    /// The device finished the descriptor it was on, which held `desc_frames`
    /// frames: count them as played, move to the next descriptor, and give the
    /// next piece of the file to queue in the freed one.
    pub fn descriptor_done(&mut self, desc_frames: usize) -> (c: Option<Chunk>)
        requires
            playback_wf(*old(self)),
        ensures
            playback_wf(*final(self)),
            c == chunk_after(*old(self)),
            ({
                let p = Playback {
                    played: if old(self).played + desc_frames <= old(self).total {
                        (old(self).played + desc_frames) as usize
                    } else {
                        old(self).total
                    },
                    last_civ: ((old(self).last_civ + 1) % (BDL_COUNT as int)) as usize,
                    ..*old(self)
                };
                match c {
                    Some(k) => *final(self) == queued(p, k),
                    None => *final(self) == p,
                }
            }),
    {
        self.played = if desc_frames <= self.total - self.played { self.played + desc_frames } else { self.total };
        let c = self.next_chunk();
        self.last_civ = (self.last_civ + 1) % BDL_COUNT;
        c
    }
}

/// Queuing pieces one after another covers the file in order: the pieces
/// start where the previous one ended, are at most one descriptor long, and
/// only the one that reaches the end is marked last.
pub proof fn law_chunks_tile_the_file(p: Playback)
    requires
        playback_wf(p),
        p.next_frame < p.total,
    ensures
        chunk_after(p) is Some,
        chunk_after(p)->0.start == p.next_frame,
        1 <= chunk_after(p)->0.frames <= STREAM_CHUNK_FRAMES,
        queued(p, chunk_after(p)->0).next_frame == p.next_frame + chunk_after(p)->0.frames,
        queued(p, chunk_after(p)->0).next_frame <= p.total,
        chunk_after(p)->0.last <==> queued(p, chunk_after(p)->0).next_frame == p.total,
        chunk_after(p)->0.desc == p.next_desc % BDL_COUNT,
{
}


// ── the mixer ───────────────────────────────────────────────────────────────

pub const OP_TONE: u8 = 1;
pub const OP_STOP: u8 = 2;
pub const OP_PCM: u8 = 3;
pub const OP_SETCH: u8 = 4;
/// Bytes before a message's payload.
pub const HEADER: usize = 8;
/// One round's chunk: 1200 stereo frames of 16-bit samples.
pub const CHUNK_BYTES: usize = 4800;
pub const SAMPLES: usize = 2400;
pub const MAX_STREAMS: usize = 8;
/// Rounds a silent stream keeps its slot.
pub const MAX_MISS: u32 = 4;

/// One client stream as the mixer holds it.
pub struct StreamView {
    /// Its acknowledgement channel, which also names it; 0 for a free slot.
    pub reply: u64,
    /// A chunk is waiting for this round.
    pub ready: bool,
    /// Rounds in a row without a chunk.
    pub miss: u32,
    pub buf: Seq<u8>,
}

/// What the server must do for a message.
#[derive(PartialEq, Eq, Structural)]
pub enum Request {
    /// Too short, or an unknown operation.
    Ignore,
    /// Write the payload straight to the device (a stream without a reply
    /// channel is not mixed).
    WriteThrough,
    /// The chunk joined this round's mix in slot `0`.
    Buffered(usize),
    /// Every slot is taken: the chunk is dropped.
    Dropped,
    /// Device control `cmd` with `arg`; then acknowledge on `ack` unless 0.
    Control { cmd: u64, arg: u64, ack: u64 },
}

/// The slots of the mixer.
pub struct Mixer {
    replies: Vec<u64>,
    ready: Vec<bool>,
    miss: Vec<u32>,
    bufs: Vec<Vec<u8>>,
}

impl View for Mixer {
    type V = Seq<StreamView>;

    closed spec fn view(&self) -> Seq<StreamView> {
        Seq::new(
            self.replies@.len(),
            |i: int| StreamView { reply: self.replies@[i], ready: self.ready@[i], miss: self.miss@[i], buf: self.bufs@[i]@ },
        )
    }
}

/// Every slot holds a chunk-sized buffer, and a taken slot has missed fewer
/// rounds than it may.
pub open spec fn mixer_wf(s: Seq<StreamView>) -> bool {
    &&& s.len() == MAX_STREAMS
    &&& forall|i: int| 0 <= i < s.len() ==> (#[trigger] s[i]).buf.len() == CHUNK_BYTES
    &&& forall|i: int| 0 <= i < s.len() && (#[trigger] s[i]).reply != 0 ==> s[i].miss < MAX_MISS
    &&& forall|i: int| 0 <= i < s.len() && (#[trigger] s[i]).reply == 0 ==> !s[i].ready
}

/// The first slot named `r`, or -1.
pub open spec fn slot_named(s: Seq<StreamView>, r: u64) -> int
    decreases s.len(),
{
    if s.len() == 0 {
        -1
    } else if s[0].reply == r {
        0
    } else if slot_named(s.drop_first(), r) < 0 {
        -1
    } else {
        slot_named(s.drop_first(), r) + 1
    }
}

pub proof fn lemma_slot_named(s: Seq<StreamView>, r: u64)
    ensures
        -1 <= slot_named(s, r) < s.len(),
        slot_named(s, r) >= 0 ==> s[slot_named(s, r)].reply == r,
        forall|j: int| 0 <= j < s.len() && (slot_named(s, r) < 0 || j < slot_named(s, r)) ==> s[j].reply != r,
    decreases s.len(),
{
    if s.len() > 0 && s[0].reply != r {
        lemma_slot_named(s.drop_first(), r);
        assert forall|j: int| 0 <= j < s.len() && (slot_named(s, r) < 0 || j < slot_named(s, r)) implies s[j].reply != r by {
            if j > 0 {
                assert(s[j] == s.drop_first()[j - 1]);
            }
        }
    }
}

/// The payload of a message of `n` bytes, cut or zero-padded to one chunk.
pub open spec fn chunk_of(msg: Seq<u8>, n: int) -> Seq<u8> {
    let len = if n - HEADER <= CHUNK_BYTES { n - HEADER } else { CHUNK_BYTES as int };
    Seq::new(CHUNK_BYTES as nat, |j: int| if j < len { msg[HEADER + j] } else { 0u8 })
}

/// The slot a mixed chunk from `reply` goes to: its own, else the first free
/// one; -1 when all are taken.
pub open spec fn slot_for(s: Seq<StreamView>, reply: u64) -> int {
    if slot_named(s, reply) >= 0 { slot_named(s, reply) } else { slot_named(s, 0) }
}

/// What the server does for the first `n` bytes of `msg`.
pub open spec fn request_of(s: Seq<StreamView>, msg: Seq<u8>, n: int) -> Request {
    let op = msg[0];
    let reply = le16(msg, 2) as u64;
    let arg = le32(msg, 4) as u64;
    if n < HEADER {
        Request::Ignore
    } else if op == OP_PCM {
        if reply == 0 {
            Request::WriteThrough
        } else if slot_for(s, reply) >= 0 {
            Request::Buffered(slot_for(s, reply) as usize)
        } else {
            Request::Dropped
        }
    } else if op == OP_TONE {
        Request::Control { cmd: 1, arg, ack: reply }
    } else if op == OP_STOP {
        Request::Control { cmd: 0, arg: 0, ack: reply }
    } else if op == OP_SETCH {
        Request::Control { cmd: 2, arg, ack: reply }
    } else {
        Request::Ignore
    }
}

/// The slots after the first `n` bytes of `msg`.
pub open spec fn ingested(s: Seq<StreamView>, msg: Seq<u8>, n: int) -> Seq<StreamView> {
    match request_of(s, msg, n) {
        Request::Buffered(i) => s.update(
            i as int,
            StreamView { reply: le16(msg, 2) as u64, ready: true, miss: 0, buf: chunk_of(msg, n) },
        ),
        _ => s,
    }
}


/// Slots with a chunk this round.
pub open spec fn count_ready(s: Seq<StreamView>) -> nat
    decreases s.len(),
{
    if s.len() == 0 {
        0
    } else {
        count_ready(s.drop_last()) + if s.last().ready { 1nat } else { 0nat }
    }
}

/// The first slot with a chunk, or -1.
pub open spec fn first_ready(s: Seq<StreamView>) -> int
    decreases s.len(),
{
    if s.len() == 0 {
        -1
    } else if s[0].ready {
        0
    } else if first_ready(s.drop_first()) < 0 {
        -1
    } else {
        first_ready(s.drop_first()) + 1
    }
}

/// The sum of the ready streams' `k`-th samples.
pub open spec fn mix_sum(s: Seq<StreamView>, k: int) -> int
    decreases s.len(),
{
    if s.len() == 0 {
        0
    } else {
        mix_sum(s.drop_last(), k) + if s.last().ready { le_i16(s.last().buf, 2 * k) as int } else { 0 }
    }
}

/// `v` clipped to the 16-bit range.
pub open spec fn clip16(v: int) -> i16 {
    if v < -32768 { -32768i16 } else if v > 32767 { 32767i16 } else { v as i16 }
}

pub open spec fn low_byte(v: i16) -> u8 {
    ((if v < 0 { v + 65536 } else { v as int }) % 256) as u8
}

pub open spec fn high_byte(v: i16) -> u8 {
    ((if v < 0 { v + 65536 } else { v as int }) / 256) as u8
}

/// The ready streams summed sample by sample, clipped, little-endian.
pub open spec fn mixed_chunk(s: Seq<StreamView>) -> Seq<u8> {
    Seq::new(
        CHUNK_BYTES as nat,
        |j: int| if j % 2 == 0 { low_byte(clip16(mix_sum(s, j / 2))) } else { high_byte(clip16(mix_sum(s, j / 2))) },
    )
}

/// What a round writes: nothing without chunks, a lone chunk as it is, or
/// the mix of several.
pub open spec fn mix_of(s: Seq<StreamView>) -> Option<Seq<u8>> {
    if count_ready(s) == 0 {
        None
    } else if count_ready(s) == 1 {
        Some(s[first_ready(s)].buf)
    } else {
        Some(mixed_chunk(s))
    }
}

/// A slot after a round: a contributor is acknowledged and waits again; a
/// silent stream counts a miss and loses its slot after too many.
pub open spec fn settled_slot(t: StreamView) -> StreamView {
    if t.reply == 0 {
        t
    } else if t.ready {
        StreamView { ready: false, miss: 0, ..t }
    } else if t.miss + 1 >= MAX_MISS {
        StreamView { miss: (t.miss + 1) as u32, reply: 0, ..t }
    } else {
        StreamView { miss: (t.miss + 1) as u32, ..t }
    }
}

/// The channels acknowledged after a round, in slot order.
pub open spec fn acks_of(s: Seq<StreamView>) -> Seq<u64>
    decreases s.len(),
{
    if s.len() == 0 {
        Seq::empty()
    } else if s.last().reply != 0 && s.last().ready {
        acks_of(s.drop_last()).push(s.last().reply)
    } else {
        acks_of(s.drop_last())
    }
}

pub proof fn lemma_first_ready(s: Seq<StreamView>)
    ensures
        -1 <= first_ready(s) < s.len(),
        first_ready(s) >= 0 ==> s[first_ready(s)].ready,
        forall|j: int| 0 <= j < s.len() && (first_ready(s) < 0 || j < first_ready(s)) ==> !s[j].ready,
    decreases s.len(),
{
    if s.len() > 0 && !s[0].ready {
        lemma_first_ready(s.drop_first());
        assert forall|j: int| 0 <= j < s.len() && (first_ready(s) < 0 || j < first_ready(s)) implies !s[j].ready by {
            if j > 0 {
                assert(s[j] == s.drop_first()[j - 1]);
            }
        }
    }
}

pub proof fn lemma_mix_sum_bound(s: Seq<StreamView>, k: int)
    ensures
        -32768 * s.len() <= mix_sum(s, k) <= 32767 * s.len(),
    decreases s.len(),
{
    if s.len() > 0 {
        lemma_mix_sum_bound(s.drop_last(), k);
    }
}

pub proof fn lemma_count_ready_bound(s: Seq<StreamView>)
    ensures
        count_ready(s) <= s.len(),
    decreases s.len(),
{
    if s.len() > 0 {
        lemma_count_ready_bound(s.drop_last());
    }
}


pub proof fn lemma_no_ready(s: Seq<StreamView>)
    requires
        first_ready(s) < 0,
    ensures
        count_ready(s) == 0,
    decreases s.len(),
{
    lemma_first_ready(s);
    if s.len() > 0 {
        assert(first_ready(s.drop_last()) < 0) by {
            lemma_first_ready(s.drop_last());
            if first_ready(s.drop_last()) >= 0 {
                assert(s[first_ready(s.drop_last())] == s.drop_last()[first_ready(s.drop_last())]);
            }
        }
        lemma_no_ready(s.drop_last());
    }
}


pub proof fn lemma_acks_count(s: Seq<StreamView>)
    requires
        forall|i: int| 0 <= i < s.len() && (#[trigger] s[i]).reply == 0 ==> !s[i].ready,
    ensures
        acks_of(s).len() == count_ready(s),
    decreases s.len(),
{
    if s.len() > 0 {
        assert forall|i: int| 0 <= i < s.drop_last().len() && (#[trigger] s.drop_last()[i]).reply == 0 implies !s.drop_last()[i].ready by {
            assert(s.drop_last()[i] == s[i]);
        }
        lemma_acks_count(s.drop_last());
        assert(s.last() == s[s.len() - 1]);
    }
}

pub proof fn lemma_single_ready(s: Seq<StreamView>, i: int)
    requires
        0 <= i < s.len(),
        s[i].ready,
        forall|j: int| 0 <= j < s.len() && j != i ==> !(#[trigger] s[j]).ready,
    ensures
        count_ready(s) == 1,
        first_ready(s) == i,
    decreases s.len(),
{
    if i == s.len() - 1 {
        assert(first_ready(s) == i) by {
            lemma_first_ready(s);
        }
        assert(first_ready(s.drop_last()) < 0) by {
            lemma_first_ready(s.drop_last());
            if first_ready(s.drop_last()) >= 0 {
                assert(s.drop_last()[first_ready(s.drop_last())] == s[first_ready(s.drop_last())]);
            }
        }
        lemma_no_ready(s.drop_last());
    } else {
        assert forall|j: int| 0 <= j < s.drop_last().len() && j != i implies !(#[trigger] s.drop_last()[j]).ready by {
            assert(s.drop_last()[j] == s[j]);
        }
        assert(s.drop_last()[i] == s[i]);
        lemma_single_ready(s.drop_last(), i);
        lemma_first_ready(s);
    }
}

/// Every round acknowledges each contributor once and leaves no slot
/// waiting to be mixed.
pub proof fn law_round_acks_every_contributor(s: Seq<StreamView>)
    requires
        mixer_wf(s),
    ensures
        acks_of(s).len() == count_ready(s),
        forall|i: int| 0 <= i < s.len() ==> !(#[trigger] settled_slot(s[i])).ready,
        mixer_wf(s.map_values(|t: StreamView| settled_slot(t))),
{
    lemma_acks_count(s);
}

/// A stream that stays silent loses its slot on its fourth missed round.
pub proof fn law_silent_stream_freed(t: StreamView)
    requires
        t.reply != 0,
        !t.ready,
        t.miss == MAX_MISS - 1,
    ensures
        settled_slot(t).reply == 0,
{
}

/// When no other stream has a chunk, a buffered chunk is written as it came
/// (cut or zero-padded to one chunk), unmixed.
pub proof fn law_lone_chunk_passes_through(s: Seq<StreamView>, msg: Seq<u8>, n: int)
    requires
        mixer_wf(s),
        n <= msg.len(),
        forall|j: int| 0 <= j < s.len() ==> !(#[trigger] s[j]).ready,
        request_of(s, msg, n) is Buffered,
    ensures
        mix_of(ingested(s, msg, n)) == Some(chunk_of(msg, n)),
{
    let i = request_of(s, msg, n)->Buffered_0 as int;
    let s2 = ingested(s, msg, n);
    lemma_slot_named(s, le16(msg, 2) as u64);
    lemma_slot_named(s, 0);
    assert forall|j: int| 0 <= j < s2.len() && j != i implies !(#[trigger] s2[j]).ready by {
        assert(s2[j] == s[j]);
    }
    lemma_single_ready(s2, i);
}

impl Mixer {
    /// The slots are consistent: see `mixer_wf`.
    pub closed spec fn well_formed(&self) -> bool {
        &&& self.replies@.len() == MAX_STREAMS
        &&& self.ready@.len() == MAX_STREAMS
        &&& self.miss@.len() == MAX_STREAMS
        &&& self.bufs@.len() == MAX_STREAMS
        &&& mixer_wf(self@)
    }

    /// Eight free slots.
    pub fn new() -> (m: Mixer)
        ensures
            m.well_formed(),
            mixer_wf(m@),
            forall|i: int| 0 <= i < MAX_STREAMS ==> (#[trigger] m@[i]).reply == 0 && !m@[i].ready,
    {
        let mut replies: Vec<u64> = Vec::new();
        let mut ready: Vec<bool> = Vec::new();
        let mut miss: Vec<u32> = Vec::new();
        let mut bufs: Vec<Vec<u8>> = Vec::new();
        let mut i: usize = 0;
        while i < MAX_STREAMS
            invariant
                i <= MAX_STREAMS,
                replies@.len() == i,
                ready@.len() == i,
                miss@.len() == i,
                bufs@.len() == i,
                forall|k: int| 0 <= k < i ==> replies@[k] == 0 && !ready@[k] && miss@[k] == 0,
                forall|k: int| 0 <= k < i ==> (#[trigger] bufs@[k])@.len() == CHUNK_BYTES,
            decreases MAX_STREAMS - i,
        {
            replies.push(0);
            ready.push(false);
            miss.push(0);
            let mut b: Vec<u8> = Vec::new();
            let mut j: usize = 0;
            while j < CHUNK_BYTES
                invariant
                    j <= CHUNK_BYTES,
                    b@.len() == j,
                decreases CHUNK_BYTES - j,
            {
                b.push(0);
                j = j + 1;
            }
            bufs.push(b);
            i = i + 1;
        }
        Mixer { replies, ready, miss, bufs }
    }

    /// The first slot named `r`.
    fn find_slot(&self, r: u64) -> (i: Option<usize>)
        requires
            self.well_formed(),
        ensures
            match i {
                Some(k) => slot_named(self@, r) == k && k < MAX_STREAMS,
                None => slot_named(self@, r) < 0,
            },
    {
        let ghost s = self@;
        proof {
            lemma_slot_named(s, r);
        }
        let mut i: usize = 0;
        while i < self.replies.len()
            invariant
                s == self@,
                s.len() == MAX_STREAMS,
                self.replies@.len() == s.len(),
                i <= s.len(),
                -1 <= slot_named(s, r) < s.len(),
                slot_named(s, r) >= 0 ==> s[slot_named(s, r)].reply == r,
                forall|j: int| 0 <= j < s.len() && (slot_named(s, r) < 0 || j < slot_named(s, r)) ==> s[j].reply != r,
                forall|j: int| 0 <= j < i ==> s[j].reply != r,
            decreases s.len() - i,
        {
            assert(s[i as int].reply == self.replies@[i as int]);
            if self.replies[i] == r {
                return Some(i);
            }
            i = i + 1;
        }
        None
    }

    /// Take in the first `n` bytes of a message: a chunk from a stream with a
    /// reply channel is buffered in its slot (claiming a free one if needed),
    /// cut or zero-padded to one chunk; everything else is handed back as what
    /// to do.
    pub fn ingest(&mut self, msg: &[u8], n: usize) -> (r: Request)
        requires
            old(self).well_formed(),
            n <= msg@.len(),
        ensures
            final(self).well_formed(),
            r == request_of(old(self)@, msg@, n as int),
            final(self)@ == ingested(old(self)@, msg@, n as int),
    {
        if n < HEADER {
            return Request::Ignore;
        }
        let ghost s = self@;
        let op = msg[0];
        let reply = le_u16(msg, 2) as u64;
        let arg = le_u32(msg, 4) as u64;
        if op == OP_PCM {
            if reply == 0 {
                return Request::WriteThrough;
            }
            let slot = match self.find_slot(reply) {
                Some(i) => Some(i),
                None => self.find_slot(0),
            };
            match slot {
                Some(i) => {
                    let len = if n - HEADER <= CHUNK_BYTES { n - HEADER } else { CHUNK_BYTES };
                    let mut b: Vec<u8> = Vec::new();
                    let mut j: usize = 0;
                    while j < CHUNK_BYTES
                        invariant
                            j <= CHUNK_BYTES,
                            len <= CHUNK_BYTES,
                            HEADER + len <= msg@.len(),
                            len == (if n - HEADER <= CHUNK_BYTES { n - HEADER } else { CHUNK_BYTES as int }),
                            b@ == Seq::new(j as nat, |k: int| if k < len { msg@[HEADER + k] } else { 0u8 }),
                        decreases CHUNK_BYTES - j,
                    {
                        let v = if j < len { msg[HEADER + j] } else { 0 };
                        b.push(v);
                        j = j + 1;
                        assert(b@ =~= Seq::new(j as nat, |k: int| if k < len { msg@[HEADER + k] } else { 0u8 }));
                    }
                    assert(b@ =~= chunk_of(msg@, n as int));
                    self.replies.set(i, reply);
                    self.ready.set(i, true);
                    self.miss.set(i, 0);
                    self.bufs.set(i, b);
                    assert(self@ =~= s.update(
                        i as int,
                        StreamView { reply: le16(msg@, 2) as u64, ready: true, miss: 0, buf: chunk_of(msg@, n as int) },
                    ));
                    Request::Buffered(i)
                },
                None => Request::Dropped,
            }
        } else if op == OP_TONE {
            Request::Control { cmd: 1, arg, ack: reply }
        } else if op == OP_STOP {
            Request::Control { cmd: 0, arg: 0, ack: reply }
        } else if op == OP_SETCH {
            Request::Control { cmd: 2, arg, ack: reply }
        } else {
            Request::Ignore
        }
    }

    /// Slots with a chunk this round.
    pub fn ready_count(&self) -> (n: usize)
        requires
            self.well_formed(),
        ensures
            n == count_ready(self@),
            n <= MAX_STREAMS,
    {
        let ghost s = self@;
        let mut n: usize = 0;
        let mut i: usize = 0;
        while i < self.ready.len()
            invariant
                s == self@,
                self.well_formed(),
                i <= MAX_STREAMS,
                n == count_ready(s.take(i as int)),
                n <= i,
            decreases MAX_STREAMS - i,
        {
            assert(s.take(i + 1).drop_last() =~= s.take(i as int));
            assert(s[i as int].ready == self.ready@[i as int]);
            if self.ready[i] {
                n = n + 1;
            }
            i = i + 1;
        }
        assert(s.take(MAX_STREAMS as int) =~= s);
        n
    }

    /// The first slot with a chunk.
    fn first_ready_slot(&self) -> (i: usize)
        requires
            self.well_formed(),
            first_ready(self@) >= 0,
        ensures
            i == first_ready(self@),
    {
        let ghost s = self@;
        proof {
            lemma_first_ready(s);
        }
        let mut i: usize = 0;
        while i < MAX_STREAMS
            invariant
                s == self@,
                self.well_formed(),
                i <= MAX_STREAMS,
                0 <= first_ready(s) < s.len(),
                s[first_ready(s)].ready,
                forall|j: int| 0 <= j < s.len() && j < first_ready(s) ==> !s[j].ready,
                i <= first_ready(s),
            decreases MAX_STREAMS - i,
        {
            assert(s[i as int].ready == self.ready@[i as int]);
            if self.ready[i] {
                return i;
            }
            i = i + 1;
        }
        i
    }

    /// The chunk to write this round: none without chunks, a lone chunk as
    /// it is, or the ready streams summed sample by sample and clipped.
    pub fn mix(&self) -> (out: Option<Vec<u8>>)
        requires
            self.well_formed(),
        ensures
            match out {
                Some(v) => mix_of(self@) == Some(v@),
                None => mix_of(self@) is None,
            },
    {
        let ghost s = self@;
        let c = self.ready_count();
        if c == 0 {
            return None;
        }
        if c == 1 {
            proof {
                lemma_first_ready(s);
                if first_ready(s) < 0 {
                    lemma_no_ready(s);
                }
            }
            let i = self.first_ready_slot();
            let mut v: Vec<u8> = Vec::new();
            push_all(&mut v, self.bufs[i].as_slice());
            assert(v@ =~= s[i as int].buf);
            return Some(v);
        }
        let mut acc: Vec<i32> = Vec::new();
        let mut j: usize = 0;
        while j < SAMPLES
            invariant
                j <= SAMPLES,
                acc@.len() == j,
                forall|q: int| 0 <= q < j ==> acc@[q] == 0,
            decreases SAMPLES - j,
        {
            acc.push(0);
            j = j + 1;
        }
        let mut k: usize = 0;
        while k < MAX_STREAMS
            invariant
                s == self@,
                self.well_formed(),
                k <= MAX_STREAMS,
                acc@.len() == SAMPLES,
                forall|q: int| 0 <= q < SAMPLES ==> #[trigger] acc@[q] == mix_sum(s.take(k as int), q),
            decreases MAX_STREAMS - k,
        {
            let ghost before = acc@;
            assert(s.take(k + 1).drop_last() =~= s.take(k as int));
            assert(s.take(k + 1).last() == s[k as int]);
            if self.ready[k] {
                let b = self.bufs[k].as_slice();
                assert(b@ == s[k as int].buf);
                let mut q: usize = 0;
                while q < SAMPLES
                    invariant
                        s == self@,
                        self.well_formed(),
                        k < MAX_STREAMS,
                        b@ == s[k as int].buf,
                        b@.len() == CHUNK_BYTES,
                        s[k as int].ready,
                        q <= SAMPLES,
                        acc@.len() == SAMPLES,
                        before.len() == SAMPLES,
                        forall|p: int| 0 <= p < SAMPLES ==> #[trigger] before[p] == mix_sum(s.take(k as int), p),
                        forall|p: int| 0 <= p < q ==> #[trigger] acc@[p] == before[p] + le_i16(b@, 2 * p),
                        forall|p: int| q <= p < SAMPLES ==> #[trigger] acc@[p] == before[p],
                    decreases SAMPLES - q,
                {
                    proof {
                        lemma_mix_sum_bound(s.take(k as int), q as int);
                    }
                    let v = sample_i16(b, 2 * q);
                    let a = acc[q] + v as i32;
                    acc.set(q, a);
                    q = q + 1;
                }
                assert forall|p: int| 0 <= p < SAMPLES implies #[trigger] acc@[p] == mix_sum(s.take(k + 1), p) by {
                    assert(acc@[p] == before[p] + le_i16(b@, 2 * p));
                }
            } else {
                assert forall|p: int| 0 <= p < SAMPLES implies #[trigger] acc@[p] == mix_sum(s.take(k + 1), p) by {
                    assert(acc@[p] == before[p]);
                }
            }
            k = k + 1;
        }
        assert(s.take(MAX_STREAMS as int) =~= s);
        let mut out: Vec<u8> = Vec::new();
        let mut q: usize = 0;
        while q < SAMPLES
            invariant
                acc@.len() == SAMPLES,
                forall|p: int| 0 <= p < SAMPLES ==> #[trigger] acc@[p] == mix_sum(s, p),
                q <= SAMPLES,
                out@.len() == 2 * q,
                forall|j2: int| 0 <= j2 < 2 * q ==> #[trigger] out@[j2] == mixed_chunk(s)[j2],
            decreases SAMPLES - q,
        {
            let a = acc[q];
            let v: i16 = if a < -32768 { -32768 } else if a > 32767 { 32767 } else { a as i16 };
            let u: i32 = if v < 0 { v as i32 + 65536 } else { v as i32 };
            let lo = (u % 256) as u8;
            let hi = (u / 256) as u8;
            assert(v == clip16(mix_sum(s, q as int)));
            out.push(lo);
            out.push(hi);
            assert(mixed_chunk(s)[2 * q as int] == lo);
            assert(mixed_chunk(s)[2 * q + 1] == hi);
            q = q + 1;
        }
        assert(out@ =~= mixed_chunk(s));
        Some(out)
    }

    /// End a round: acknowledge every contributor (in slot order) and make it
    /// wait for its next chunk; count a miss for every silent stream, freeing
    /// its slot after too many.
    pub fn settle(&mut self) -> (acks: Vec<u64>)
        requires
            old(self).well_formed(),
        ensures
            final(self).well_formed(),
            final(self)@ == old(self)@.map_values(|t: StreamView| settled_slot(t)),
            acks@ == acks_of(old(self)@),
    {
        let ghost s = self@;
        let mut acks: Vec<u64> = Vec::new();
        let mut i: usize = 0;
        while i < MAX_STREAMS
            invariant
                self.well_formed(),
                s.len() == MAX_STREAMS,
                mixer_wf(s),
                i <= MAX_STREAMS,
                self@.len() == MAX_STREAMS,
                forall|j: int| 0 <= j < i ==> #[trigger] self@[j] == settled_slot(s[j]),
                forall|j: int| i <= j < MAX_STREAMS ==> #[trigger] self@[j] == s[j],
                acks@ == acks_of(s.take(i as int)),
            decreases MAX_STREAMS - i,
        {
            assert(s.take(i + 1).drop_last() =~= s.take(i as int));
            assert(s.take(i + 1).last() == s[i as int]);
            let ghost before = self@;
            assert(before[i as int] == s[i as int]);
            let r = self.replies[i];
            if r != 0 {
                if self.ready[i] {
                    acks.push(r);
                    self.ready.set(i, false);
                    self.miss.set(i, 0);
                } else {
                    let m = self.miss[i] + 1;
                    self.miss.set(i, m);
                    if m >= MAX_MISS {
                        self.replies.set(i, 0);
                    }
                }
            }
            assert(self@ =~= before.update(i as int, settled_slot(s[i as int])));
            i = i + 1;
        }
        assert(s.take(MAX_STREAMS as int) =~= s);
        assert(self@ =~= s.map_values(|t: StreamView| settled_slot(t)));
        acks
    }

    /// Slots that belong to a stream.
    pub fn active(&self) -> (n: usize)
        requires
            self.well_formed(),
        ensures
            n == self@.filter(|t: StreamView| t.reply != 0).len(),
    {
        let ghost s = self@;
        let mut n: usize = 0;
        let mut i: usize = 0;
        while i < self.replies.len()
            invariant
                s == self@,
                s.len() == MAX_STREAMS,
                self.replies@.len() == s.len(),
                i <= s.len(),
                n == s.take(i as int).filter(|t: StreamView| t.reply != 0).len(),
                n <= i,
            decreases s.len() - i,
        {
            assert(s.take(i + 1).drop_last() =~= s.take(i as int));
            reveal(Seq::filter);
            if self.replies[i] != 0 {
                n = n + 1;
            }
            i = i + 1;
        }
        assert(s.take(s.len() as int) =~= s);
        n
    }
}


// ── the tone player ─────────────────────────────────────────────────────────

pub const SAMPLE_RATE: u32 = 48000;
pub const AMPLITUDE: i16 = 7000;
/// Stereo frames per message: 25 ms.
pub const CHUNK_SAMPLES: usize = 1200;

/// The tone's frequency: the argument when it is a number from 20 to
/// 20000 Hz, else 440 Hz.
pub open spec fn tone_of(arg: Option<Seq<u8>>) -> u32 {
    match arg {
        Some(a) => if a.len() > 0 && all_digits(a) && 20 <= dec_value(a) <= 20000 { dec_value(a) as u32 } else { 440 },
        None => 440,
    }
}

pub fn tone_frequency(arg: Option<&[u8]>) -> (f: u32)
    ensures
        f == tone_of(match arg { Some(a) => Some(a@), None => None }),
        20 <= f <= 20000,
{
    match arg {
        Some(a) => match parse_u32(a) {
            Some(v) => if v >= 20 && v <= 20000 { v } else { 440 },
            None => 440,
        },
        None => 440,
    }
}

pub open spec fn digit_char(x: int) -> u8 {
    (0x30 + x % 10) as u8
}

/// The player's acknowledgement channel: "aplay.ack." and the last five
/// digits of its frequency, so that two players get two channels.
pub open spec fn ack_name(f: u32) -> Seq<u8> {
    seq![0x61u8, 0x70, 0x6c, 0x61, 0x79, 0x2e, 0x61, 0x63, 0x6b, 0x2e] + seq![
        digit_char(f as int / 10000),
        digit_char(f as int / 1000),
        digit_char(f as int / 100),
        digit_char(f as int / 10),
        digit_char(f as int),
    ]
}

pub fn ack_channel_name(f: u32) -> (v: Vec<u8>)
    ensures
        v@ == ack_name(f),
{
    let mut v: Vec<u8> = vec![0x61, 0x70, 0x6c, 0x61, 0x79, 0x2e, 0x61, 0x63, 0x6b, 0x2e];
    v.push(0x30 + ((f / 10000) % 10) as u8);
    v.push(0x30 + ((f / 1000) % 10) as u8);
    v.push(0x30 + ((f / 100) % 10) as u8);
    v.push(0x30 + ((f / 10) % 10) as u8);
    v.push(0x30 + (f % 10) as u8);
    assert(v@ =~= ack_name(f));
    v
}

/// A square wave: `+A` for half a period, `-A` for the other half.
#[derive(Clone, Copy, PartialEq, Eq, Structural)]
pub struct SquareWave {
    pub half_period: u32,
    pub phase: u32,
    pub level: i16,
}

pub open spec fn wave_ok(w: SquareWave) -> bool {
    &&& w.half_period >= 1
    &&& w.phase < w.half_period
    &&& w.level == AMPLITUDE || w.level == -AMPLITUDE
}

/// The wave one sample on.
pub open spec fn wave_step(w: SquareWave) -> SquareWave {
    if w.phase + 1 >= w.half_period {
        SquareWave { phase: 0, level: (-w.level) as i16, ..w }
    } else {
        SquareWave { phase: (w.phase + 1) as u32, ..w }
    }
}

pub open spec fn wave_after(w: SquareWave, n: nat) -> SquareWave
    decreases n,
{
    if n == 0 { w } else { wave_step(wave_after(w, (n - 1) as nat)) }
}

pub proof fn lemma_wave_after_ok(w: SquareWave, n: nat)
    requires
        wave_ok(w),
    ensures
        wave_ok(wave_after(w, n)),
        wave_after(w, n).half_period == w.half_period,
    decreases n,
{
    if n > 0 {
        lemma_wave_after_ok(w, (n - 1) as nat);
    }
}

impl SquareWave {
    /// A wave of `freq` Hz at 48 kHz, starting high.
    pub fn new(freq: u32) -> (w: SquareWave)
        requires
            1 <= freq <= 20000,
        ensures
            wave_ok(w),
            w == (SquareWave {
                half_period: if (SAMPLE_RATE as int) / (2 * freq) >= 1 { ((SAMPLE_RATE as int) / (2 * freq)) as u32 } else { 1 },
                phase: 0,
                level: AMPLITUDE,
            }),
    {
        let h = SAMPLE_RATE / (2 * freq);
        SquareWave { half_period: if h >= 1 { h } else { 1 }, phase: 0, level: AMPLITUDE }
    }

    /// The next message's worth of samples (each on both channels,
    /// little-endian), advancing the wave.
    pub fn fill(&mut self) -> (out: Vec<u8>)
        requires
            wave_ok(*old(self)),
        ensures
            wave_ok(*final(self)),
            *final(self) == wave_after(*old(self), CHUNK_SAMPLES as nat),
            out@.len() == 4 * CHUNK_SAMPLES,
            forall|i: int| 0 <= i < CHUNK_SAMPLES ==> {
                let v = #[trigger] wave_after(*old(self), i as nat).level;
                &&& out@[4 * i] == low_byte(v)
                &&& out@[4 * i + 1] == high_byte(v)
                &&& out@[4 * i + 2] == low_byte(v)
                &&& out@[4 * i + 3] == high_byte(v)
            },
    {
        let ghost w0 = *self;
        let mut out: Vec<u8> = Vec::new();
        let mut i: usize = 0;
        while i < CHUNK_SAMPLES
            invariant
                wave_ok(w0),
                i <= CHUNK_SAMPLES,
                *self == wave_after(w0, i as nat),
                wave_ok(*self),
                out@.len() == 4 * i,
                forall|k: int| 0 <= k < i ==> {
                    let v = #[trigger] wave_after(w0, k as nat).level;
                    &&& out@[4 * k] == low_byte(v)
                    &&& out@[4 * k + 1] == high_byte(v)
                    &&& out@[4 * k + 2] == low_byte(v)
                    &&& out@[4 * k + 3] == high_byte(v)
                },
            decreases CHUNK_SAMPLES - i,
        {
            let v = self.level;
            let u: i32 = if v < 0 { v as i32 + 65536 } else { v as i32 };
            let lo = (u % 256) as u8;
            let hi = (u / 256) as u8;
            let ghost before = out@;
            out.push(lo);
            out.push(hi);
            out.push(lo);
            out.push(hi);
            assert forall|k: int| 0 <= k < i + 1 implies {
                let v = #[trigger] wave_after(w0, k as nat).level;
                &&& out@[4 * k] == low_byte(v)
                &&& out@[4 * k + 1] == high_byte(v)
                &&& out@[4 * k + 2] == low_byte(v)
                &&& out@[4 * k + 3] == high_byte(v)
            } by {
                if k < i {
                    assert(out@[4 * k] == before[4 * k]);
                    assert(out@[4 * k + 1] == before[4 * k + 1]);
                    assert(out@[4 * k + 2] == before[4 * k + 2]);
                    assert(out@[4 * k + 3] == before[4 * k + 3]);
                }
            }
            if self.phase + 1 >= self.half_period {
                self.phase = 0;
                self.level = -self.level;
            } else {
                self.phase = self.phase + 1;
            }
            i = i + 1;
        }
        out
    }
}

/// A mixed-stream message: the PCM header naming `reply`, then `chunk`.
pub open spec fn pcm_message_of(reply: u64, chunk: Seq<u8>) -> Seq<u8> {
    seq![OP_PCM, 0u8, (reply % 256) as u8, ((reply / 256) % 256) as u8, 0u8, 0u8, 0u8, 0u8] + chunk
}

pub fn pcm_message(reply: u64, chunk: &[u8]) -> (m: Vec<u8>)
    ensures
        m@ == pcm_message_of(reply, chunk@),
{
    let mut m: Vec<u8> = vec![OP_PCM, 0, (reply % 256) as u8, ((reply / 256) % 256) as u8, 0, 0, 0, 0];
    push_all(&mut m, chunk);
    m
}

} // verus!
