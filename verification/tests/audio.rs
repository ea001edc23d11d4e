use kazuos::programs::audio::{
    ack_channel_name, block_len, parse_wav, parse_wav_header, pcm_message, stereo_block, tone_frequency, Mixer, Playback, Request, SquareWave,
    CHUNK_BYTES, CHUNK_SAMPLES, STREAM_CHUNK_FRAMES,
};

fn le16(v: u16) -> [u8; 2] {
    v.to_le_bytes()
}

fn le32(v: u32) -> [u8; 4] {
    v.to_le_bytes()
}

/// A canonical WAV file: `fmt ` (PCM) then `data`.
fn wav(channels: u16, rate: u32, bits: u16, data: &[u8]) -> Vec<u8> {
    let mut v = Vec::new();
    v.extend_from_slice(b"RIFF");
    v.extend_from_slice(&le32(36 + data.len() as u32));
    v.extend_from_slice(b"WAVE");
    v.extend_from_slice(b"fmt ");
    v.extend_from_slice(&le32(16));
    v.extend_from_slice(&le16(1));
    v.extend_from_slice(&le16(channels));
    v.extend_from_slice(&le32(rate));
    v.extend_from_slice(&le32(rate * channels as u32 * bits as u32 / 8));
    v.extend_from_slice(&le16(channels * bits / 8));
    v.extend_from_slice(&le16(bits));
    v.extend_from_slice(b"data");
    v.extend_from_slice(&le32(data.len() as u32));
    v.extend_from_slice(data);
    v
}

#[test]
fn wav_stereo16_is_read() {
    let data = [1u8, 0, 2, 0, 0xff, 0xff, 0x00, 0x80];
    let f = wav(2, 48000, 16, &data);
    let w = parse_wav(&f).expect("playable");
    assert_eq!(w.channels(), 2);
    assert_eq!(w.sample_rate(), 48000);
    assert_eq!(w.bits(), 16);
    assert_eq!(w.data(), &data[..]);
    assert_eq!(w.frames(), 2);
    let out = w.fill_stereo_i16(0, 3);
    assert_eq!(out, vec![1, 2, -1, -32768, 0, 0]);
}

#[test]
fn wav_mono8_is_widened() {
    let data = [128u8, 255, 0];
    let f = wav(1, 8000, 8, &data);
    let w = parse_wav(&f).expect("playable");
    assert_eq!(w.frames(), 3);
    let out = w.fill_stereo_i16(1, 2);
    assert_eq!(out, vec![127 * 256, 127 * 256, -128 * 256, -128 * 256]);
}

#[test]
fn wav_rejects_bad_files() {
    let data = [0u8; 4];
    let mut f = wav(2, 48000, 16, &data);
    f[0] = b'X';
    assert!(parse_wav(&f).is_none());
    let f = wav(3, 48000, 16, &data);
    assert!(parse_wav(&f).is_none());
    let f = wav(2, 48000, 24, &data);
    assert!(parse_wav(&f).is_none());
    let f = wav(2, 48000, 16, &[]);
    assert!(parse_wav(&f).is_none());
    // a data chunk that claims more than the file holds
    let mut f = wav(2, 48000, 16, &data);
    let n = f.len();
    f[n - 8..n - 4].copy_from_slice(&le32(1000));
    assert!(parse_wav(&f).is_none());
    assert!(parse_wav(b"RIFF").is_none());
}

#[test]
fn wav_header_allows_data_past_the_buffer() {
    let data = [0u8; 16];
    let mut f = wav(2, 44100, 16, &data);
    let n = f.len();
    f[n - 20..n - 16].copy_from_slice(&le32(100000));
    f.truncate(n - 8);
    let h = parse_wav_header(&f).expect("header");
    assert_eq!(h.channels, 2);
    assert_eq!(h.sample_rate, 44100);
    assert_eq!(h.bits, 16);
    assert_eq!(h.data_start, 44);
    assert_eq!(h.data_len, 100000);
    assert!(parse_wav(&f).is_none());
}

#[test]
fn playback_tiles_the_file() {
    let total = 2 * STREAM_CHUNK_FRAMES + 5;
    let mut p = Playback::new(total, 48000);
    assert_eq!(p.max_idle_ms, (total as u64 * 1000) / 48000 + 2000);
    let a = p.initial_chunk().unwrap();
    assert_eq!((a.start, a.frames, a.desc, a.last), (0, STREAM_CHUNK_FRAMES, 0, false));
    let b = p.initial_chunk().unwrap();
    assert_eq!((b.start, b.frames, b.desc, b.last), (STREAM_CHUNK_FRAMES, STREAM_CHUNK_FRAMES, 1, false));
    let c = p.initial_chunk().unwrap();
    assert_eq!((c.start, c.frames, c.desc, c.last), (2 * STREAM_CHUNK_FRAMES, 5, 2, true));
    assert!(p.initial_chunk().is_none());
    assert_eq!(p.lvi(), 2);
    p.started(35);
    assert_eq!(p.last_civ, 3);
    assert_eq!(p.observe(35), 0);
    assert_eq!(p.idle_ms, 1);
    assert_eq!(p.observe(1), 30);
    assert_eq!(p.idle_ms, 0);
    assert!(p.descriptor_done(STREAM_CHUNK_FRAMES).is_none());
    assert_eq!(p.played, STREAM_CHUNK_FRAMES);
    assert_eq!(p.last_civ, 4);
    p.descriptor_done(usize::MAX / 2);
    assert_eq!(p.played, total);
    assert!(!p.running());
}

fn pcm(reply: u16, payload: &[u8]) -> Vec<u8> {
    let mut m = vec![3u8, 0];
    m.extend_from_slice(&reply.to_le_bytes());
    m.extend_from_slice(&[0, 0, 0, 0]);
    m.extend_from_slice(payload);
    m
}

#[test]
fn mixer_passes_a_lone_chunk_through() {
    let mut m = Mixer::new();
    let msg = pcm(7, &[1, 2, 3]);
    assert!(matches!(m.ingest(&msg, msg.len()), Request::Buffered(0)));
    assert_eq!(m.ready_count(), 1);
    let out = m.mix().unwrap();
    assert_eq!(out.len(), CHUNK_BYTES);
    assert_eq!(&out[..4], &[1, 2, 3, 0]);
    let acks = m.settle();
    assert_eq!(acks, vec![7]);
    assert_eq!(m.ready_count(), 0);
    assert!(m.mix().is_none());
}

#[test]
fn mixer_sums_and_clips() {
    let mut m = Mixer::new();
    let a = pcm(1, &[0xff, 0x7f, 0x10, 0x00]);
    let b = pcm(2, &[0x01, 0x00, 0x20, 0x00]);
    m.ingest(&a, a.len());
    m.ingest(&b, b.len());
    let out = m.mix().unwrap();
    // 32767 + 1 clips to 32767; 16 + 32 = 48
    assert_eq!(&out[..4], &[0xff, 0x7f, 48, 0]);
    assert_eq!(m.settle(), vec![1, 2]);
}

#[test]
fn mixer_frees_silent_streams_and_answers_controls() {
    let mut m = Mixer::new();
    let a = pcm(9, &[5, 0]);
    m.ingest(&a, a.len());
    m.settle();
    for _ in 0..3 {
        assert!(m.settle().is_empty());
        assert_eq!(m.active(), 1);
    }
    m.settle();
    assert_eq!(m.active(), 0);
    let tone = [1u8, 0, 4, 0, 0xb8, 0x01, 0, 0];
    match m.ingest(&tone, 8) {
        Request::Control { cmd, arg, ack } => assert_eq!((cmd, arg, ack), (1, 440, 4)),
        _ => panic!("tone"),
    }
    assert!(matches!(m.ingest(&tone, 7), Request::Ignore));
    let raw = pcm(0, &[1, 2]);
    assert!(matches!(m.ingest(&raw, raw.len()), Request::WriteThrough));
}

#[test]
fn mixer_drops_when_full() {
    let mut m = Mixer::new();
    for r in 1..=8u16 {
        let msg = pcm(r, &[0, 0]);
        assert!(matches!(m.ingest(&msg, msg.len()), Request::Buffered(_)));
    }
    let msg = pcm(9, &[0, 0]);
    assert!(matches!(m.ingest(&msg, msg.len()), Request::Dropped));
}

#[test]
fn tone_player_parts() {
    assert_eq!(tone_frequency(None), 440);
    assert_eq!(tone_frequency(Some(b"660")), 660);
    assert_eq!(tone_frequency(Some(b"19")), 440);
    assert_eq!(tone_frequency(Some(b"abc")), 440);
    assert_eq!(ack_channel_name(660), b"aplay.ack.00660".to_vec());
    let mut w = SquareWave::new(12000);
    assert_eq!(w.half_period, 2);
    let out = w.fill();
    assert_eq!(out.len(), 4 * CHUNK_SAMPLES);
    let amp = 7000i16.to_le_bytes();
    let neg = (-7000i16).to_le_bytes();
    assert_eq!(&out[..16], &[amp[0], amp[1], amp[0], amp[1], amp[0], amp[1], amp[0], amp[1],
        neg[0], neg[1], neg[0], neg[1], neg[0], neg[1], neg[0], neg[1]]);
    let m = pcm_message(0x1234, &[9]);
    assert_eq!(m, vec![3, 0, 0x34, 0x12, 0, 0, 0, 0, 9]);
}

#[test]
fn stereo_block_converts_each_format() {
    // mono 16-bit: each sample doubled, a trailing odd byte dropped
    assert_eq!(stereo_block(&[0x34, 0x12, 0xff, 0x7f, 0x09], 1, 16), vec![0x34, 0x12, 0x34, 0x12, 0xff, 0x7f, 0xff, 0x7f]);
    // mono 8-bit: (b - 128) << 8, doubled
    assert_eq!(stereo_block(&[0x80, 0x00, 0xff], 1, 8), vec![0, 0, 0, 0, 0, 0x80, 0, 0x80, 0, 0x7f, 0, 0x7f]);
    // stereo 8-bit: left then right, an odd byte dropped
    assert_eq!(stereo_block(&[0x81, 0x7f, 0x10], 2, 8), vec![0, 0x01, 0, 0xff]);
    // stereo 16-bit passes through
    assert_eq!(stereo_block(&[1, 2, 3, 4, 5], 2, 16), vec![1, 2, 3, 4, 5]);
}

#[test]
fn block_len_caps_at_1024_frames() {
    assert_eq!(block_len(10, 4), 10);
    assert_eq!(block_len(100_000, 4), 4096);
    assert_eq!(block_len(100_000, 1), 1024);
}
