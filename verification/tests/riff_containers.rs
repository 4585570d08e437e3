use image_preparer::config::StripMode;
use image_preparer::error::ProcessingError;
use image_preparer::wav::{
    chunk_description, is_essential_chunk, is_safe_chunk, parse_riff_chunks, strip_wav_metadata,
};
use image_preparer::webp::{get_webp_chunk_info, strip_webp_metadata};

fn chunk(id: &[u8; 4], payload: &[u8]) -> Vec<u8> {
    let mut out = Vec::new();
    out.extend_from_slice(id);
    out.extend_from_slice(&(payload.len() as u32).to_le_bytes());
    out.extend_from_slice(payload);
    if payload.len() % 2 == 1 {
        out.push(0);
    }
    out
}

fn wav_file(chunks: &[Vec<u8>]) -> Vec<u8> {
    let mut body = Vec::new();
    for c in chunks {
        body.extend_from_slice(c);
    }
    let mut out = Vec::new();
    out.extend_from_slice(b"RIFF");
    out.extend_from_slice(&((body.len() + 4) as u32).to_le_bytes());
    out.extend_from_slice(b"WAVE");
    out.extend_from_slice(&body);
    out
}

fn webp_file(chunks: &[Vec<u8>]) -> Vec<u8> {
    let mut body = Vec::new();
    for c in chunks {
        body.extend_from_slice(c);
    }
    let mut out = Vec::new();
    out.extend_from_slice(b"RIFF");
    out.extend_from_slice(&((body.len() + 4) as u32).to_le_bytes());
    out.extend_from_slice(b"WEBP");
    out.extend_from_slice(&body);
    out
}

fn riff_size_field(data: &[u8]) -> u32 {
    u32::from_le_bytes([data[4], data[5], data[6], data[7]])
}

#[test]
fn wav_strip_all_keeps_fmt_and_data_and_patches_size() {
    // fmt (16 bytes), LIST (20 bytes), data (1000 bytes)
    let fmt = chunk(b"fmt ", &[0x10; 16]);
    let list = chunk(b"LIST", &[0x22; 20]);
    let data = chunk(b"data", &vec![0x7u8; 1000]);
    let input = wav_file(&[fmt.clone(), list, data.clone()]);
    let out = strip_wav_metadata(&input, StripMode::All).unwrap();

    let mut expected_body = Vec::new();
    expected_body.extend_from_slice(&fmt);
    expected_body.extend_from_slice(&data);
    assert_eq!(&out[12..], &expected_body[..]);
    // The patched RIFF size covers "WAVE" plus both retained chunks:
    // 4 + (8 + 16) + (8 + 1000).
    assert_eq!(riff_size_field(&out), 1036);
    assert_eq!(riff_size_field(&out) as usize, out.len() - 8);
}

#[test]
fn wav_strip_safe_keeps_list() {
    let fmt = chunk(b"fmt ", &[0x10; 16]);
    let list = chunk(b"LIST", &[0x22; 20]);
    let bext = chunk(b"bext", &[0x33; 12]);
    let input = wav_file(&[fmt.clone(), list.clone(), bext]);
    let out = strip_wav_metadata(&input, StripMode::Safe).unwrap();
    let mut expected_body = Vec::new();
    expected_body.extend_from_slice(&fmt);
    expected_body.extend_from_slice(&list);
    assert_eq!(&out[12..], &expected_body[..]);
}

#[test]
fn wav_strip_none_returns_input() {
    let input = wav_file(&[chunk(b"fmt ", &[0; 16]), chunk(b"JUNK", &[1; 5])]);
    let out = strip_wav_metadata(&input, StripMode::Off).unwrap();
    assert_eq!(out, input);
}

#[test]
fn wav_strip_twice_yields_same_bytes() {
    let input = wav_file(&[
        chunk(b"fmt ", &[0; 16]),
        chunk(b"bext", &[9; 33]),
        chunk(b"data", &[1; 7]),
        chunk(b"LIST", &[2; 10]),
    ]);
    for mode in [StripMode::All, StripMode::Safe] {
        let once = strip_wav_metadata(&input, mode).unwrap();
        let twice = strip_wav_metadata(&once, mode).unwrap();
        assert_eq!(once, twice);
    }
}

#[test]
fn wav_strip_rejects_bad_signature() {
    let err = strip_wav_metadata(b"RIFFxxxxMARS then some bytes", StripMode::All).unwrap_err();
    assert!(matches!(err, ProcessingError::Decode(_)));
    let err = strip_wav_metadata(&[1, 2, 3], StripMode::All).unwrap_err();
    assert!(matches!(err, ProcessingError::Decode(_)));
}

#[test]
fn wav_walker_clamps_truncated_final_chunk() {
    let fmt = chunk(b"fmt ", &[0x10; 16]);
    let mut input = wav_file(&[fmt]);
    // Declare a data chunk of 100 bytes but provide only 3.
    input.extend_from_slice(b"data");
    input.extend_from_slice(&100u32.to_le_bytes());
    input.extend_from_slice(&[7, 8, 9]);
    let out = strip_wav_metadata(&input, StripMode::All).unwrap();
    // The clamped chunk is re-emitted with its real length.
    let tail = &out[12 + 8 + 16..];
    assert_eq!(&tail[0..4], b"data");
    assert_eq!(u32::from_le_bytes([tail[4], tail[5], tail[6], tail[7]]), 3);
    assert_eq!(&tail[8..11], &[7, 8, 9]);
    assert_eq!(tail.len(), 12); // one padding byte after the odd payload
}

#[test]
fn wav_parse_riff_chunks_reads_ids_and_payloads() {
    let input = wav_file(&[chunk(b"fmt ", &[0; 16]), chunk(b"cue ", &[5; 3])]);
    let chunks = parse_riff_chunks(&input[12..]).unwrap();
    assert_eq!(chunks.len(), 2);
    assert_eq!(&chunks[0].id, b"fmt ");
    assert_eq!(chunks[0].data.len(), 16);
    assert_eq!(&chunks[1].id, b"cue ");
    assert_eq!(chunks[1].data, vec![5, 5, 5]);
}

#[test]
fn wav_chunk_classification() {
    assert!(is_essential_chunk(b"fmt "));
    assert!(is_essential_chunk(b"data"));
    assert!(is_essential_chunk(b"fact"));
    assert!(!is_essential_chunk(b"LIST"));
    assert!(is_safe_chunk(b"LIST"));
    assert!(is_safe_chunk(b"cue "));
    assert!(is_safe_chunk(b"smpl"));
    assert!(is_safe_chunk(b"inst"));
    assert!(!is_safe_chunk(b"bext"));
    assert_eq!(chunk_description(b"fmt "), "Format");
    assert_eq!(chunk_description(b"data"), "Audio Data");
    assert_eq!(chunk_description(b"zzzz"), "Unknown");
}

#[test]
fn webp_strip_all_keeps_only_image_data() {
    let vp8x = chunk(b"VP8X", &[0; 10]);
    let iccp = chunk(b"ICCP", &[1; 9]);
    let vp8 = chunk(b"VP8 ", &[2; 20]);
    let exif = chunk(b"EXIF", &[3; 6]);
    let input = webp_file(&[vp8x.clone(), iccp, vp8.clone(), exif]);

    let out_all = strip_webp_metadata(&input, StripMode::All).unwrap();
    assert_eq!(&out_all[12..], &vp8[..]);
    assert_eq!(riff_size_field(&out_all) as usize, out_all.len() - 8);

    let out_safe = strip_webp_metadata(&input, StripMode::Safe).unwrap();
    let mut expected = Vec::new();
    expected.extend_from_slice(&vp8x);
    expected.extend_from_slice(&vp8);
    assert_eq!(&out_safe[12..], &expected[..]);
    assert_eq!(riff_size_field(&out_safe) as usize, out_safe.len() - 8);
}

#[test]
fn webp_strip_none_returns_input() {
    let input = webp_file(&[chunk(b"VP8 ", &[2; 20]), chunk(b"XMP ", &[9; 3])]);
    let out = strip_webp_metadata(&input, StripMode::Off).unwrap();
    assert_eq!(out, input);
}

#[test]
fn webp_strip_regenerates_padding() {
    // An odd-sized chunk written *without* its padding byte at the end of
    // the file still round-trips: the reconstruction regenerates the pad.
    let mut input = Vec::new();
    input.extend_from_slice(b"RIFF");
    input.extend_from_slice(&(4u32 + 8 + 3).to_le_bytes());
    input.extend_from_slice(b"WEBP");
    input.extend_from_slice(b"VP8 ");
    input.extend_from_slice(&3u32.to_le_bytes());
    input.extend_from_slice(&[1, 2, 3]);
    let out = strip_webp_metadata(&input, StripMode::All).unwrap();
    assert_eq!(&out[12..16], b"VP8 ");
    assert_eq!(out.len(), 12 + 8 + 3 + 1);
    assert_eq!(out[out.len() - 1], 0);
}

#[test]
fn webp_strip_twice_yields_same_bytes() {
    let input = webp_file(&[
        chunk(b"VP8X", &[0; 10]),
        chunk(b"ALPH", &[4; 5]),
        chunk(b"VP8 ", &[2; 21]),
        chunk(b"EXIF", &[3; 6]),
    ]);
    for mode in [StripMode::All, StripMode::Safe] {
        let once = strip_webp_metadata(&input, mode).unwrap();
        let twice = strip_webp_metadata(&once, mode).unwrap();
        assert_eq!(once, twice);
    }
}

#[test]
fn webp_strip_rejects_bad_signature_and_truncation() {
    let err = strip_webp_metadata(b"RIFF\x00\x00\x00\x00WAVE", StripMode::All).unwrap_err();
    assert!(matches!(err, ProcessingError::Decode(_)));

    let mut input = Vec::new();
    input.extend_from_slice(b"RIFF");
    input.extend_from_slice(&100u32.to_le_bytes());
    input.extend_from_slice(b"WEBP");
    input.extend_from_slice(b"VP8 ");
    input.extend_from_slice(&100u32.to_le_bytes()); // overruns the buffer
    input.extend_from_slice(&[1, 2, 3]);
    let err = strip_webp_metadata(&input, StripMode::All).unwrap_err();
    assert!(matches!(err, ProcessingError::Decode(_)));
}

#[test]
fn webp_chunk_info_table() {
    assert_eq!(get_webp_chunk_info("VP8 "), "Lossy VP8 bitstream");
    assert_eq!(get_webp_chunk_info("VP8L"), "Lossless VP8L bitstream");
    assert_eq!(get_webp_chunk_info("EXIF"), "EXIF metadata");
    assert_eq!(get_webp_chunk_info("what"), "Unknown chunk");
}
