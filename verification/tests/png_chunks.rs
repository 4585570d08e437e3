use image_preparer::config::StripMode;
use image_preparer::error::ProcessingError;
use image_preparer::png::{get_chunk_info, parse_png_chunks, strip_png_metadata};

const SIG: [u8; 8] = [0x89, 0x50, 0x4E, 0x47, 0x0D, 0x0A, 0x1A, 0x0A];

fn png_chunk(id: &[u8; 4], payload: &[u8], crc: [u8; 4]) -> Vec<u8> {
    let mut out = Vec::new();
    out.extend_from_slice(&(payload.len() as u32).to_be_bytes());
    out.extend_from_slice(id);
    out.extend_from_slice(payload);
    out.extend_from_slice(&crc);
    out
}

fn png_file(chunks: &[Vec<u8>]) -> Vec<u8> {
    let mut out = SIG.to_vec();
    for c in chunks {
        out.extend_from_slice(c);
    }
    out
}

#[test]
fn png_strip_drops_text_chunks_under_all_and_safe() {
    let ihdr = png_chunk(b"IHDR", &[0; 13], [1, 2, 3, 4]);
    let text = png_chunk(b"tEXt", b"Comment\0hello there", [5, 6, 7, 8]);
    let idat = png_chunk(b"IDAT", &[9; 30], [9, 9, 9, 9]);
    let iend = png_chunk(b"IEND", &[], [0xAE, 0x42, 0x60, 0x82]);
    let input = png_file(&[ihdr.clone(), text, idat.clone(), iend.clone()]);

    let expected = png_file(&[ihdr, idat, iend]);
    let out_all = strip_png_metadata(&input, StripMode::All).unwrap();
    let out_safe = strip_png_metadata(&input, StripMode::Safe).unwrap();
    assert_eq!(out_all, expected);
    assert_eq!(out_safe, expected);
}

#[test]
fn png_strip_keeps_safe_ancillary_chunks() {
    let ihdr = png_chunk(b"IHDR", &[0; 13], [1, 2, 3, 4]);
    let gama = png_chunk(b"gAMA", &[0, 1, 0xF3, 0x58], [2, 2, 2, 2]);
    let time = png_chunk(b"tIME", &[7, 0xE8, 1, 1, 0, 0, 0], [3, 3, 3, 3]);
    let idat = png_chunk(b"IDAT", &[9; 8], [4, 4, 4, 4]);
    let iend = png_chunk(b"IEND", &[], [5, 5, 5, 5]);
    let input = png_file(&[ihdr.clone(), gama.clone(), time, idat.clone(), iend.clone()]);
    let out = strip_png_metadata(&input, StripMode::All).unwrap();
    assert_eq!(out, png_file(&[ihdr, gama, idat, iend]));
}

#[test]
fn png_strip_none_returns_input() {
    let input = png_file(&[
        png_chunk(b"IHDR", &[0; 13], [1, 2, 3, 4]),
        png_chunk(b"tEXt", b"k\0v", [0; 4]),
    ]);
    let out = strip_png_metadata(&input, StripMode::Off).unwrap();
    assert_eq!(out, input);
}

#[test]
fn png_strip_twice_yields_same_bytes() {
    let input = png_file(&[
        png_chunk(b"IHDR", &[0; 13], [1, 2, 3, 4]),
        png_chunk(b"eXIf", &[6; 11], [0; 4]),
        png_chunk(b"IDAT", &[9; 5], [4, 4, 4, 4]),
        png_chunk(b"IEND", &[], [5, 5, 5, 5]),
    ]);
    for mode in [StripMode::All, StripMode::Safe] {
        let once = strip_png_metadata(&input, mode).unwrap();
        let twice = strip_png_metadata(&once, mode).unwrap();
        assert_eq!(once, twice);
    }
}

#[test]
fn png_strip_rejects_bad_signature_and_truncation() {
    let err = strip_png_metadata(b"not a png at all", StripMode::All).unwrap_err();
    assert!(matches!(err, ProcessingError::Decode(_)));

    let mut input = SIG.to_vec();
    input.extend_from_slice(&100u32.to_be_bytes());
    input.extend_from_slice(b"IDAT");
    input.extend_from_slice(&[1, 2, 3]); // far short of 100 + CRC
    let err = strip_png_metadata(&input, StripMode::All).unwrap_err();
    assert!(matches!(err, ProcessingError::Decode(_)));
}

#[test]
fn png_parse_chunks_reads_fields() {
    let input = png_file(&[
        png_chunk(b"IHDR", &[0; 13], [1, 2, 3, 4]),
        png_chunk(b"IDAT", &[9; 5], [4, 3, 2, 1]),
    ]);
    let chunks = parse_png_chunks(&input[8..]).unwrap();
    assert_eq!(chunks.len(), 2);
    assert_eq!(&chunks[0].id, b"IHDR");
    assert_eq!(chunks[0].data.len(), 13);
    assert_eq!(chunks[0].crc, [1, 2, 3, 4]);
    assert_eq!(&chunks[1].id, b"IDAT");
    assert_eq!(chunks[1].crc, [4, 3, 2, 1]);
}

#[test]
fn png_chunk_info_table() {
    assert_eq!(get_chunk_info("IHDR"), "Image Header");
    assert_eq!(get_chunk_info("tEXt"), "Textual Data");
    assert_eq!(get_chunk_info("eXIf"), "EXIF Data");
    assert_eq!(get_chunk_info("abcd"), "Unknown/Custom Chunk");
}
