use id3::TagLike;
use image_preparer::config::StripMode;
use image_preparer::error::ProcessingError;
use image_preparer::id3v2::{get_safe_frame_ids, strip_unsafe_tags};
use image_preparer::mp3::{
    decode_synchsafe, detect_id3v2_size, encode_synchsafe, has_id3v1, id3v1_fields,
    strip_all_tags, strip_mp3_metadata,
};

fn id3v2_header(size: u32) -> Vec<u8> {
    let mut data = vec![b'I', b'D', b'3', 0x03, 0x00, 0x00];
    data.extend_from_slice(&encode_synchsafe(size));
    data
}

fn id3v1_trailer() -> Vec<u8> {
    let mut tag = vec![0u8; 128];
    tag[0] = b'T';
    tag[1] = b'A';
    tag[2] = b'G';
    tag
}

#[test]
fn test_detect_id3v2_size_no_tag() {
    let data = vec![0xFF, 0xFB, 0x90, 0x00]; // MPEG frame header
    assert_eq!(detect_id3v2_size(&data), 0);
}

#[test]
fn test_detect_id3v2_size_with_tag() {
    // ID3v2.3 header with synchsafe size = 100
    // Synchsafe 100 = 0x64 = 0b0000000_0000000_0000001_1100100
    let mut data = vec![
        b'I', b'D', b'3', // Signature
        0x03, 0x00, // Version 2.3
        0x00, // Flags
        0x00, 0x00, 0x00, 0x64, // Size (synchsafe 100)
    ];
    data.extend(vec![0; 100]); // Tag data
    assert_eq!(detect_id3v2_size(&data), 110); // 10 + 100
}

#[test]
fn test_has_id3v1_no_tag() {
    let data = vec![0xFF; 200];
    assert!(!has_id3v1(&data));
}

#[test]
fn test_has_id3v1_with_tag() {
    let mut data = vec![0xFF; 200];
    let tag_start = data.len() - 128;
    data[tag_start] = b'T';
    data[tag_start + 1] = b'A';
    data[tag_start + 2] = b'G';
    assert!(has_id3v1(&data));
}

#[test]
fn test_get_safe_frame_ids() {
    let safe = get_safe_frame_ids();
    assert!(safe.iter().any(|s| *s == "TIT2"));
    assert!(safe.iter().any(|s| *s == "TPE1"));
    assert!(safe.iter().any(|s| *s == "TALB"));
    assert!(!safe.iter().any(|s| *s == "APIC"));
    assert!(!safe.iter().any(|s| *s == "COMM"));
}

#[test]
fn test_detect_id3v2_size_masks_high_bits() {
    // Only the low 7 bits of each size byte are significant: a size byte
    // with its high bit set contributes its low bits alone.
    let data = vec![
        b'I', b'D', b'3', // Signature
        0x03, 0x00, // Version 2.3
        0x00, // Flags
        0x80, 0x00, 0x00, 0x0A, // Size bytes; 0x80 masks to 0
    ];
    assert_eq!(detect_id3v2_size(&data), 20); // 10 + 10
}

#[test]
fn id3v1_fields_are_extracted_and_trimmed() {
    let mut data = vec![0xFF, 0xFB, 0x90, 0x00];
    let mut tag = vec![0u8; 128];
    tag[0] = b'T';
    tag[1] = b'A';
    tag[2] = b'G';
    tag[3..3 + 8].copy_from_slice(b" Title \0");
    tag[33..33 + 6].copy_from_slice(b"Artist");
    tag[93..97].copy_from_slice(b"1999");
    tag[127] = 17;
    data.extend_from_slice(&tag);
    let (title, artist, album, year, _comment, genre) = id3v1_fields(&data).unwrap();
    assert_eq!(title, b"Title");
    assert_eq!(artist, b"Artist");
    assert_eq!(album, b"");
    assert_eq!(year, b"1999");
    assert_eq!(genre, 17);
    assert!(id3v1_fields(&data[..4]).is_none());
}

#[test]
fn synchsafe_round_trip_values() {
    for &v in &[0u32, 1, 100, 0x7f, 0x80, 0x3FFF, 0x1F_FFFF, 0x0FFF_FFFF] {
        let bytes = encode_synchsafe(v);
        assert!(bytes.iter().all(|&b| b < 0x80));
        assert_eq!(decode_synchsafe(&bytes), v);
    }
}

#[test]
fn strip_all_returns_exact_audio_after_tag() {
    // 10-byte ID3v2 header (synchsafe size = 100) + 100 bytes tag, no v1 tag,
    // followed by trailing audio bytes.
    let mut data = id3v2_header(100);
    data.extend(vec![0; 100]);
    let audio: Vec<u8> = (0..40).map(|i| 0xA0 | (i as u8 & 0x0F)).collect();
    data.extend_from_slice(&audio);
    assert_eq!(data.len(), 110 + audio.len());
    let out = strip_all_tags(&data).unwrap();
    assert_eq!(out, audio);
}

#[test]
fn strip_all_removes_both_tags() {
    let mut data = id3v2_header(4);
    data.extend_from_slice(&[1, 2, 3, 4]);
    let audio = vec![0xFF, 0xFB, 0x90, 0x00, 0x55, 0x66];
    data.extend_from_slice(&audio);
    data.extend_from_slice(&id3v1_trailer());
    let out = strip_all_tags(&data).unwrap();
    assert_eq!(out, audio);
}

#[test]
fn strip_all_errors_when_no_audio() {
    // A file that is nothing but an ID3v2 header claiming to cover it all.
    let mut data = id3v2_header(100);
    data.extend(vec![0; 50]); // shorter than the declared tag
    let err = strip_all_tags(&data).unwrap_err();
    assert!(matches!(err, ProcessingError::Decode(_)));
}

#[test]
fn strip_all_twice_is_idempotent() {
    let mut data = id3v2_header(8);
    data.extend(vec![0; 8]);
    let audio = vec![0xFF, 0xFB, 1, 2, 3, 4, 5, 6, 7, 8];
    data.extend_from_slice(&audio);
    data.extend_from_slice(&id3v1_trailer());
    let once = strip_all_tags(&data).unwrap();
    let twice = strip_all_tags(&once).unwrap();
    assert_eq!(once, twice);
}

#[test]
fn strip_mp3_mode_none_returns_input() {
    let mut data = id3v2_header(4);
    data.extend_from_slice(&[9, 9, 9, 9, 0xFF, 0xFB]);
    let out = strip_mp3_metadata(&data, StripMode::Off).unwrap();
    assert_eq!(out, data);
}

#[test]
fn safe_strip_keeps_safe_frames_and_drops_unsafe() {
    let mut tag = id3::Tag::new();
    tag.set_title("A Title");
    tag.set_artist("An Artist");
    tag.add_frame(id3::Frame::with_content(
        "COMM",
        id3::Content::Comment(id3::frame::Comment {
            lang: "eng".to_string(),
            description: "".to_string(),
            text: "private note".to_string(),
        }),
    ));
    let mut data = Vec::new();
    tag.write_to(&mut data, id3::Version::Id3v24).unwrap();
    let audio = vec![0xFF, 0xFB, 0x90, 0x00, 1, 2, 3, 4];
    data.extend_from_slice(&audio);

    let out = strip_unsafe_tags(&data).unwrap();
    assert!(out.ends_with(&audio));
    let new_tag = id3::Tag::read_from2(std::io::Cursor::new(&out[..])).unwrap();
    let ids: Vec<&str> = new_tag.frames().map(|f| f.id()).collect();
    assert!(ids.contains(&"TIT2"));
    assert!(ids.contains(&"TPE1"));
    assert!(!ids.contains(&"COMM"));
    assert_eq!(new_tag.title(), Some("A Title"));
    assert_eq!(new_tag.artist(), Some("An Artist"));
}

#[test]
fn safe_strip_no_op_returns_input_unchanged() {
    let mut tag = id3::Tag::new();
    tag.set_title("Only Safe");
    let mut data = Vec::new();
    tag.write_to(&mut data, id3::Version::Id3v24).unwrap();
    data.extend_from_slice(&[0xFF, 0xFB, 0x90, 0x00]);
    let out = strip_unsafe_tags(&data).unwrap();
    assert_eq!(out, data);
}

#[test]
fn safe_strip_without_v2_drops_only_v1() {
    let mut data = vec![0xFF, 0xFB, 0x90, 0x00, 5, 6, 7, 8];
    let body = data.clone();
    data.extend_from_slice(&id3v1_trailer());
    let out = strip_unsafe_tags(&data).unwrap();
    assert_eq!(out, body);
}

#[test]
fn safe_strip_without_any_tag_returns_input() {
    let data = vec![0xFF, 0xFB, 0x90, 0x00, 5, 6, 7, 8];
    let out = strip_unsafe_tags(&data).unwrap();
    assert_eq!(out, data);
}
