use image_preparer::config::StripMode;
use image_preparer::converter::ConvertFormat;
use image_preparer::error::ProcessingError;
use image_preparer::format::ImageFormat;
use image_preparer::io::resolve_output;
use image_preparer::jpg::marker_info;
use image_preparer::mp3::{extract_file_paths, format_unknown_data, get_frame_name, get_genre_name};
use image_preparer::mp4::check_fast_start;
use image_preparer::png::{ihdr_info, text_split};
use image_preparer::webp::vp8x_info;
use image_preparer::report::{format_size, FileResult, Report};

#[test]
fn strip_mode_names_round_trip() {
    assert_eq!(StripMode::from_str("all"), Ok(StripMode::All));
    assert_eq!(StripMode::from_str("safe"), Ok(StripMode::Safe));
    assert_eq!(StripMode::from_str("none"), Ok(StripMode::Off));
    assert_eq!(
        StripMode::from_str("everything"),
        Err("unknown strip mode: everything".to_string())
    );
    for mode in [StripMode::All, StripMode::Safe, StripMode::Off] {
        assert_eq!(StripMode::from_str(mode.as_str()), Ok(mode));
    }
    assert_eq!(StripMode::All.as_str(), "all");
    assert_eq!(StripMode::Safe.as_str(), "safe");
    assert_eq!(StripMode::Off.as_str(), "none");
}

#[test]
fn strip_mode_parsing_is_case_insensitive() {
    assert_eq!(StripMode::from_str("ALL"), Ok(StripMode::All));
    assert_eq!(StripMode::from_str("Safe"), Ok(StripMode::Safe));
    assert_eq!(StripMode::from_str("NoNe"), Ok(StripMode::Off));
}

#[test]
fn image_format_from_path_uses_lowercased_extension() {
    assert_eq!(ImageFormat::from_path("photos/cat.PNG"), Some(ImageFormat::Png));
    assert_eq!(ImageFormat::from_path("a/b/c.jpeg"), Some(ImageFormat::Jpg));
    assert_eq!(ImageFormat::from_path("x.jpg"), Some(ImageFormat::Jpg));
    assert_eq!(ImageFormat::from_path("song.mp3"), Some(ImageFormat::Mp3));
    assert_eq!(ImageFormat::from_path("sound.WaV"), Some(ImageFormat::Wav));
    assert_eq!(ImageFormat::from_path("pic.webp"), Some(ImageFormat::Webp));
    assert_eq!(ImageFormat::from_path("clip.m4v"), Some(ImageFormat::Mp4));
    assert_eq!(ImageFormat::from_path("noextension"), None);
    assert_eq!(ImageFormat::from_path("dir.d/noextension"), None);
    assert_eq!(ImageFormat::from_path(".hidden"), None);
    assert_eq!(ImageFormat::from_path("archive.tar"), None);
    assert_eq!(ImageFormat::Png.as_str(), "PNG");
    assert_eq!(ImageFormat::Jpg.as_str(), "JPEG");
}

#[test]
fn convert_format_parsing_and_names() {
    assert_eq!(ConvertFormat::from_str("png"), Some(ConvertFormat::Png));
    assert_eq!(ConvertFormat::from_str("JPG"), Some(ConvertFormat::Jpg));
    assert_eq!(ConvertFormat::from_str("jpeg"), Some(ConvertFormat::Jpg));
    assert_eq!(ConvertFormat::from_str("WebP"), Some(ConvertFormat::Webp));
    assert_eq!(ConvertFormat::from_str("gif"), None);
    assert_eq!(ConvertFormat::Png.extension(), "png");
    assert_eq!(ConvertFormat::Jpg.extension(), "jpg");
    assert_eq!(ConvertFormat::Webp.as_str(), "WebP");
}

#[test]
fn resolve_output_cases() {
    // No output base: overwrite in place.
    assert_eq!(resolve_output("in/a.png", "in", None, false), "in/a.png");
    // Single file to a named output file.
    assert_eq!(resolve_output("a.png", "a.png", Some("out.png"), true), "out.png");
    // Single file into an output directory.
    assert_eq!(resolve_output("a.png", "a.png", Some("outdir"), true), "outdir/a.png");
    // Directory input mirrors relative structure.
    assert_eq!(resolve_output("in/sub/a.png", "in", Some("out"), false), "out/sub/a.png");
    // Unrelated base leaves the path as-is under the output.
    assert_eq!(resolve_output("else/a.png", "in", Some("out"), false), "out/else/a.png");
}

#[test]
fn jpeg_marker_table() {
    assert_eq!(marker_info(0xD8), ("SOI", "Start of Image"));
    assert_eq!(marker_info(0xDA), ("SOS", "Start of Scan"));
    assert_eq!(marker_info(0xE1), ("APP1", "Application Segment (EXIF/XMP)"));
    assert_eq!(marker_info(0xD3), ("RST", "Restart Marker"));
    assert_eq!(marker_info(0xE7), ("APPn", "Application Segment"));
    assert_eq!(marker_info(0x42), ("???", "Unknown Marker"));
}

#[test]
fn frame_and_genre_tables() {
    assert_eq!(get_frame_name("TIT2"), "Title");
    assert_eq!(get_frame_name("APIC"), "Attached Picture");
    assert_eq!(get_frame_name("PRIV"), "Private Data");
    assert_eq!(get_frame_name("ZZZZ"), "Unknown Frame");
    assert_eq!(get_genre_name(0), "Blues");
    assert_eq!(get_genre_name(17), "Rock");
    assert_eq!(get_genre_name(41), "Bass");
    assert_eq!(get_genre_name(200), "Unknown");
}

fn mp4_box(id: &[u8; 4], payload: &[u8]) -> Vec<u8> {
    let mut out = Vec::new();
    out.extend_from_slice(&((payload.len() + 8) as u32).to_be_bytes());
    out.extend_from_slice(id);
    out.extend_from_slice(payload);
    out
}

#[test]
fn fast_start_detection() {
    let mut fast = mp4_box(b"ftyp", &[0; 8]);
    fast.extend_from_slice(&mp4_box(b"moov", &[0; 16]));
    fast.extend_from_slice(&mp4_box(b"mdat", &[0; 32]));
    assert_eq!(check_fast_start(&fast).unwrap(), true);

    let mut slow = mp4_box(b"ftyp", &[0; 8]);
    slow.extend_from_slice(&mp4_box(b"mdat", &[0; 32]));
    slow.extend_from_slice(&mp4_box(b"moov", &[0; 16]));
    assert_eq!(check_fast_start(&slow).unwrap(), false);

    let neither = mp4_box(b"ftyp", &[0; 8]);
    assert_eq!(check_fast_start(&neither).unwrap(), false);
}

#[test]
fn report_totals_and_counts() {
    let mut report = Report::new();
    report.add(FileResult {
        path: "a.png".to_string(),
        original_size: 1000,
        compressed_size: 600,
        skipped: false,
        error: None,
    });
    report.add(FileResult {
        path: "b.wav".to_string(),
        original_size: 500,
        compressed_size: 500,
        skipped: true,
        error: None,
    });
    report.add(FileResult {
        path: "c.mp3".to_string(),
        original_size: 0,
        compressed_size: 0,
        skipped: false,
        error: Some("boom".to_string()),
    });
    assert_eq!(report.total_original(), 1500);
    assert_eq!(report.total_compressed(), 1100);
    assert_eq!(report.success_count(), 1);
    assert_eq!(report.error_count(), 1);
}

#[test]
fn format_size_renders_units() {
    assert_eq!(format_size(0), "0 B");
    assert_eq!(format_size(512), "512 B");
    assert_eq!(format_size(1024), "1.0 KB");
    assert_eq!(format_size(1536), "1.5 KB");
    assert_eq!(format_size(1048576), "1.00 MB");
    assert_eq!(format_size(1572864), "1.50 MB");
    assert_eq!(format_size(2621440), "2.50 MB");
}

#[test]
fn format_unknown_data_modes() {
    assert_eq!(format_unknown_data(&[]), "<empty>");
    assert_eq!(
        format_unknown_data(b"plain readable text"),
        "\"plain readable text\""
    );
    assert_eq!(
        format_unknown_data(&[0x00, 0x01, 0x02]),
        "<binary: 00 01 02 (3 bytes)>"
    );
    let long: Vec<u8> = (0u8..20).collect();
    assert_eq!(
        format_unknown_data(&long),
        "<binary: 00 01 02 03 04 05 06 07 08 09 0A 0B 0C 0D 0E 0F ... (20 bytes total)>"
    );
    let with_path = format_unknown_data(b"project at C:\\Users\\me\\clip.prproj end");
    assert!(with_path.ends_with(" (contains file paths)"));
}

#[test]
fn extract_file_paths_finds_markers() {
    let data = b"junk\x00/home/someone/music/track.mp3\x00more\x00C:\\Media\\song.wav\x00";
    let paths = extract_file_paths(data);
    assert!(paths.iter().any(|p| p == "/home/someone/music/track.mp3"));
    assert!(paths.iter().any(|p| p == "C:\\Media\\song.wav"));
    for p in &paths {
        assert!(p.starts_with('/') || p.as_bytes()[1] == b':');
    }
}

#[test]
fn extract_file_paths_sorts_and_dedups() {
    let data =
        b"x\x00/mnt/z/last.wav\x00y\x00/home/a/first.mp3\x00z\x00/home/a/first.mp3\x00";
    let paths = extract_file_paths(data);
    assert_eq!(
        paths,
        vec!["/home/a/first.mp3".to_string(), "/mnt/z/last.wav".to_string()]
    );
}

#[test]
fn png_field_decoders_read_exact_values() {
    let mut ihdr = Vec::new();
    ihdr.extend_from_slice(&640u32.to_be_bytes());
    ihdr.extend_from_slice(&480u32.to_be_bytes());
    ihdr.extend_from_slice(&[8, 6, 0, 0, 0]);
    assert_eq!(ihdr_info(&ihdr), Some((640, 480, 8, 6)));
    assert_eq!(ihdr_info(&[0; 12]), None);

    let (k, v) = text_split(b"Comment\0hello").unwrap();
    assert_eq!(k, b"Comment");
    assert_eq!(v, b"hello");
    assert!(text_split(b"nonul").is_none());
}

#[test]
fn webp_field_decoders_read_exact_values() {
    // flags, 3 reserved bytes, canvas 2x3 stored minus one in 24-bit LE
    let data = [0x10, 0, 0, 0, 1, 0, 0, 2, 0, 0];
    assert_eq!(vp8x_info(&data), Some((0x10, 2, 3)));
    assert_eq!(vp8x_info(&data[..9]), None);
}

#[test]
fn error_messages_carry_their_text() {
    let e = ProcessingError::Decode("bad header".to_string());
    assert_eq!(e.message(), "bad header");
    let e = ProcessingError::UnsupportedFormat("tiff".to_string());
    assert_eq!(e.message(), "tiff");
}
