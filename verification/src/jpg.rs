//! The JPEG inspection helpers: naming the segment markers found while
//! scanning a file. JPEG re-encoding itself is delegated to the image
//! codec outside this library.

use vstd::prelude::*;

verus! {

/// A JPEG processing stage, holding no state of its own.
pub struct JpgProcessor;

/// The short name and description of each JPEG segment marker.
pub open spec fn spec_marker_info(marker: u8) -> (Seq<char>, Seq<char>) {
    if marker == 0xc0 {
        ("SOF0"@, "Baseline DCT"@)
    } else if marker == 0xc1 {
        ("SOF1"@, "Extended Sequential DCT"@)
    } else if marker == 0xc2 {
        ("SOF2"@, "Progressive DCT"@)
    } else if marker == 0xc3 {
        ("SOF3"@, "Lossless (Sequential)"@)
    } else if marker == 0xc4 {
        ("DHT"@, "Define Huffman Table"@)
    } else if marker == 0xc8 {
        ("JPG"@, "JPEG Extensions"@)
    } else if marker == 0xc9 {
        ("SOF9"@, "Extended Sequential DCT (Arithmetic)"@)
    } else if marker == 0xca {
        ("SOF10"@, "Progressive DCT (Arithmetic)"@)
    } else if marker == 0xcb {
        ("SOF11"@, "Lossless (Arithmetic)"@)
    } else if marker == 0xcc {
        ("DAC"@, "Define Arithmetic Coding"@)
    } else if 0xd0 <= marker <= 0xd7 {
        ("RST"@, "Restart Marker"@)
    } else if marker == 0xd8 {
        ("SOI"@, "Start of Image"@)
    } else if marker == 0xd9 {
        ("EOI"@, "End of Image"@)
    } else if marker == 0xda {
        ("SOS"@, "Start of Scan"@)
    } else if marker == 0xdb {
        ("DQT"@, "Define Quantization Table"@)
    } else if marker == 0xdc {
        ("DNL"@, "Define Number of Lines"@)
    } else if marker == 0xdd {
        ("DRI"@, "Define Restart Interval"@)
    } else if marker == 0xde {
        ("DHP"@, "Define Hierarchical Progression"@)
    } else if marker == 0xdf {
        ("EXP"@, "Expand Reference Component"@)
    } else if marker == 0xe0 {
        ("APP0"@, "Application Segment (JFIF)"@)
    } else if marker == 0xe1 {
        ("APP1"@, "Application Segment (EXIF/XMP)"@)
    } else if marker == 0xe2 {
        ("APP2"@, "Application Segment (ICC Profile)"@)
    } else if 0xe3 <= marker <= 0xef {
        ("APPn"@, "Application Segment"@)
    } else if marker == 0xfe {
        ("COM"@, "Comment"@)
    } else {
        ("???"@, "Unknown Marker"@)
    }
}

/// The short name and description of a JPEG segment marker byte.
pub fn marker_info(marker: u8) -> (r: (&'static str, &'static str))
    ensures
        r.0@ == spec_marker_info(marker).0,
        r.1@ == spec_marker_info(marker).1,
{
    if marker == 0xc0 {
        ("SOF0", "Baseline DCT")
    } else if marker == 0xc1 {
        ("SOF1", "Extended Sequential DCT")
    } else if marker == 0xc2 {
        ("SOF2", "Progressive DCT")
    } else if marker == 0xc3 {
        ("SOF3", "Lossless (Sequential)")
    } else if marker == 0xc4 {
        ("DHT", "Define Huffman Table")
    } else if marker == 0xc8 {
        ("JPG", "JPEG Extensions")
    } else if marker == 0xc9 {
        ("SOF9", "Extended Sequential DCT (Arithmetic)")
    } else if marker == 0xca {
        ("SOF10", "Progressive DCT (Arithmetic)")
    } else if marker == 0xcb {
        ("SOF11", "Lossless (Arithmetic)")
    } else if marker == 0xcc {
        ("DAC", "Define Arithmetic Coding")
    } else if 0xd0 <= marker && marker <= 0xd7 {
        ("RST", "Restart Marker")
    } else if marker == 0xd8 {
        ("SOI", "Start of Image")
    } else if marker == 0xd9 {
        ("EOI", "End of Image")
    } else if marker == 0xda {
        ("SOS", "Start of Scan")
    } else if marker == 0xdb {
        ("DQT", "Define Quantization Table")
    } else if marker == 0xdc {
        ("DNL", "Define Number of Lines")
    } else if marker == 0xdd {
        ("DRI", "Define Restart Interval")
    } else if marker == 0xde {
        ("DHP", "Define Hierarchical Progression")
    } else if marker == 0xdf {
        ("EXP", "Expand Reference Component")
    } else if marker == 0xe0 {
        ("APP0", "Application Segment (JFIF)")
    } else if marker == 0xe1 {
        ("APP1", "Application Segment (EXIF/XMP)")
    } else if marker == 0xe2 {
        ("APP2", "Application Segment (ICC Profile)")
    } else if 0xe3 <= marker && marker <= 0xef {
        ("APPn", "Application Segment")
    } else if marker == 0xfe {
        ("COM", "Comment")
    } else {
        ("???", "Unknown Marker")
    }
}

} // verus!
