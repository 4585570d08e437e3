//! File-format detection from a path's extension.

use vstd::prelude::*;
use vstd::string::StringSliceAdditionalSpecFns;

verus! {

/// The file formats the processing pipeline understands.
#[derive(Debug, Clone, Copy, PartialEq, Eq, Structural)]
pub enum ImageFormat {
    Png,
    Jpg,
    Mp3,
    Wav,
    Webp,
    Mp4,
}

/// The ASCII-lowercased copy of `b`.
pub open spec fn spec_lower_bytes(b: Seq<u8>) -> Seq<u8> {
    b.map(|_i: int, c: u8| if 0x41 <= c <= 0x5a { (c + 0x20) as u8 } else { c })
}

/// Whether `d` is the position of the dot introducing the path's extension:
/// the last dot, inside the final path component, with a non-empty stem
/// before it.
pub open spec fn is_extension_dot(b: Seq<u8>, d: int) -> bool {
    &&& 0 < d < b.len()
    &&& b[d] == 0x2e
    &&& b[d - 1] != 0x2f
    &&& forall|j: int| d < j < b.len() ==> b[j] != 0x2e && b[j] != 0x2f
}

/// The path's extension (the bytes after the extension dot), if any.
pub open spec fn spec_extension(b: Seq<u8>) -> Option<Seq<u8>> {
    if exists|d: int| is_extension_dot(b, d) {
        Some(b.subrange((choose|d: int| is_extension_dot(b, d)) + 1, b.len() as int))
    } else {
        None
    }
}

/// Which format a lowercased extension denotes.
pub open spec fn spec_format_of_ext(e: Seq<u8>) -> Option<ImageFormat> {
    if e == seq![0x70u8, 0x6e, 0x67] {
        Some(ImageFormat::Png)
    } else if e == seq![0x6au8, 0x70, 0x67] || e == seq![0x6au8, 0x70, 0x65, 0x67] {
        Some(ImageFormat::Jpg)
    } else if e == seq![0x6du8, 0x70, 0x33] {
        Some(ImageFormat::Mp3)
    } else if e == seq![0x77u8, 0x61, 0x76] {
        Some(ImageFormat::Wav)
    } else if e == seq![0x77u8, 0x65, 0x62, 0x70] {
        Some(ImageFormat::Webp)
    } else if e == seq![0x6du8, 0x70, 0x34] || e == seq![0x6du8, 0x34, 0x76] || e == seq![0x6du8, 0x34,
        0x61,
    ] {
        Some(ImageFormat::Mp4)
    } else {
        None
    }
}

/// Which format a path denotes, judged by its lowercased extension.
pub open spec fn spec_format_from_path(b: Seq<u8>) -> Option<ImageFormat> {
    match spec_extension(b) {
        Some(e) => spec_format_of_ext(spec_lower_bytes(e)),
        None => None,
    }
}

impl ImageFormat {
    /// Detects the format of the file at `path` from its extension,
    /// case-insensitively.
    pub fn from_path(path: &str) -> (r: Option<ImageFormat>)
        ensures
            r == spec_format_from_path(path.spec_bytes()),
    {
        let b = path.as_bytes();
        match find_extension_dot(b) {
            None => None,
            Some(d) => {
                let n = b.len();
                proof {
                    assert(is_extension_dot(b@, d as int));
                    assert(d < n);
                }
                let mut e: Vec<u8> = Vec::new();
                let mut i: usize = d + 1;
                while i < b.len()
                    invariant
                        d + 1 <= i <= b@.len(),
                        e@ == spec_lower_bytes(b@.subrange(d + 1, i as int)),
                    decreases b@.len() - i,
                {
                    let c = b[i];
                    if 0x41 <= c && c <= 0x5a {
                        e.push(c + 0x20);
                    } else {
                        e.push(c);
                    }
                    i = i + 1;
                    proof {
                        assert(b@.subrange(d + 1, i as int) =~= b@.subrange(d + 1, i as int
                            - 1).push(b@[i as int - 1]));
                        assert(e@ =~= spec_lower_bytes(b@.subrange(d + 1, i as int)));
                    }
                }
                proof {
                    let dd = choose|dd: int| is_extension_dot(b@, dd);
                    assert(is_extension_dot(b@, dd));
                    assert(is_extension_dot(b@, d as int));
                    if dd < d as int {
                        assert(b@[d as int] != 0x2e);
                    }
                    if (d as int) < dd {
                        assert(b@[dd] != 0x2e);
                    }
                    assert(dd == d as int);
                    assert(spec_extension(b@) == Some(b@.subrange(d + 1, b@.len() as int)));
                }
                format_of_lower_ext(&e)
            },
        }
    }

    /// The format's display name.
    pub fn as_str(&self) -> (r: &'static str)
        ensures
            r@ == self.spec_as_chars(),
    {
        match self {
            ImageFormat::Png => "PNG",
            ImageFormat::Jpg => "JPEG",
            ImageFormat::Mp3 => "MP3",
            ImageFormat::Wav => "WAV",
            ImageFormat::Webp => "WebP",
            ImageFormat::Mp4 => "MP4",
        }
    }

    /// The display name of each format.
    pub open spec fn spec_as_chars(&self) -> Seq<char> {
        match self {
            ImageFormat::Png => "PNG"@,
            ImageFormat::Jpg => "JPEG"@,
            ImageFormat::Mp3 => "MP3"@,
            ImageFormat::Wav => "WAV"@,
            ImageFormat::Webp => "WebP"@,
            ImageFormat::Mp4 => "MP4"@,
        }
    }
}

/// Finds the extension dot of `b`, if there is one.
fn find_extension_dot(b: &[u8]) -> (r: Option<usize>)
    ensures
        match r {
            Some(d) => is_extension_dot(b@, d as int),
            None => forall|d: int| !is_extension_dot(b@, d),
        },
{
    let n = b.len();
    let mut i: usize = n;
    while i > 0
        invariant
            i <= n == b@.len(),
            forall|j: int| i <= j < n ==> b@[j] != 0x2e && b@[j] != 0x2f,
        decreases i,
    {
        i = i - 1;
        let c = b[i];
        if c == 0x2f {
            proof {
                assert forall|d: int| !is_extension_dot(b@, d) by {
                    if is_extension_dot(b@, d) {
                        assert(b@[d] == 0x2e);
                        assert(d <= i as int);
                        if d < i as int {
                            assert(b@[i as int] != 0x2f);
                        }
                    }
                }
            }
            return None;
        }
        if c == 0x2e {
            if i > 0 && b[i - 1] != 0x2f {
                return Some(i);
            } else {
                proof {
                    assert forall|d: int| !is_extension_dot(b@, d) by {
                        if is_extension_dot(b@, d) {
                            assert(b@[d] == 0x2e);
                            assert(d <= i as int);
                            if d < i as int {
                                assert(b@[i as int] != 0x2e);
                            }
                        }
                    }
                }
                return None;
            }
        }
    }
    proof {
        assert forall|d: int| !is_extension_dot(b@, d) by {
            if is_extension_dot(b@, d) {
                assert(b@[d] == 0x2e);
            }
        }
    }
    None
}

/// Maps an already-lowercased extension to its format.
fn format_of_lower_ext(e: &Vec<u8>) -> (r: Option<ImageFormat>)
    ensures
        r == spec_format_of_ext(e@),
{
    let n = e.len();
    let r = if n == 3 && e[0] == 0x70 && e[1] == 0x6e && e[2] == 0x67 {
        Some(ImageFormat::Png)
    } else if n == 3 && e[0] == 0x6a && e[1] == 0x70 && e[2] == 0x67 {
        Some(ImageFormat::Jpg)
    } else if n == 4 && e[0] == 0x6a && e[1] == 0x70 && e[2] == 0x65 && e[3] == 0x67 {
        Some(ImageFormat::Jpg)
    } else if n == 3 && e[0] == 0x6d && e[1] == 0x70 && e[2] == 0x33 {
        Some(ImageFormat::Mp3)
    } else if n == 3 && e[0] == 0x77 && e[1] == 0x61 && e[2] == 0x76 {
        Some(ImageFormat::Wav)
    } else if n == 4 && e[0] == 0x77 && e[1] == 0x65 && e[2] == 0x62 && e[3] == 0x70 {
        Some(ImageFormat::Webp)
    } else if n == 3 && e[0] == 0x6d && e[1] == 0x70 && e[2] == 0x34 {
        Some(ImageFormat::Mp4)
    } else if n == 3 && e[0] == 0x6d && e[1] == 0x34 && e[2] == 0x76 {
        Some(ImageFormat::Mp4)
    } else if n == 3 && e[0] == 0x6d && e[1] == 0x34 && e[2] == 0x61 {
        Some(ImageFormat::Mp4)
    } else {
        None
    };
    proof {
        if e@.len() == 3 {
            assert(e@ =~= seq![e@[0], e@[1], e@[2]]);
        }
        if e@.len() == 4 {
            assert(e@ =~= seq![e@[0], e@[1], e@[2], e@[3]]);
        }
    }
    r
}

} // verus!
