//! The target formats of the image conversion command.

use crate::format::spec_lower_bytes;
use vstd::prelude::*;
use vstd::string::StringSliceAdditionalSpecFns;

verus! {

/// A format an image can be converted to.
#[derive(Debug, Clone, Copy, PartialEq, Eq, Structural)]
pub enum ConvertFormat {
    Png,
    Jpg,
    Webp,
}

/// Which conversion target a lowercased format name denotes.
pub open spec fn spec_convert_format(l: Seq<u8>) -> Option<ConvertFormat> {
    if l == seq![0x70u8, 0x6e, 0x67] {
        Some(ConvertFormat::Png)
    } else if l == seq![0x6au8, 0x70, 0x67] || l == seq![0x6au8, 0x70, 0x65, 0x67] {
        Some(ConvertFormat::Jpg)
    } else if l == seq![0x77u8, 0x65, 0x62, 0x70] {
        Some(ConvertFormat::Webp)
    } else {
        None
    }
}

impl ConvertFormat {
    /// Parses a target-format name, case-insensitively.
    pub fn from_str(s: &str) -> (r: Option<ConvertFormat>)
        ensures
            r == spec_convert_format(spec_lower_bytes(s.spec_bytes())),
    {
        let b = s.as_bytes();
        let mut l: Vec<u8> = Vec::new();
        let mut i: usize = 0;
        while i < b.len()
            invariant
                i <= b@.len(),
                l@ == spec_lower_bytes(b@.take(i as int)),
            decreases b@.len() - i,
        {
            let c = b[i];
            if 0x41 <= c && c <= 0x5a {
                l.push(c + 0x20);
            } else {
                l.push(c);
            }
            i = i + 1;
            proof {
                assert(b@.take(i as int) =~= b@.take(i as int - 1).push(b@[i as int - 1]));
                assert(l@ =~= spec_lower_bytes(b@.take(i as int)));
            }
        }
        proof {
            assert(b@.take(b@.len() as int) =~= b@);
        }
        let n = l.len();
        let r = if n == 3 && l[0] == 0x70 && l[1] == 0x6e && l[2] == 0x67 {
            Some(ConvertFormat::Png)
        } else if n == 3 && l[0] == 0x6a && l[1] == 0x70 && l[2] == 0x67 {
            Some(ConvertFormat::Jpg)
        } else if n == 4 && l[0] == 0x6a && l[1] == 0x70 && l[2] == 0x65 && l[3] == 0x67 {
            Some(ConvertFormat::Jpg)
        } else if n == 4 && l[0] == 0x77 && l[1] == 0x65 && l[2] == 0x62 && l[3] == 0x70 {
            Some(ConvertFormat::Webp)
        } else {
            None
        };
        proof {
            if l@.len() == 3 {
                assert(l@ =~= seq![l@[0], l@[1], l@[2]]);
            }
            if l@.len() == 4 {
                assert(l@ =~= seq![l@[0], l@[1], l@[2], l@[3]]);
            }
        }
        r
    }

    /// The lower-case file extension used for converted output files.
    pub fn extension(&self) -> (r: &'static str)
        ensures
            r@ == self.spec_extension_chars(),
    {
        match self {
            ConvertFormat::Png => "png",
            ConvertFormat::Jpg => "jpg",
            ConvertFormat::Webp => "webp",
        }
    }

    /// The extension of each conversion target.
    pub open spec fn spec_extension_chars(&self) -> Seq<char> {
        match self {
            ConvertFormat::Png => "png"@,
            ConvertFormat::Jpg => "jpg"@,
            ConvertFormat::Webp => "webp"@,
        }
    }

    /// The format's display name.
    pub fn as_str(&self) -> (r: &'static str)
        ensures
            r@ == self.spec_as_chars(),
    {
        match self {
            ConvertFormat::Png => "PNG",
            ConvertFormat::Jpg => "JPEG",
            ConvertFormat::Webp => "WebP",
        }
    }

    /// The display name of each conversion target.
    pub open spec fn spec_as_chars(&self) -> Seq<char> {
        match self {
            ConvertFormat::Png => "PNG"@,
            ConvertFormat::Jpg => "JPEG"@,
            ConvertFormat::Webp => "WebP"@,
        }
    }
}

} // verus!
