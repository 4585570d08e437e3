//! The strip policy: the single external input governing which metadata
//! records survive reconstruction.

use crate::format::spec_lower_bytes;
use vstd::prelude::*;
use vstd::string::StringExecFns;
use vstd::string::StringSliceAdditionalSpecFns;

verus! {

/// Governs which non-essential records survive reconstruction.
///
/// `All` keeps only what a file needs to decode, `Safe` additionally keeps
/// non-sensitive metadata, and `Off` (named `none` on the command line)
/// performs no work at all.
#[derive(Debug, Clone, Copy, PartialEq, Eq, Structural)]
pub enum StripMode {
    All,
    Safe,
    Off,
}

/// Which mode an ASCII-lowercased policy name denotes, if any.
pub open spec fn spec_mode_of_lower(l: Seq<u8>) -> Option<StripMode> {
    if l == seq![0x61u8, 0x6c, 0x6c] {  // "all"
        Some(StripMode::All)
    } else if l == seq![0x73u8, 0x61, 0x66, 0x65] {  // "safe"
        Some(StripMode::Safe)
    } else if l == seq![0x6eu8, 0x6f, 0x6e, 0x65] {  // "none"
        Some(StripMode::Off)
    } else {
        None
    }
}

impl StripMode {
    /// Parses a policy name, case-insensitively; an unknown name is an error
    /// whose message names the rejected input.
    pub fn from_str(s: &str) -> (r: Result<StripMode, String>)
        ensures
            ({
                let parsed = spec_mode_of_lower(spec_lower_bytes(s.spec_bytes()));
                match r {
                    Ok(mode) => parsed == Some(mode),
                    Err(msg) => parsed is None && msg@ == "unknown strip mode: "@ + s@,
                }
            }),
    {
        let b = s.as_bytes();
        let mut l: Vec<u8> = Vec::new();
        let mut i: usize = 0;
        while i < b.len()
            invariant
                i <= b@.len(),
                l@ == spec_lower_bytes(b@.take(i as int)),
            decreases b@.len() - i,
        {
            let c = b[i];
            if 0x41 <= c && c <= 0x5a {
                l.push(c + 0x20);
            } else {
                l.push(c);
            }
            i = i + 1;
            proof {
                assert(b@.take(i as int) =~= b@.take(i as int - 1).push(b@[i as int - 1]));
                assert(l@ =~= spec_lower_bytes(b@.take(i as int)));
            }
        }
        proof {
            assert(b@.take(b@.len() as int) =~= b@);
        }
        let n = l.len();
        let is_all = n == 3 && l[0] == 0x61 && l[1] == 0x6c && l[2] == 0x6c;
        let is_safe = n == 4 && l[0] == 0x73 && l[1] == 0x61 && l[2] == 0x66 && l[3] == 0x65;
        let is_none = n == 4 && l[0] == 0x6e && l[1] == 0x6f && l[2] == 0x6e && l[3] == 0x65;
        proof {
            if l@.len() == 3 {
                assert(l@ =~= seq![l@[0], l@[1], l@[2]]);
            }
            if l@.len() == 4 {
                assert(l@ =~= seq![l@[0], l@[1], l@[2], l@[3]]);
            }
        }
        if is_all {
            Ok(StripMode::All)
        } else if is_safe {
            Ok(StripMode::Safe)
        } else if is_none {
            Ok(StripMode::Off)
        } else {
            let mut msg = "unknown strip mode: ".to_owned();
            msg.append(s);
            Err(msg)
        }
    }

    /// The policy's name, as accepted back by `from_str`.
    pub fn as_str(&self) -> (r: &'static str)
        ensures
            r@ == self.spec_as_chars(),
    {
        match self {
            StripMode::All => "all",
            StripMode::Safe => "safe",
            StripMode::Off => "none",
        }
    }

    /// The name of each mode.
    pub open spec fn spec_as_chars(&self) -> Seq<char> {
        match self {
            StripMode::All => "all"@,
            StripMode::Safe => "safe"@,
            StripMode::Off => "none"@,
        }
    }
}

} // verus!
