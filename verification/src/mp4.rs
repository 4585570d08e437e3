//! The MP4 inspection helper: deciding whether a file is "fast start"
//! optimised, that is, whether its `moov` box comes before its `mdat` box.
//! MP4 re-encoding itself is delegated to an external transcoder.

use crate::bytes::{read_be32, spec_be32};
use crate::error::ProcessingError;
use vstd::prelude::*;

verus! {

/// An MP4 processing stage, holding no state of its own.
pub struct Mp4Processor;

/// Whether the box scan starting at `pos`, having already seen `moov` or
/// `mdat` as recorded, concludes that the file is fast-start optimised.
///
/// Each box is a 4-byte big-endian size (counting the whole box) and a
/// 4-byte type. A size below 8 ends the scan, as does running past the end
/// of the buffer.
pub open spec fn spec_fast_start_from(
    s: Seq<u8>,
    pos: int,
    found_moov: bool,
    found_mdat: bool,
) -> bool
    decreases s.len() + 1 - pos,
    when 0 <= pos
{
    if pos + 8 <= s.len() {
        let size = spec_be32(s.subrange(pos, pos + 4));
        let ty = s.subrange(pos + 4, pos + 8);
        if size < 8 {
            found_moov && !found_mdat
        } else if ty == seq![0x6du8, 0x6f, 0x6f, 0x76] {  // "moov"
            if found_mdat {
                false
            } else if pos + size > s.len() {
                true
            } else {
                spec_fast_start_from(s, pos + size, true, found_mdat)
            }
        } else if ty == seq![0x6du8, 0x64, 0x61, 0x74] {  // "mdat"
            if found_moov {
                true
            } else if pos + size > s.len() {
                false
            } else {
                spec_fast_start_from(s, pos + size, found_moov, true)
            }
        } else {
            if pos + size > s.len() {
                found_moov && !found_mdat
            } else {
                spec_fast_start_from(s, pos + size, found_moov, found_mdat)
            }
        }
    } else {
        found_moov && !found_mdat
    }
}

/// Whether the file is fast-start optimised: its `moov` box stands before
/// its `mdat` box.
pub open spec fn spec_fast_start(s: Seq<u8>) -> bool {
    spec_fast_start_from(s, 0, false, false)
}

/// Checks whether an MP4 file has its `moov` box before its `mdat` box, so
/// that playback can start while the file is still downloading.
pub fn check_fast_start(input: &[u8]) -> (r: Result<bool, ProcessingError>)
    ensures
        r matches Ok(b) && b == spec_fast_start(input@),
{
    let mut pos: usize = 0;
    let mut found_moov = false;
    let mut found_mdat = false;
    while pos < input.len() && input.len() - pos >= 8
        invariant
            pos <= input@.len(),
            spec_fast_start(input@) == spec_fast_start_from(
                input@,
                pos as int,
                found_moov,
                found_mdat,
            ),
        decreases input@.len() - pos,
    {
        let ghost p = pos as int;
        let size = read_be32(input, pos) as usize;
        let is_moov = input[pos + 4] == 0x6d && input[pos + 5] == 0x6f && input[pos + 6] == 0x6f
            && input[pos + 7] == 0x76;
        let is_mdat = input[pos + 4] == 0x6d && input[pos + 5] == 0x64 && input[pos + 6] == 0x61
            && input[pos + 7] == 0x74;
        proof {
            assert(input@.subrange(p + 4, p + 8) =~= seq![
                input@[p + 4],
                input@[p + 5],
                input@[p + 6],
                input@[p + 7],
            ]);
        }
        if size < 8 {
            return Ok(found_moov && !found_mdat);
        }
        if is_moov {
            if found_mdat {
                return Ok(false);
            }
            found_moov = true;
        } else if is_mdat {
            if found_moov {
                return Ok(true);
            }
            found_mdat = true;
        }
        if size > input.len() - pos {
            return Ok(found_moov && !found_mdat);
        }
        pos = pos + size;
    }
    Ok(found_moov && !found_mdat)
}

} // verus!
