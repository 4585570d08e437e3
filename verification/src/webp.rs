//! The WebP container engine: a RIFF chunk walker, a sensitivity classifier,
//! and a reconstructor that rebuilds the file from the retained chunks and
//! patches the RIFF size field.
//!
//! Unlike the WAV walker, a chunk whose declared size runs past the end of
//! the buffer is a hard decode error here.

use crate::bytes::{copy_range, push_bytes, push_le32, read_le32, spec_le32};
use crate::config::StripMode;
use crate::error::ProcessingError;
use crate::bytes::lemma_filter_push;
use crate::riff::{
    RiffChunk, lemma_emit_push, spec_chunks_view, spec_emit_chunk, spec_emit_chunks,
};
use vstd::prelude::*;
use vstd::seq_lib::*;

verus! {

/// A WebP processing stage, holding no state of its own.
pub struct WebpProcessor;

/// The chunk records of the RIFF chunk area `s`, walking from byte `pos`, or
/// `None` when a chunk's declared size overruns the buffer.
pub open spec fn webp_chunks_from(s: Seq<u8>, pos: int) -> Option<Seq<(Seq<u8>, Seq<u8>)>>
    decreases s.len() + 1 - pos,
    when 0 <= pos
{
    if pos + 8 <= s.len() {
        let id = s.subrange(pos, pos + 4);
        let size = spec_le32(s.subrange(pos + 4, pos + 8));
        if pos + 8 + size > s.len() {
            None
        } else {
            let data = s.subrange(pos + 8, pos + 8 + size);
            let next = if (pos + 8 + size) % 2 == 1 {
                pos + 8 + size + 1
            } else {
                pos + 8 + size
            };
            match webp_chunks_from(s, next) {
                Some(rest) => Some(seq![(id, data)] + rest),
                None => None,
            }
        }
    } else {
        Some(Seq::empty())
    }
}

/// Prepends already-walked chunks to the outcome of walking the rest.
pub open spec fn opt_prepend(front: Seq<(Seq<u8>, Seq<u8>)>, rest: Option<
    Seq<(Seq<u8>, Seq<u8>)>,
>) -> Option<Seq<(Seq<u8>, Seq<u8>)>> {
    match rest {
        Some(t) => Some(front + t),
        None => None,
    }
}

/// The chunks of a whole WebP file: the chunk area follows the 12-byte
/// `RIFF`/size/`WEBP` header.
pub open spec fn spec_webp_chunks(s: Seq<u8>) -> Option<Seq<(Seq<u8>, Seq<u8>)>> {
    webp_chunks_from(s.skip(12), 0)
}

/// The essential bitstream and animation-control chunks, kept under `Safe`.
pub open spec fn spec_webp_essential(id: Seq<u8>) -> bool {
    ||| id == seq![0x56u8, 0x50, 0x38, 0x20]  // "VP8 "
    ||| id == seq![0x56u8, 0x50, 0x38, 0x4c]  // "VP8L"
    ||| id == seq![0x56u8, 0x50, 0x38, 0x58]  // "VP8X"
    ||| id == seq![0x41u8, 0x4c, 0x50, 0x48]  // "ALPH"
    ||| id == seq![0x41u8, 0x4e, 0x49, 0x4d]  // "ANIM"
    ||| id == seq![0x41u8, 0x4e, 0x4d, 0x46]  // "ANMF"

}

/// The pure image-data chunks, the only ones kept under `All`.
pub open spec fn spec_webp_image_data(id: Seq<u8>) -> bool {
    ||| id == seq![0x56u8, 0x50, 0x38, 0x20]  // "VP8 "
    ||| id == seq![0x56u8, 0x50, 0x38, 0x4c]  // "VP8L"
    ||| id == seq![0x41u8, 0x4c, 0x50, 0x48]  // "ALPH"

}

/// Whether a chunk with identifier `id` survives under `mode`.
pub open spec fn spec_webp_keep(id: Seq<u8>, mode: StripMode) -> bool {
    match mode {
        StripMode::All => spec_webp_image_data(id),
        StripMode::Safe => spec_webp_essential(id),
        StripMode::Off => true,
    }
}

/// Whether `s` begins with a `RIFF`....`WEBP` header.
pub open spec fn spec_webp_header_ok(s: Seq<u8>) -> bool {
    &&& s.len() >= 12
    &&& s.subrange(0, 4) == seq![0x52u8, 0x49, 0x46, 0x46]  // "RIFF"
    &&& s.subrange(8, 12) == seq![0x57u8, 0x45, 0x42, 0x50]  // "WEBP"

}

/// The chunks of `s` that survive under `mode`, in their original order.
/// Meaningful only when the walk succeeds.
pub open spec fn spec_webp_kept(s: Seq<u8>, mode: StripMode) -> Seq<(Seq<u8>, Seq<u8>)> {
    spec_webp_chunks(s).unwrap().filter(|c: (Seq<u8>, Seq<u8>)| spec_webp_keep(c.0, mode))
}

/// The reconstructed WebP file: header with the size field patched to cover
/// the `WEBP` tag plus the retained chunk bytes, then the retained chunks
/// with their padding regenerated.
pub open spec fn spec_strip_webp(s: Seq<u8>, mode: StripMode) -> Seq<u8> {
    let body = spec_emit_chunks(spec_webp_kept(s, mode));
    seq![0x52u8, 0x49, 0x46, 0x46] + crate::bytes::spec_le32_bytes(
        (((body.len() + 4) % 0x100000000) as u32),
    ) + seq![0x57u8, 0x45, 0x42, 0x50] + body
}

/// Walks the RIFF chunk area of a WebP file, producing each chunk's
/// identifier and payload, or a decode error on a truncated chunk.
pub fn parse_webp_chunks(data: &[u8]) -> (r: Result<Vec<RiffChunk>, ProcessingError>)
    ensures
        match r {
            Ok(v) => webp_chunks_from(data@, 0) == Some(spec_chunks_view(v@)),
            Err(e) => webp_chunks_from(data@, 0) is None && e is Decode,
        },
{
    let mut chunks: Vec<RiffChunk> = Vec::new();
    let mut pos: usize = 0;
    while pos < data.len() && data.len() - pos >= 8
        invariant
            pos <= data@.len(),
            webp_chunks_from(data@, 0) == opt_prepend(
                spec_chunks_view(chunks@),
                webp_chunks_from(data@, pos as int),
            ),
        decreases data@.len() - pos,
    {
        let ghost prev_chunks = chunks@;
        let ghost p = pos as int;
        let id: [u8; 4] = [data[pos], data[pos + 1], data[pos + 2], data[pos + 3]];
        let size = read_le32(data, pos + 4) as usize;
        proof {
            assert(id@ =~= data@.subrange(p, p + 4));
            crate::bytes::lemma_le32_bounds(data@.subrange(p + 4, p + 8));
        }
        let avail = data.len() - (pos + 8);
        if size > avail {
            proof {
                assert(webp_chunks_from(data@, p) is None);
            }
            return Err(ProcessingError::Decode("WebP chunk overruns file".to_owned()));
        }
        let chunk_end = pos + 8 + size;
        let d = copy_range(data, pos + 8, chunk_end);
        chunks.push(RiffChunk { id, data: d });
        proof {
            assert(spec_chunks_view(chunks@) =~= spec_chunks_view(prev_chunks).push(
                (id@, data@.subrange(p + 8, p + 8 + size as int)),
            ));
            let next = if (p + 8 + size as int) % 2 == 1 {
                p + 8 + size + 1
            } else {
                p + 8 + size
            };
            let rec = (id@, data@.subrange(p + 8, p + 8 + size as int));
            if webp_chunks_from(data@, next) is Some {
                let tail = webp_chunks_from(data@, next).unwrap();
                assert(webp_chunks_from(data@, p) == Some(seq![rec] + tail));
                assert(spec_chunks_view(prev_chunks) + (seq![rec] + tail) =~= spec_chunks_view(
                    chunks@,
                ) + tail);
            } else {
                assert(webp_chunks_from(data@, p) is None);
            }
        }
        pos = chunk_end;
        if pos % 2 == 1 {
            if pos < data.len() {
                pos = pos + 1;
            } else {
                proof {
                    assert(webp_chunks_from(data@, pos as int) == Some(
                        Seq::<(Seq<u8>, Seq<u8>)>::empty(),
                    ));
                    assert(webp_chunks_from(data@, pos + 1 as int) == Some(
                        Seq::<(Seq<u8>, Seq<u8>)>::empty(),
                    ));
                    assert(spec_chunks_view(chunks@) + Seq::<(Seq<u8>, Seq<u8>)>::empty()
                        =~= spec_chunks_view(chunks@));
                }
                return Ok(chunks);
            }
        }
    }
    proof {
        assert(webp_chunks_from(data@, pos as int) == Some(Seq::<(Seq<u8>, Seq<u8>)>::empty()));
        assert(spec_chunks_view(chunks@) + Seq::<(Seq<u8>, Seq<u8>)>::empty() =~= spec_chunks_view(
            chunks@,
        ));
    }
    Ok(chunks)
}

/// Whether a chunk with identifier `id` survives under `mode`.
fn webp_keep(id: &[u8; 4], mode: StripMode) -> (r: bool)
    ensures
        r == spec_webp_keep(id@, mode),
{
    proof {
        assert(id@ =~= seq![id@[0], id@[1], id@[2], id@[3]]);
    }
    let vp8 = id[0] == 0x56 && id[1] == 0x50 && id[2] == 0x38 && id[3] == 0x20;
    let vp8l = id[0] == 0x56 && id[1] == 0x50 && id[2] == 0x38 && id[3] == 0x4c;
    let vp8x = id[0] == 0x56 && id[1] == 0x50 && id[2] == 0x38 && id[3] == 0x58;
    let alph = id[0] == 0x41 && id[1] == 0x4c && id[2] == 0x50 && id[3] == 0x48;
    let anim = id[0] == 0x41 && id[1] == 0x4e && id[2] == 0x49 && id[3] == 0x4d;
    let anmf = id[0] == 0x41 && id[1] == 0x4e && id[2] == 0x4d && id[3] == 0x46;
    match mode {
        StripMode::All => vp8 || vp8l || alph,
        StripMode::Safe => vp8 || vp8l || vp8x || alph || anim || anmf,
        StripMode::Off => true,
    }
}

/// Rebuilds a WebP file keeping only the chunks `mode` permits, with each
/// retained chunk's padding regenerated and the RIFF size field patched to
/// the new total. Under `Off` the input is returned unchanged; a missing
/// `RIFF`/`WEBP` header or a truncated chunk is a decode error.
pub fn strip_webp_metadata(input: &[u8], mode: StripMode) -> (r: Result<Vec<u8>, ProcessingError>)
    ensures
        mode is Off ==> (r matches Ok(v) && v@ == input@),
        !(mode is Off) && !spec_webp_header_ok(input@) ==> (r matches Err(e) && e is Decode),
        !(mode is Off) && spec_webp_header_ok(input@) && spec_webp_chunks(input@) is None ==> (
        r matches Err(e) && e is Decode),
        !(mode is Off) && spec_webp_header_ok(input@) && spec_webp_chunks(input@) is Some ==> (
        r matches Ok(v) && v@ == spec_strip_webp(input@, mode)),
{
    if mode == StripMode::Off {
        return Ok(vstd::slice::slice_to_vec(input));
    }
    if input.len() < 12 {
        return Err(ProcessingError::Decode("WebP file too small".to_owned()));
    }
    proof {
        assert(input@.subrange(0, 4) =~= seq![input@[0], input@[1], input@[2], input@[3]]);
        assert(input@.subrange(8, 12) =~= seq![input@[8], input@[9], input@[10], input@[11]]);
    }
    if !(input[0] == 0x52 && input[1] == 0x49 && input[2] == 0x46 && input[3] == 0x46 && input[8]
        == 0x57 && input[9] == 0x45 && input[10] == 0x42 && input[11] == 0x50) {
        return Err(ProcessingError::Decode("Invalid WebP signature".to_owned()));
    }
    let tail = vstd::slice::slice_subrange(input, 12, input.len());
    proof {
        assert(tail@ =~= input@.skip(12));
    }
    let chunks = match parse_webp_chunks(tail) {
        Ok(v) => v,
        Err(e) => {
            return Err(e);
        },
    };
    let ghost cs = spec_chunks_view(chunks@);
    let ghost keep_pred = |c: (Seq<u8>, Seq<u8>)| spec_webp_keep(c.0, mode);
    let mut body: Vec<u8> = Vec::new();
    let mut i: usize = 0;
    while i < chunks.len()
        invariant
            i <= chunks@.len(),
            cs == spec_chunks_view(chunks@),
            keep_pred == (|c: (Seq<u8>, Seq<u8>)| spec_webp_keep(c.0, mode)),
            body@ == spec_emit_chunks(cs.take(i as int).filter(keep_pred)),
        decreases chunks@.len() - i,
    {
        let ghost prev_body = body@;
        let c = &chunks[i];
        let keep = webp_keep(&c.id, mode);
        if keep {
            body.push(c.id[0]);
            body.push(c.id[1]);
            body.push(c.id[2]);
            body.push(c.id[3]);
            let len32: u32 = ((c.data.len() as u128) % 0x100000000) as u32;
            push_le32(&mut body, len32);
            push_bytes(&mut body, c.data.as_slice());
            if c.data.len() % 2 != 0 {
                body.push(0);
            }
            proof {
                assert(body@ =~= prev_body + spec_emit_chunk(cs[i as int]));
            }
        }
        proof {
            assert(cs.take(i + 1) =~= cs.take(i as int).push(cs[i as int]));
            lemma_filter_push(cs.take(i as int), keep_pred, cs[i as int]);
            assert(keep == keep_pred(cs[i as int]));
            if keep {
                lemma_emit_push(cs.take(i as int).filter(keep_pred), cs[i as int]);
            }
        }
        i = i + 1;
    }
    proof {
        assert(cs.take(cs.len() as int) =~= cs);
    }
    let mut output: Vec<u8> = Vec::new();
    output.push(0x52);
    output.push(0x49);
    output.push(0x46);
    output.push(0x46);
    let riff_size: u32 = (((body.len() as u128) + 4) % 0x100000000) as u32;
    push_le32(&mut output, riff_size);
    output.push(0x57);
    output.push(0x45);
    output.push(0x42);
    output.push(0x50);
    push_bytes(&mut output, body.as_slice());
    proof {
        assert(output@ =~= spec_strip_webp(input@, mode));
    }
    Ok(output)
}

/// Every chunk a successful walk produces has a 4-byte identifier and a
/// payload shorter than 2^32 bytes.
pub proof fn lemma_webp_chunks_wf(s: Seq<u8>, pos: int)
    requires
        0 <= pos,
        webp_chunks_from(s, pos) is Some,
    ensures
        forall|k: int|
            0 <= k < webp_chunks_from(s, pos).unwrap().len() ==> (#[trigger] webp_chunks_from(
                s,
                pos,
            ).unwrap()[k]).0.len() == 4 && webp_chunks_from(s, pos).unwrap()[k].1.len()
                < 0x100000000,
    decreases s.len() + 1 - pos,
{
    if pos + 8 <= s.len() {
        let size = spec_le32(s.subrange(pos + 4, pos + 8));
        crate::bytes::lemma_le32_bounds(s.subrange(pos + 4, pos + 8));
        if pos + 8 + size <= s.len() {
            let next = if (pos + 8 + size) % 2 == 1 {
                pos + 8 + size + 1
            } else {
                pos + 8 + size
            };
            lemma_webp_chunks_wf(s, next);
            let head = (s.subrange(pos, pos + 4), s.subrange(pos + 8, pos + 8 + size));
            let rest = webp_chunks_from(s, next).unwrap();
            let whole = webp_chunks_from(s, pos).unwrap();
            assert forall|k: int|
                0 <= k < whole.len() implies (#[trigger] whole[k]).0.len() == 4
                && whole[k].1.len() < 0x100000000 by {
                if k == 0 {
                    assert(whole[0] == head);
                } else {
                    assert(whole[k] == rest[k - 1]);
                }
            }
        }
    }
}

/// Walking the emitted wire form of a well-formed chunk list, from an even
/// position whose suffix is exactly that wire form, succeeds and recovers
/// the list.
#[verifier::rlimit(100)]
proof fn lemma_webp_walk_emit_from(s: Seq<u8>, pos: int, cs: Seq<(Seq<u8>, Seq<u8>)>)
    requires
        0 <= pos <= s.len(),
        pos % 2 == 0,
        s.subrange(pos, s.len() as int) == spec_emit_chunks(cs),
        forall|k: int|
            0 <= k < cs.len() ==> (#[trigger] cs[k]).0.len() == 4 && cs[k].1.len() < 0x100000000,
    ensures
        webp_chunks_from(s, pos) == Some(cs),
    decreases cs.len(),
{
    if cs.len() == 0 {
        assert(spec_emit_chunks(cs) == Seq::<u8>::empty());
        assert(s.len() - pos == 0);
        assert(webp_chunks_from(s, pos) == Some(Seq::<(Seq<u8>, Seq<u8>)>::empty()));
        assert(cs =~= Seq::<(Seq<u8>, Seq<u8>)>::empty());
    } else {
        let c0 = cs[0];
        assert(c0.0.len() == 4 && c0.1.len() < 0x100000000);
        let rest = cs.drop_first();
        assert(cs =~= seq![c0] + rest);
        crate::riff::lemma_emit_concat(seq![c0], rest);
        crate::riff::lemma_emit_singleton(c0);
        let erest = spec_emit_chunks(rest);
        crate::riff::lemma_emit_chunk_parses_back(s, pos, c0, erest);
        let d = c0.1.len() as int;
        let size = spec_le32(s.subrange(pos + 4, pos + 8));
        assert(size == d);
        let next = if (pos + 8 + d) % 2 == 1 {
            pos + 8 + d + 1
        } else {
            pos + 8 + d
        };
        assert forall|k: int|
            0 <= k < rest.len() implies (#[trigger] rest[k]).0.len() == 4 && rest[k].1.len()
            < 0x100000000 by {
            assert(rest[k] == cs[k + 1]);
        }
        assert(s.subrange(pos, s.len() as int).len() == s.len() - pos);
        assert(spec_emit_chunks(cs) == spec_emit_chunk(c0) + erest);
        assert((spec_emit_chunk(c0) + erest).len() == spec_emit_chunk(c0).len() + erest.len());
        assert(s.len() - pos == spec_emit_chunk(c0).len() + erest.len());
        assert(next == pos + spec_emit_chunk(c0).len());
        assert(0 <= next <= s.len());
        assert(s.subrange(next, s.len() as int) == erest);
        lemma_webp_walk_emit_from(s, next, rest);
        assert(webp_chunks_from(s, pos) == Some(seq![(c0.0, c0.1)] + rest));
        assert((c0.0, c0.1) == c0);
        assert(seq![c0] + rest =~= cs);
    }
}

/// The reconstructed output walks cleanly, and its chunk list is exactly the
/// kept list.
pub proof fn lemma_webp_strip_parses_back(s: Seq<u8>, mode: StripMode)
    requires
        spec_webp_header_ok(s),
        spec_webp_chunks(s) is Some,
    ensures
        spec_webp_header_ok(spec_strip_webp(s, mode)),
        spec_webp_chunks(spec_strip_webp(s, mode)) == Some(spec_webp_kept(s, mode)),
{
    let out = spec_strip_webp(s, mode);
    let kept = spec_webp_kept(s, mode);
    let keep_pred = |c: (Seq<u8>, Seq<u8>)| spec_webp_keep(c.0, mode);
    let body = spec_emit_chunks(kept);
    assert(out.subrange(0, 4) =~= seq![0x52u8, 0x49, 0x46, 0x46]);
    assert(out.subrange(8, 12) =~= seq![0x57u8, 0x45, 0x42, 0x50]);
    lemma_webp_chunks_wf(s.skip(12), 0);
    assert forall|k: int|
        0 <= k < kept.len() implies (#[trigger] kept[k]).0.len() == 4 && kept[k].1.len()
        < 0x100000000 by {
        assert(kept.contains(kept[k]));
        crate::bytes::lemma_filter_is_subset(spec_webp_chunks(s).unwrap(), keep_pred, kept[k]);
        let j = choose|j: int|
            0 <= j < spec_webp_chunks(s).unwrap().len() && spec_webp_chunks(s).unwrap()[j]
                == kept[k];
        assert(spec_webp_chunks(s).unwrap()[j].0.len() == 4);
    }
    let tail = out.skip(12);
    assert(tail =~= body);
    assert(tail.subrange(0, tail.len() as int) =~= body);
    lemma_webp_walk_emit_from(tail, 0, kept);
}

/// Re-stripping an already-stripped WebP file yields the same bytes: the
/// reconstruction is a fixed point of the strip under the same policy.
pub proof fn lemma_webp_strip_converges(s: Seq<u8>, mode: StripMode)
    requires
        spec_webp_header_ok(s),
        spec_webp_chunks(s) is Some,
    ensures
        spec_webp_header_ok(spec_strip_webp(s, mode)),
        spec_webp_chunks(spec_strip_webp(s, mode)) is Some,
        spec_strip_webp(spec_strip_webp(s, mode), mode) == spec_strip_webp(s, mode),
{
    let out = spec_strip_webp(s, mode);
    let kept = spec_webp_kept(s, mode);
    let keep_pred = |c: (Seq<u8>, Seq<u8>)| spec_webp_keep(c.0, mode);
    lemma_webp_strip_parses_back(s, mode);
    assert forall|k: int| 0 <= k < kept.len() implies keep_pred(#[trigger] kept[k]) by {
        spec_webp_chunks(s).unwrap().lemma_filter_pred(keep_pred, k);
    }
    crate::bytes::lemma_filter_all(kept, keep_pred);
    assert(spec_webp_kept(out, mode) == kept);
    assert(spec_strip_webp(out, mode) == spec_strip_webp(s, mode));
}

/// The patched RIFF size field of the reconstruction always equals the
/// output's length less the 8 header bytes, reduced modulo 2^32; whenever
/// that length fits the field, it equals it exactly.
pub proof fn lemma_webp_size_field(s: Seq<u8>, mode: StripMode)
    ensures
        ({
            let out = spec_strip_webp(s, mode);
            &&& out.len() >= 12
            &&& spec_le32(out.subrange(4, 8)) == (out.len() - 8) % 0x100000000
            &&& (out.len() - 8 < 0x100000000 ==> spec_le32(out.subrange(4, 8)) == out.len() - 8)
        }),
{
    let out = spec_strip_webp(s, mode);
    let body = spec_emit_chunks(spec_webp_kept(s, mode));
    let n32 = (((body.len() + 4) % 0x100000000) as u32);
    assert(out.subrange(4, 8) =~= crate::bytes::spec_le32_bytes(n32));
    crate::bytes::lemma_le32_round_trip(n32);
    assert(out.len() == 12 + body.len());
}

/// The image-data chunks (`VP8 `, `VP8L`, `ALPH`) survive under every
/// policy: any such chunk of the input is in the kept list, payload and all.
pub proof fn lemma_webp_image_data_kept(s: Seq<u8>, mode: StripMode, k: int)
    requires
        spec_webp_chunks(s) is Some,
        0 <= k < spec_webp_chunks(s).unwrap().len(),
        spec_webp_image_data(spec_webp_chunks(s).unwrap()[k].0),
    ensures
        spec_webp_kept(s, mode).contains(spec_webp_chunks(s).unwrap()[k]),
{
    let keep_pred = |c: (Seq<u8>, Seq<u8>)| spec_webp_keep(c.0, mode);
    assert(keep_pred(spec_webp_chunks(s).unwrap()[k]));
    spec_webp_chunks(s).unwrap().lemma_filter_contains(keep_pred, k);
}

/// The description of each chunk type.
pub open spec fn spec_webp_chunk_info(id: Seq<char>) -> Seq<char> {
    if id == "VP8 "@ {
        "Lossy VP8 bitstream"@
    } else if id == "VP8L"@ {
        "Lossless VP8L bitstream"@
    } else if id == "VP8X"@ {
        "Extended file format"@
    } else if id == "ANIM"@ {
        "Animation parameters"@
    } else if id == "ANMF"@ {
        "Animation frame"@
    } else if id == "ALPH"@ {
        "Alpha channel"@
    } else if id == "ICCP"@ {
        "ICC Color Profile"@
    } else if id == "EXIF"@ {
        "EXIF metadata"@
    } else if id == "XMP "@ {
        "XMP metadata"@
    } else {
        "Unknown chunk"@
    }
}

/// A human-readable description of a WebP chunk type.
pub fn get_webp_chunk_info(chunk_type: &str) -> (r: &'static str)
    ensures
        r@ == spec_webp_chunk_info(chunk_type@),
{
    if crate::bytes::str_eq(chunk_type, "VP8 ") {
        "Lossy VP8 bitstream"
    } else if crate::bytes::str_eq(chunk_type, "VP8L") {
        "Lossless VP8L bitstream"
    } else if crate::bytes::str_eq(chunk_type, "VP8X") {
        "Extended file format"
    } else if crate::bytes::str_eq(chunk_type, "ANIM") {
        "Animation parameters"
    } else if crate::bytes::str_eq(chunk_type, "ANMF") {
        "Animation frame"
    } else if crate::bytes::str_eq(chunk_type, "ALPH") {
        "Alpha channel"
    } else if crate::bytes::str_eq(chunk_type, "ICCP") {
        "ICC Color Profile"
    } else if crate::bytes::str_eq(chunk_type, "EXIF") {
        "EXIF metadata"
    } else if crate::bytes::str_eq(chunk_type, "XMP ") {
        "XMP metadata"
    } else {
        "Unknown chunk"
    }
}

/// The value of a 3-byte little-endian field.
pub open spec fn spec_le24(b: Seq<u8>) -> int
    recommends
        b.len() == 3,
{
    b[0] + b[1] * 0x100 + b[2] * 0x10000
}

/// The fields of a `VP8X` payload: the feature-flag byte and the canvas
/// width and height (each stored minus one in 24 bits). `None` when the
/// payload is shorter than the 10 bytes they occupy.
pub fn vp8x_info(data: &[u8]) -> (r: Option<(u8, u32, u32)>)
    ensures
        r is Some <==> data@.len() >= 10,
        r matches Some(f) ==> f.0 == data@[0] && f.1 == spec_le24(data@.subrange(4, 7)) + 1 && f.2
            == spec_le24(data@.subrange(7, 10)) + 1,
{
    if data.len() < 10 {
        return None;
    }
    let w = (data[4] as u32) + (data[5] as u32) * 0x100 + (data[6] as u32) * 0x10000;
    let h = (data[7] as u32) + (data[8] as u32) * 0x100 + (data[9] as u32) * 0x10000;
    proof {
        assert(data@.subrange(4, 7)[0] == data@[4]);
        assert(data@.subrange(4, 7)[1] == data@[5]);
        assert(data@.subrange(4, 7)[2] == data@[6]);
        assert(data@.subrange(7, 10)[0] == data@[7]);
        assert(data@.subrange(7, 10)[1] == data@[8]);
        assert(data@.subrange(7, 10)[2] == data@[9]);
    }
    Some((data[0], w + 1, h + 1))
}

/// The frame dimensions of a `VP8 ` payload, masked to their 14 significant
/// bits. `None` when the payload is shorter than 10 bytes or its start code
/// is absent.
pub fn vp8_dimensions(data: &[u8]) -> (r: Option<(u16, u16)>)
    ensures
        r is Some <==> (data@.len() >= 10 && data@[3] == 0x9d && data@[4] == 0x01 && data@[5]
            == 0x2a),
        r matches Some(d) ==> d.0 == (data@[6] + data@[7] * 0x100) as u16 & 0x3fff && d.1 == (
        data@[8] + data@[9] * 0x100) as u16 & 0x3fff,
{
    if data.len() < 10 {
        return None;
    }
    if !(data[3] == 0x9d && data[4] == 0x01 && data[5] == 0x2a) {
        return None;
    }
    let w: u16 = ((data[6] as u16) + (data[7] as u16) * 0x100) & 0x3fff;
    let h: u16 = ((data[8] as u16) + (data[9] as u16) * 0x100) & 0x3fff;
    Some((w, h))
}

} // verus!
