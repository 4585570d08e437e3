//! The PNG container engine: a chunk walker, a criticality classifier, and a
//! reconstructor that re-emits the signature and the retained chunks
//! verbatim. PNG has no file-level size field to patch.

use crate::bytes::{
    copy_range, lemma_filter_push, push_be32, push_bytes, read_be32, spec_be32, spec_be32_bytes,
};
use crate::config::StripMode;
use crate::error::ProcessingError;
use vstd::prelude::*;
use vstd::seq_lib::*;

verus! {

/// A PNG processing stage, holding no state of its own.
pub struct PngProcessor;

/// One PNG chunk: a 4-byte ASCII type, its payload, and its stored CRC,
/// which is passed through unvalidated.
pub struct PngChunk {
    pub id: [u8; 4],
    pub data: Vec<u8>,
    pub crc: [u8; 4],
}

/// The (type, payload, crc) view of a parsed chunk list.
pub open spec fn spec_png_view(v: Seq<PngChunk>) -> Seq<(Seq<u8>, Seq<u8>, Seq<u8>)> {
    v.map_values(|c: PngChunk| (c.id@, c.data@, c.crc@))
}

/// The chunk records of the PNG chunk area `s`, walking from byte `pos`, or
/// `None` when a chunk's declared length overruns the buffer.
///
/// Each chunk is a 4-byte big-endian length, a 4-byte type, that many payload
/// bytes, and a 4-byte CRC. Fewer than 8 trailing bytes end the walk.
pub open spec fn png_chunks_from(s: Seq<u8>, pos: int) -> Option<Seq<(Seq<u8>, Seq<u8>, Seq<u8>)>>
    decreases s.len() + 1 - pos,
    when 0 <= pos
{
    if pos + 8 <= s.len() {
        let len = spec_be32(s.subrange(pos, pos + 4));
        let id = s.subrange(pos + 4, pos + 8);
        if pos + 12 + len > s.len() {
            None
        } else {
            let data = s.subrange(pos + 8, pos + 8 + len);
            let crc = s.subrange(pos + 8 + len, pos + 12 + len);
            match png_chunks_from(s, pos + 12 + len) {
                Some(rest) => Some(seq![(id, data, crc)] + rest),
                None => None,
            }
        }
    } else {
        Some(Seq::empty())
    }
}

/// Prepends already-walked chunks to the outcome of walking the rest.
pub open spec fn png_opt_prepend(front: Seq<(Seq<u8>, Seq<u8>, Seq<u8>)>, rest: Option<
    Seq<(Seq<u8>, Seq<u8>, Seq<u8>)>,
>) -> Option<Seq<(Seq<u8>, Seq<u8>, Seq<u8>)>> {
    match rest {
        Some(t) => Some(front + t),
        None => None,
    }
}

/// The 8-byte PNG signature.
pub open spec fn spec_png_signature() -> Seq<u8> {
    seq![0x89u8, 0x50, 0x4e, 0x47, 0x0d, 0x0a, 0x1a, 0x0a]
}

/// Whether `s` begins with the PNG signature.
pub open spec fn spec_png_header_ok(s: Seq<u8>) -> bool {
    s.len() >= 8 && s.subrange(0, 8) == spec_png_signature()
}

/// The chunks of a whole PNG file: the chunk area follows the signature.
pub open spec fn spec_png_chunks(s: Seq<u8>) -> Option<Seq<(Seq<u8>, Seq<u8>, Seq<u8>)>> {
    png_chunks_from(s.skip(8), 0)
}

/// Whether a chunk type is critical: bit 0x20 of its first byte is clear.
pub open spec fn spec_png_critical(id: Seq<u8>) -> bool
    recommends
        id.len() == 4,
{
    id[0] & 0x20 == 0
}

/// The ancillary chunks needed for correct rendering or colour
/// interpretation, kept alongside the critical ones.
pub open spec fn spec_png_safe_ancillary(id: Seq<u8>) -> bool {
    ||| id == seq![0x74u8, 0x52, 0x4e, 0x53]  // "tRNS"
    ||| id == seq![0x67u8, 0x41, 0x4d, 0x41]  // "gAMA"
    ||| id == seq![0x63u8, 0x48, 0x52, 0x4d]  // "cHRM"
    ||| id == seq![0x73u8, 0x52, 0x47, 0x42]  // "sRGB"
    ||| id == seq![0x73u8, 0x42, 0x49, 0x54]  // "sBIT"
    ||| id == seq![0x70u8, 0x48, 0x59, 0x73]  // "pHYs"

}

/// Whether a chunk with type `id` survives under `mode`. `All` and `Safe`
/// keep the same set for PNG: critical chunks plus the safe ancillary set.
pub open spec fn spec_png_keep(id: Seq<u8>, mode: StripMode) -> bool {
    match mode {
        StripMode::All => spec_png_critical(id) || spec_png_safe_ancillary(id),
        StripMode::Safe => spec_png_critical(id) || spec_png_safe_ancillary(id),
        StripMode::Off => true,
    }
}

/// The wire form of one chunk on output: length recomputed from the payload,
/// type, payload, and the stored CRC, all as they were read.
pub open spec fn spec_emit_png_chunk(c: (Seq<u8>, Seq<u8>, Seq<u8>)) -> Seq<u8> {
    spec_be32_bytes(((c.1.len() % 0x100000000) as u32)) + c.0 + c.1 + c.2
}

/// The concatenated wire form of a chunk list.
pub open spec fn spec_emit_png_chunks(cs: Seq<(Seq<u8>, Seq<u8>, Seq<u8>)>) -> Seq<u8>
    decreases cs.len(),
{
    if cs.len() == 0 {
        Seq::empty()
    } else {
        spec_emit_png_chunks(cs.drop_last()) + spec_emit_png_chunk(cs.last())
    }
}

/// Emitting a chunk list with one more chunk appends that chunk's wire form.
pub proof fn lemma_emit_png_push(cs: Seq<(Seq<u8>, Seq<u8>, Seq<u8>)>, c: (Seq<u8>, Seq<u8>, Seq<u8>))
    ensures
        spec_emit_png_chunks(cs.push(c)) == spec_emit_png_chunks(cs) + spec_emit_png_chunk(c),
{
    assert(cs.push(c).drop_last() =~= cs);
    assert(cs.push(c).last() == c);
}

/// The chunks of `s` that survive under `mode`, in their original order.
/// Meaningful only when the walk succeeds.
pub open spec fn spec_png_kept(s: Seq<u8>, mode: StripMode) -> Seq<(Seq<u8>, Seq<u8>, Seq<u8>)> {
    spec_png_chunks(s).unwrap().filter(|c: (Seq<u8>, Seq<u8>, Seq<u8>)| spec_png_keep(c.0, mode))
}

/// The reconstructed PNG file: the signature, then the retained chunks.
pub open spec fn spec_strip_png(s: Seq<u8>, mode: StripMode) -> Seq<u8> {
    spec_png_signature() + spec_emit_png_chunks(spec_png_kept(s, mode))
}

/// Walks the chunk area of a PNG file, producing each chunk's type, payload,
/// and stored CRC, or a decode error on a truncated chunk.
pub fn parse_png_chunks(data: &[u8]) -> (r: Result<Vec<PngChunk>, ProcessingError>)
    ensures
        match r {
            Ok(v) => png_chunks_from(data@, 0) == Some(spec_png_view(v@)),
            Err(e) => png_chunks_from(data@, 0) is None && e is Decode,
        },
{
    let mut chunks: Vec<PngChunk> = Vec::new();
    let mut pos: usize = 0;
    while pos < data.len() && data.len() - pos >= 8
        invariant
            pos <= data@.len(),
            png_chunks_from(data@, 0) == png_opt_prepend(
                spec_png_view(chunks@),
                png_chunks_from(data@, pos as int),
            ),
        decreases data@.len() - pos,
    {
        let ghost prev_chunks = chunks@;
        let ghost p = pos as int;
        let len = read_be32(data, pos) as usize;
        let id: [u8; 4] = [data[pos + 4], data[pos + 5], data[pos + 6], data[pos + 7]];
        proof {
            assert(id@ =~= data@.subrange(p + 4, p + 8));
            crate::bytes::lemma_be32_bounds(data@.subrange(p, p + 4));
        }
        let avail = data.len() - (pos + 8);
        if len > avail || avail - len < 4 {
            proof {
                assert(png_chunks_from(data@, p) is None);
            }
            return Err(ProcessingError::Decode("PNG chunk overruns file".to_owned()));
        }
        let data_end = pos + 8 + len;
        let d = copy_range(data, pos + 8, data_end);
        let crc: [u8; 4] = [data[data_end], data[data_end + 1], data[data_end + 2], data[data_end
            + 3]];
        chunks.push(PngChunk { id, data: d, crc });
        proof {
            let rec = (
                id@,
                data@.subrange(p + 8, p + 8 + len as int),
                data@.subrange(p + 8 + len, p + 12 + len),
            );
            assert(crc@ =~= data@.subrange(p + 8 + len, p + 12 + len));
            assert(spec_png_view(chunks@) =~= spec_png_view(prev_chunks).push(rec));
            let next = p + 12 + len;
            if png_chunks_from(data@, next) is Some {
                let tail = png_chunks_from(data@, next).unwrap();
                assert(png_chunks_from(data@, p) == Some(seq![rec] + tail));
                assert(spec_png_view(prev_chunks) + (seq![rec] + tail) =~= spec_png_view(chunks@)
                    + tail);
            } else {
                assert(png_chunks_from(data@, p) is None);
            }
        }
        pos = data_end + 4;
    }
    proof {
        assert(png_chunks_from(data@, pos as int) == Some(
            Seq::<(Seq<u8>, Seq<u8>, Seq<u8>)>::empty(),
        ));
        assert(spec_png_view(chunks@) + Seq::<(Seq<u8>, Seq<u8>, Seq<u8>)>::empty()
            =~= spec_png_view(chunks@));
    }
    Ok(chunks)
}

/// Whether a chunk with type `id` survives under `mode`.
fn png_keep(id: &[u8; 4], mode: StripMode) -> (r: bool)
    ensures
        r == spec_png_keep(id@, mode),
{
    proof {
        assert(id@ =~= seq![id@[0], id@[1], id@[2], id@[3]]);
    }
    let critical = id[0] & 0x20 == 0;
    let safe_ancillary = (id[0] == 0x74 && id[1] == 0x52 && id[2] == 0x4e && id[3] == 0x53) || (
    id[0] == 0x67 && id[1] == 0x41 && id[2] == 0x4d && id[3] == 0x41) || (id[0] == 0x63 && id[1]
        == 0x48 && id[2] == 0x52 && id[3] == 0x4d) || (id[0] == 0x73 && id[1] == 0x52 && id[2]
        == 0x47 && id[3] == 0x42) || (id[0] == 0x73 && id[1] == 0x42 && id[2] == 0x49 && id[3]
        == 0x54) || (id[0] == 0x70 && id[1] == 0x48 && id[2] == 0x59 && id[3] == 0x73);
    match mode {
        StripMode::All => critical || safe_ancillary,
        StripMode::Safe => critical || safe_ancillary,
        StripMode::Off => true,
    }
}

/// Rebuilds a PNG file keeping only the chunks `mode` permits: the signature
/// is re-emitted, retained chunks are copied verbatim (length, type, payload,
/// CRC). Under `Off` the input is returned unchanged; a missing signature or
/// a truncated chunk is a decode error.
pub fn strip_png_metadata(input: &[u8], mode: StripMode) -> (r: Result<Vec<u8>, ProcessingError>)
    ensures
        mode is Off ==> (r matches Ok(v) && v@ == input@),
        !(mode is Off) && !spec_png_header_ok(input@) ==> (r matches Err(e) && e is Decode),
        !(mode is Off) && spec_png_header_ok(input@) && spec_png_chunks(input@) is None ==> (
        r matches Err(e) && e is Decode),
        !(mode is Off) && spec_png_header_ok(input@) && spec_png_chunks(input@) is Some ==> (
        r matches Ok(v) && v@ == spec_strip_png(input@, mode)),
{
    if mode == StripMode::Off {
        return Ok(vstd::slice::slice_to_vec(input));
    }
    if input.len() < 8 {
        return Err(ProcessingError::Decode("PNG file too small".to_owned()));
    }
    proof {
        assert(input@.subrange(0, 8) =~= seq![
            input@[0],
            input@[1],
            input@[2],
            input@[3],
            input@[4],
            input@[5],
            input@[6],
            input@[7],
        ]);
    }
    if !(input[0] == 0x89 && input[1] == 0x50 && input[2] == 0x4e && input[3] == 0x47 && input[4]
        == 0x0d && input[5] == 0x0a && input[6] == 0x1a && input[7] == 0x0a) {
        return Err(ProcessingError::Decode("Invalid PNG signature".to_owned()));
    }
    let tail = vstd::slice::slice_subrange(input, 8, input.len());
    proof {
        assert(tail@ =~= input@.skip(8));
    }
    let chunks = match parse_png_chunks(tail) {
        Ok(v) => v,
        Err(e) => {
            return Err(e);
        },
    };
    let ghost cs = spec_png_view(chunks@);
    let ghost keep_pred = |c: (Seq<u8>, Seq<u8>, Seq<u8>)| spec_png_keep(c.0, mode);
    let mut output: Vec<u8> = Vec::new();
    output.push(0x89);
    output.push(0x50);
    output.push(0x4e);
    output.push(0x47);
    output.push(0x0d);
    output.push(0x0a);
    output.push(0x1a);
    output.push(0x0a);
    proof {
        assert(output@ =~= spec_png_signature());
    }
    let mut i: usize = 0;
    while i < chunks.len()
        invariant
            i <= chunks@.len(),
            cs == spec_png_view(chunks@),
            keep_pred == (|c: (Seq<u8>, Seq<u8>, Seq<u8>)| spec_png_keep(c.0, mode)),
            output@ == spec_png_signature() + spec_emit_png_chunks(
                cs.take(i as int).filter(keep_pred),
            ),
        decreases chunks@.len() - i,
    {
        let ghost prev_out = output@;
        let c = &chunks[i];
        let keep = png_keep(&c.id, mode);
        if keep {
            let len32: u32 = ((c.data.len() as u128) % 0x100000000) as u32;
            push_be32(&mut output, len32);
            output.push(c.id[0]);
            output.push(c.id[1]);
            output.push(c.id[2]);
            output.push(c.id[3]);
            push_bytes(&mut output, c.data.as_slice());
            output.push(c.crc[0]);
            output.push(c.crc[1]);
            output.push(c.crc[2]);
            output.push(c.crc[3]);
            proof {
                assert(output@ =~= prev_out + spec_emit_png_chunk(cs[i as int]));
            }
        }
        proof {
            assert(cs.take(i + 1) =~= cs.take(i as int).push(cs[i as int]));
            lemma_filter_push(cs.take(i as int), keep_pred, cs[i as int]);
            assert(keep == keep_pred(cs[i as int]));
            if keep {
                lemma_emit_png_push(cs.take(i as int).filter(keep_pred), cs[i as int]);
            }
        }
        i = i + 1;
    }
    proof {
        assert(cs.take(cs.len() as int) =~= cs);
        assert(output@ == spec_strip_png(input@, mode));
    }
    Ok(output)
}

/// Emitting the concatenation of two chunk lists concatenates their wire
/// forms.
pub proof fn lemma_emit_png_concat(a: Seq<(Seq<u8>, Seq<u8>, Seq<u8>)>, b: Seq<
    (Seq<u8>, Seq<u8>, Seq<u8>),
>)
    ensures
        spec_emit_png_chunks(a + b) == spec_emit_png_chunks(a) + spec_emit_png_chunks(b),
    decreases b.len(),
{
    if b.len() == 0 {
        assert(a + b =~= a);
        assert(spec_emit_png_chunks(a) + spec_emit_png_chunks(b) =~= spec_emit_png_chunks(a));
    } else {
        assert((a + b).drop_last() =~= a + b.drop_last());
        assert((a + b).last() == b.last());
        lemma_emit_png_concat(a, b.drop_last());
        assert(spec_emit_png_chunks(a) + spec_emit_png_chunks(b.drop_last()) + spec_emit_png_chunk(
            b.last(),
        ) =~= spec_emit_png_chunks(a) + (spec_emit_png_chunks(b.drop_last())
            + spec_emit_png_chunk(b.last())));
    }
}

/// The wire form of a single chunk, as a one-element list.
pub proof fn lemma_emit_png_singleton(c: (Seq<u8>, Seq<u8>, Seq<u8>))
    ensures
        spec_emit_png_chunks(seq![c]) == spec_emit_png_chunk(c),
{
    assert(seq![c].drop_last() =~= Seq::<(Seq<u8>, Seq<u8>, Seq<u8>)>::empty());
    assert(seq![c].last() == c);
    assert(spec_emit_png_chunks(Seq::<(Seq<u8>, Seq<u8>, Seq<u8>)>::empty())
        == Seq::<u8>::empty());
    assert(Seq::<u8>::empty() + spec_emit_png_chunk(c) =~= spec_emit_png_chunk(c));
}

/// Reading one emitted chunk back from the front of its wire form: the
/// fields parse to the chunk that was emitted, and the rest of the buffer
/// follows directly after it.
#[verifier::rlimit(100)]
proof fn lemma_png_emit_chunk_parses_back(s: Seq<u8>, pos: int, c0: (Seq<u8>, Seq<u8>, Seq<u8>), erest: Seq<u8>)
    requires
        0 <= pos <= s.len(),
        c0.0.len() == 4,
        c0.1.len() < 0x100000000,
        c0.2.len() == 4,
        s.subrange(pos, s.len() as int) == spec_emit_png_chunk(c0) + erest,
    ensures
        pos + 8 <= s.len(),
        spec_be32(s.subrange(pos, pos + 4)) == c0.1.len(),
        s.subrange(pos + 4, pos + 8) == c0.0,
        pos + 12 + c0.1.len() <= s.len(),
        s.subrange(pos + 8, pos + 8 + c0.1.len() as int) == c0.1,
        s.subrange(pos + 8 + c0.1.len(), pos + 12 + c0.1.len()) == c0.2,
        pos + 12 + c0.1.len() == pos + spec_emit_png_chunk(c0).len(),
        s.subrange(pos + 12 + c0.1.len(), s.len() as int) == erest,
{
    let sub = s.subrange(pos, s.len() as int);
    let e0 = spec_emit_png_chunk(c0);
    let d = c0.1.len() as int;
    let lenb = spec_be32_bytes(((d % 0x100000000) as u32));
    assert(e0 == lenb + c0.0 + c0.1 + c0.2);
    assert(lenb.len() == 4);
    assert(e0.len() == 12 + d);
    assert(sub.len() == s.len() - pos);
    assert(sub.len() == e0.len() + erest.len());
    assert forall|i: int| 0 <= i < e0.len() implies s[pos + i] == e0[i] by {
        assert(sub[i] == (e0 + erest)[i]);
        assert(s[pos + i] == sub[i]);
    }
    assert forall|i: int| 0 <= i < 4 implies e0[i] == lenb[i] by {
        assert(e0[i] == ((lenb + c0.0) + c0.1)[i]);
        assert(((lenb + c0.0) + c0.1)[i] == (lenb + c0.0)[i]);
    }
    assert forall|i: int| 0 <= i < 4 implies e0[4 + i] == c0.0[i] by {
        assert(e0[4 + i] == ((lenb + c0.0) + c0.1)[4 + i]);
        assert(((lenb + c0.0) + c0.1)[4 + i] == (lenb + c0.0)[4 + i]);
    }
    assert forall|i: int| 0 <= i < d implies e0[8 + i] == c0.1[i] by {
        assert(e0[8 + i] == ((lenb + c0.0) + c0.1)[8 + i]);
    }
    assert forall|i: int| 0 <= i < 4 implies e0[8 + d + i] == c0.2[i] by {
        assert(e0[8 + d + i] == c0.2[i]);
    }
    assert(s.subrange(pos, pos + 4) =~= lenb);
    assert(s.subrange(pos + 4, pos + 8) =~= c0.0);
    crate::bytes::lemma_be32_round_trip(((d % 0x100000000) as u32));
    assert(s.subrange(pos + 8, pos + 8 + d) =~= c0.1);
    assert(s.subrange(pos + 8 + d, pos + 12 + d) =~= c0.2);
    assert forall|i: int| 0 <= i < erest.len() implies s[pos + 12 + d + i] == erest[i] by {
        assert(sub[e0.len() + i] == (e0 + erest)[e0.len() + i]);
        assert(s[pos + (e0.len() + i)] == sub[e0.len() + i]);
    }
    assert(s.subrange(pos + 12 + d, s.len() as int) =~= erest);
}

/// Every chunk a successful walk produces has a 4-byte type, a payload
/// shorter than 2^32 bytes, and a 4-byte CRC.
pub proof fn lemma_png_chunks_wf(s: Seq<u8>, pos: int)
    requires
        0 <= pos,
        png_chunks_from(s, pos) is Some,
    ensures
        forall|k: int|
            0 <= k < png_chunks_from(s, pos).unwrap().len() ==> (#[trigger] png_chunks_from(
                s,
                pos,
            ).unwrap()[k]).0.len() == 4 && png_chunks_from(s, pos).unwrap()[k].1.len()
                < 0x100000000 && png_chunks_from(s, pos).unwrap()[k].2.len() == 4,
    decreases s.len() + 1 - pos,
{
    if pos + 8 <= s.len() {
        let len = spec_be32(s.subrange(pos, pos + 4));
        crate::bytes::lemma_be32_bounds(s.subrange(pos, pos + 4));
        if pos + 12 + len <= s.len() {
            lemma_png_chunks_wf(s, pos + 12 + len);
            let head = (
                s.subrange(pos + 4, pos + 8),
                s.subrange(pos + 8, pos + 8 + len),
                s.subrange(pos + 8 + len, pos + 12 + len),
            );
            let rest = png_chunks_from(s, pos + 12 + len).unwrap();
            let whole = png_chunks_from(s, pos).unwrap();
            assert forall|k: int|
                0 <= k < whole.len() implies (#[trigger] whole[k]).0.len() == 4
                && whole[k].1.len() < 0x100000000 && whole[k].2.len() == 4 by {
                if k == 0 {
                    assert(whole[0] == head);
                } else {
                    assert(whole[k] == rest[k - 1]);
                }
            }
        }
    }
}

/// Walking the emitted wire form of a well-formed chunk list, from a
/// position whose suffix is exactly that wire form, succeeds and recovers
/// the list.
#[verifier::rlimit(100)]
proof fn lemma_png_walk_emit_from(s: Seq<u8>, pos: int, cs: Seq<(Seq<u8>, Seq<u8>, Seq<u8>)>)
    requires
        0 <= pos <= s.len(),
        s.subrange(pos, s.len() as int) == spec_emit_png_chunks(cs),
        forall|k: int|
            0 <= k < cs.len() ==> (#[trigger] cs[k]).0.len() == 4 && cs[k].1.len() < 0x100000000
                && cs[k].2.len() == 4,
    ensures
        png_chunks_from(s, pos) == Some(cs),
    decreases cs.len(),
{
    if cs.len() == 0 {
        assert(spec_emit_png_chunks(cs) == Seq::<u8>::empty());
        assert(s.len() - pos == 0);
        assert(png_chunks_from(s, pos) == Some(Seq::<(Seq<u8>, Seq<u8>, Seq<u8>)>::empty()));
        assert(cs =~= Seq::<(Seq<u8>, Seq<u8>, Seq<u8>)>::empty());
    } else {
        let c0 = cs[0];
        assert(c0.0.len() == 4 && c0.1.len() < 0x100000000 && c0.2.len() == 4);
        let rest = cs.drop_first();
        assert(cs =~= seq![c0] + rest);
        lemma_emit_png_concat(seq![c0], rest);
        lemma_emit_png_singleton(c0);
        let erest = spec_emit_png_chunks(rest);
        lemma_png_emit_chunk_parses_back(s, pos, c0, erest);
        let d = c0.1.len() as int;
        let len = spec_be32(s.subrange(pos, pos + 4));
        assert(len == d);
        let next = pos + 12 + d;
        assert forall|k: int|
            0 <= k < rest.len() implies (#[trigger] rest[k]).0.len() == 4 && rest[k].1.len()
            < 0x100000000 && rest[k].2.len() == 4 by {
            assert(rest[k] == cs[k + 1]);
        }
        assert(s.subrange(pos, s.len() as int).len() == s.len() - pos);
        assert(spec_emit_png_chunks(cs) == spec_emit_png_chunk(c0) + erest);
        assert((spec_emit_png_chunk(c0) + erest).len() == spec_emit_png_chunk(c0).len()
            + erest.len());
        assert(s.len() - pos == spec_emit_png_chunk(c0).len() + erest.len());
        assert(0 <= next <= s.len());
        assert(s.subrange(next, s.len() as int) == erest);
        lemma_png_walk_emit_from(s, next, rest);
        assert(png_chunks_from(s, pos) == Some(seq![
            (c0.0, c0.1, c0.2),
        ] + rest));
        assert((c0.0, c0.1, c0.2) == c0);
        assert(seq![c0] + rest =~= cs);
    }
}

/// The reconstructed output walks cleanly, and its chunk list is exactly the
/// kept list.
pub proof fn lemma_png_strip_parses_back(s: Seq<u8>, mode: StripMode)
    requires
        spec_png_header_ok(s),
        spec_png_chunks(s) is Some,
    ensures
        spec_png_header_ok(spec_strip_png(s, mode)),
        spec_png_chunks(spec_strip_png(s, mode)) == Some(spec_png_kept(s, mode)),
{
    let out = spec_strip_png(s, mode);
    let kept = spec_png_kept(s, mode);
    let keep_pred = |c: (Seq<u8>, Seq<u8>, Seq<u8>)| spec_png_keep(c.0, mode);
    let body = spec_emit_png_chunks(kept);
    assert(out.subrange(0, 8) =~= spec_png_signature());
    lemma_png_chunks_wf(s.skip(8), 0);
    assert forall|k: int|
        0 <= k < kept.len() implies (#[trigger] kept[k]).0.len() == 4 && kept[k].1.len()
        < 0x100000000 && kept[k].2.len() == 4 by {
        assert(kept.contains(kept[k]));
        crate::bytes::lemma_filter_is_subset(spec_png_chunks(s).unwrap(), keep_pred, kept[k]);
        let j = choose|j: int|
            0 <= j < spec_png_chunks(s).unwrap().len() && spec_png_chunks(s).unwrap()[j]
                == kept[k];
        assert(spec_png_chunks(s).unwrap()[j].0.len() == 4);
    }
    let tail = out.skip(8);
    assert(tail =~= body);
    assert(tail.subrange(0, tail.len() as int) =~= body);
    lemma_png_walk_emit_from(tail, 0, kept);
}

/// Re-stripping an already-stripped PNG file yields the same bytes: the
/// reconstruction is a fixed point of the strip under the same policy.
pub proof fn lemma_png_strip_converges(s: Seq<u8>, mode: StripMode)
    requires
        spec_png_header_ok(s),
        spec_png_chunks(s) is Some,
    ensures
        spec_png_header_ok(spec_strip_png(s, mode)),
        spec_png_chunks(spec_strip_png(s, mode)) is Some,
        spec_strip_png(spec_strip_png(s, mode), mode) == spec_strip_png(s, mode),
{
    let out = spec_strip_png(s, mode);
    let kept = spec_png_kept(s, mode);
    let keep_pred = |c: (Seq<u8>, Seq<u8>, Seq<u8>)| spec_png_keep(c.0, mode);
    lemma_png_strip_parses_back(s, mode);
    assert forall|k: int| 0 <= k < kept.len() implies keep_pred(#[trigger] kept[k]) by {
        spec_png_chunks(s).unwrap().lemma_filter_pred(keep_pred, k);
    }
    crate::bytes::lemma_filter_all(kept, keep_pred);
    assert(spec_png_kept(out, mode) == kept);
    assert(spec_strip_png(out, mode) == spec_strip_png(s, mode));
}

/// Critical chunks survive under every policy: any chunk whose type has the
/// ancillary bit clear is in the kept list, payload and CRC included.
pub proof fn lemma_png_critical_kept(s: Seq<u8>, mode: StripMode, k: int)
    requires
        spec_png_chunks(s) is Some,
        0 <= k < spec_png_chunks(s).unwrap().len(),
        spec_png_critical(spec_png_chunks(s).unwrap()[k].0),
    ensures
        spec_png_kept(s, mode).contains(spec_png_chunks(s).unwrap()[k]),
{
    let keep_pred = |c: (Seq<u8>, Seq<u8>, Seq<u8>)| spec_png_keep(c.0, mode);
    assert(keep_pred(spec_png_chunks(s).unwrap()[k]));
    spec_png_chunks(s).unwrap().lemma_filter_contains(keep_pred, k);
}

/// The description of each chunk type.
pub open spec fn spec_chunk_info(id: Seq<char>) -> Seq<char> {
    if id == "IHDR"@ {
        "Image Header"@
    } else if id == "PLTE"@ {
        "Palette"@
    } else if id == "IDAT"@ {
        "Image Data"@
    } else if id == "IEND"@ {
        "Image End"@
    } else if id == "tRNS"@ {
        "Transparency"@
    } else if id == "gAMA"@ {
        "Gamma"@
    } else if id == "cHRM"@ {
        "Chromaticity"@
    } else if id == "sRGB"@ {
        "Standard RGB Color Space"@
    } else if id == "iCCP"@ {
        "ICC Color Profile"@
    } else if id == "tEXt"@ {
        "Textual Data"@
    } else if id == "zTXt"@ {
        "Compressed Textual Data"@
    } else if id == "iTXt"@ {
        "International Textual Data"@
    } else if id == "bKGD"@ {
        "Background Color"@
    } else if id == "pHYs"@ {
        "Physical Pixel Dimensions"@
    } else if id == "tIME"@ {
        "Last Modification Time"@
    } else if id == "sBIT"@ {
        "Significant Bits"@
    } else if id == "sPLT"@ {
        "Suggested Palette"@
    } else if id == "hIST"@ {
        "Histogram"@
    } else if id == "eXIf"@ {
        "EXIF Data"@
    } else {
        "Unknown/Custom Chunk"@
    }
}

/// A human-readable description of a PNG chunk type.
pub fn get_chunk_info(chunk_type: &str) -> (r: &'static str)
    ensures
        r@ == spec_chunk_info(chunk_type@),
{
    if crate::bytes::str_eq(chunk_type, "IHDR") {
        "Image Header"
    } else if crate::bytes::str_eq(chunk_type, "PLTE") {
        "Palette"
    } else if crate::bytes::str_eq(chunk_type, "IDAT") {
        "Image Data"
    } else if crate::bytes::str_eq(chunk_type, "IEND") {
        "Image End"
    } else if crate::bytes::str_eq(chunk_type, "tRNS") {
        "Transparency"
    } else if crate::bytes::str_eq(chunk_type, "gAMA") {
        "Gamma"
    } else if crate::bytes::str_eq(chunk_type, "cHRM") {
        "Chromaticity"
    } else if crate::bytes::str_eq(chunk_type, "sRGB") {
        "Standard RGB Color Space"
    } else if crate::bytes::str_eq(chunk_type, "iCCP") {
        "ICC Color Profile"
    } else if crate::bytes::str_eq(chunk_type, "tEXt") {
        "Textual Data"
    } else if crate::bytes::str_eq(chunk_type, "zTXt") {
        "Compressed Textual Data"
    } else if crate::bytes::str_eq(chunk_type, "iTXt") {
        "International Textual Data"
    } else if crate::bytes::str_eq(chunk_type, "bKGD") {
        "Background Color"
    } else if crate::bytes::str_eq(chunk_type, "pHYs") {
        "Physical Pixel Dimensions"
    } else if crate::bytes::str_eq(chunk_type, "tIME") {
        "Last Modification Time"
    } else if crate::bytes::str_eq(chunk_type, "sBIT") {
        "Significant Bits"
    } else if crate::bytes::str_eq(chunk_type, "sPLT") {
        "Suggested Palette"
    } else if crate::bytes::str_eq(chunk_type, "hIST") {
        "Histogram"
    } else if crate::bytes::str_eq(chunk_type, "eXIf") {
        "EXIF Data"
    } else {
        "Unknown/Custom Chunk"
    }
}

/// The fields of an `IHDR` payload: width, height, bit depth, colour type.
/// `None` when the payload is shorter than the 13 bytes they occupy.
pub fn ihdr_info(data: &[u8]) -> (r: Option<(u32, u32, u8, u8)>)
    ensures
        r is Some <==> data@.len() >= 13,
        r matches Some(f) ==> f.0 == spec_be32(data@.subrange(0, 4)) && f.1 == spec_be32(
            data@.subrange(4, 8),
        ) && f.2 == data@[8] && f.3 == data@[9],
{
    if data.len() < 13 {
        return None;
    }
    let w = read_be32(data, 0);
    let h = read_be32(data, 4);
    Some((w, h, data[8], data[9]))
}

/// The fields of a `pHYs` payload: pixels per unit on each axis and the unit
/// code. `None` when the payload is shorter than the 9 bytes they occupy.
pub fn phys_info(data: &[u8]) -> (r: Option<(u32, u32, u8)>)
    ensures
        r is Some <==> data@.len() >= 9,
        r matches Some(f) ==> f.0 == spec_be32(data@.subrange(0, 4)) && f.1 == spec_be32(
            data@.subrange(4, 8),
        ) && f.2 == data@[8],
{
    if data.len() < 9 {
        return None;
    }
    Some((read_be32(data, 0), read_be32(data, 4), data[8]))
}

/// The fields of a `tIME` payload: year, month, day, hour, minute, second.
/// `None` when the payload is shorter than the 7 bytes they occupy.
pub fn time_info(data: &[u8]) -> (r: Option<(u16, u8, u8, u8, u8, u8)>)
    ensures
        r is Some <==> data@.len() >= 7,
        r matches Some(f) ==> f.0 == data@[0] * 0x100 + data@[1] && f.1 == data@[2] && f.2
            == data@[3] && f.3 == data@[4] && f.4 == data@[5] && f.5 == data@[6],
{
    if data.len() < 7 {
        return None;
    }
    let year: u16 = (data[0] as u16) * 0x100 + (data[1] as u16);
    Some((year, data[2], data[3], data[4], data[5], data[6]))
}

/// The scaled gamma value of a `gAMA` payload (the stored integer is the
/// gamma times 100000). `None` when the payload is shorter than 4 bytes.
pub fn gama_value(data: &[u8]) -> (r: Option<u32>)
    ensures
        r is Some <==> data@.len() >= 4,
        r matches Some(g) ==> g == spec_be32(data@.subrange(0, 4)),
{
    if data.len() < 4 {
        return None;
    }
    Some(read_be32(data, 0))
}

/// Where the NUL separating a text chunk's keyword from its value stands, if
/// anywhere: the position of the first zero byte.
pub open spec fn spec_first_nul(d: Seq<u8>) -> Option<int> {
    if exists|i: int| 0 <= i < d.len() && d[i] == 0 && (forall|j: int| 0 <= j < i ==> d[j] != 0) {
        Some(
            choose|i: int|
                0 <= i < d.len() && d[i] == 0 && (forall|j: int| 0 <= j < i ==> d[j] != 0),
        )
    } else {
        None
    }
}

/// Splits a `tEXt`-family payload at its first NUL into the keyword and the
/// raw value bytes. `None` when the payload holds no NUL at all.
pub fn text_split(data: &[u8]) -> (r: Option<(Vec<u8>, Vec<u8>)>)
    ensures
        match r {
            Some(kv) => exists|i: int|
                0 <= i < data@.len() && data@[i] == 0 && (forall|j: int| 0 <= j < i ==> data@[j]
                    != 0) && kv.0@ == data@.subrange(0, i) && kv.1@ == data@.subrange(
                    i + 1,
                    data@.len() as int,
                ),
            None => forall|i: int| 0 <= i < data@.len() ==> data@[i] != 0,
        },
{
    let n = data.len();
    let mut i: usize = 0;
    while i < n
        invariant
            n == data@.len(),
            i <= n,
            forall|j: int| 0 <= j < i ==> data@[j] != 0,
        decreases n - i,
    {
        if data[i] == 0 {
            let keyword = crate::bytes::copy_range(data, 0, i);
            let value = crate::bytes::copy_range(data, i + 1, n);
            return Some((keyword, value));
        }
        i = i + 1;
    }
    None
}

} // verus!
