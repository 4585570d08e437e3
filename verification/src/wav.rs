//! The WAV container engine: a RIFF chunk walker, a sensitivity classifier,
//! and a reconstructor that rebuilds the file from the retained chunks and
//! patches the RIFF size field.
//!
//! The walker is deliberately lenient about one thing: a final chunk whose
//! declared size runs past the end of the buffer is clamped to the bytes that
//! are actually there, instead of failing the whole file.

use crate::bytes::{copy_range, push_bytes, push_le32, read_le32, spec_le32, spec_le32_bytes};
use crate::riff::{lemma_emit_push, spec_chunks_view, spec_emit_chunk, spec_emit_chunks, RiffChunk};
use crate::bytes::lemma_filter_push;
use crate::config::StripMode;
use crate::error::ProcessingError;
use vstd::prelude::*;
use vstd::seq_lib::*;

verus! {

/// A WAV processing stage, holding no state of its own.
pub struct WavProcessor;

/// The chunk records of the RIFF chunk area `s`, walking from byte `pos`.
///
/// Each chunk is a 4-byte identifier, a 4-byte little-endian size, and that
/// many payload bytes; an odd-sized payload is followed by one padding byte.
/// A final chunk whose size overruns the buffer is clamped to what remains.
pub open spec fn wav_chunks_from(s: Seq<u8>, pos: int) -> Seq<(Seq<u8>, Seq<u8>)>
    decreases s.len() + 1 - pos,
    when 0 <= pos
{
    if pos + 8 <= s.len() {
        let id = s.subrange(pos, pos + 4);
        let size = spec_le32(s.subrange(pos + 4, pos + 8));
        if pos + 8 + size > s.len() {
            seq![(id, s.subrange(pos + 8, s.len() as int))]
        } else {
            let data = s.subrange(pos + 8, pos + 8 + size);
            let next = if (pos + 8 + size) % 2 == 1 {
                pos + 8 + size + 1
            } else {
                pos + 8 + size
            };
            seq![(id, data)] + wav_chunks_from(s, next)
        }
    } else {
        Seq::empty()
    }
}

/// The chunks of a whole WAV file: the chunk area follows the 12-byte
/// `RIFF`/size/`WAVE` header.
pub open spec fn spec_wav_chunks(s: Seq<u8>) -> Seq<(Seq<u8>, Seq<u8>)> {
    wav_chunks_from(s.skip(12), 0)
}

/// Chunks a WAV file cannot decode without: format, audio data, sample count.
pub open spec fn spec_wav_essential(id: Seq<u8>) -> bool {
    ||| id == seq![0x66u8, 0x6d, 0x74, 0x20]  // "fmt "
    ||| id == seq![0x64u8, 0x61, 0x74, 0x61]  // "data"
    ||| id == seq![0x66u8, 0x61, 0x63, 0x74]  // "fact"

}

/// Non-essential chunks that carry no sensitive authoring metadata.
pub open spec fn spec_wav_safe(id: Seq<u8>) -> bool {
    ||| id == seq![0x4cu8, 0x49, 0x53, 0x54]  // "LIST"
    ||| id == seq![0x63u8, 0x75, 0x65, 0x20]  // "cue "
    ||| id == seq![0x73u8, 0x6d, 0x70, 0x6c]  // "smpl"
    ||| id == seq![0x69u8, 0x6e, 0x73, 0x74]  // "inst"

}

/// Whether a chunk with identifier `id` survives under `mode`.
pub open spec fn spec_wav_keep(id: Seq<u8>, mode: StripMode) -> bool {
    match mode {
        StripMode::All => spec_wav_essential(id),
        StripMode::Safe => spec_wav_essential(id) || spec_wav_safe(id),
        StripMode::Off => true,
    }
}

/// Whether `s` begins with a `RIFF`....`WAVE` header.
pub open spec fn spec_wav_header_ok(s: Seq<u8>) -> bool {
    &&& s.len() >= 12
    &&& s.subrange(0, 4) == seq![0x52u8, 0x49, 0x46, 0x46]  // "RIFF"
    &&& s.subrange(8, 12) == seq![0x57u8, 0x41, 0x56, 0x45]  // "WAVE"

}

/// The chunks of `s` that survive under `mode`, in their original order.
pub open spec fn spec_wav_kept(s: Seq<u8>, mode: StripMode) -> Seq<(Seq<u8>, Seq<u8>)> {
    spec_wav_chunks(s).filter(|c: (Seq<u8>, Seq<u8>)| spec_wav_keep(c.0, mode))
}

/// The reconstructed WAV file: header with the size field patched to cover
/// the `WAVE` tag plus the retained chunk bytes, then the retained chunks.
pub open spec fn spec_strip_wav(s: Seq<u8>, mode: StripMode) -> Seq<u8> {
    let body = spec_emit_chunks(spec_wav_kept(s, mode));
    seq![0x52u8, 0x49, 0x46, 0x46] + spec_le32_bytes((((body.len() + 4) % 0x100000000) as u32))
        + seq![0x57u8, 0x41,
        0x56,
        0x45,
    ] + body
}

/// Walks the RIFF chunk area `data`, producing each chunk's identifier and
/// payload. Never fails: a truncated final chunk is clamped.
pub fn parse_riff_chunks(data: &[u8]) -> (r: Result<Vec<RiffChunk>, ProcessingError>)
    ensures
        r matches Ok(v) && spec_chunks_view(v@) == wav_chunks_from(data@, 0),
{
    let mut chunks: Vec<RiffChunk> = Vec::new();
    let mut pos: usize = 0;
    while pos < data.len() && data.len() - pos >= 8
        invariant
            pos <= data@.len(),
            wav_chunks_from(data@, 0) == spec_chunks_view(chunks@) + wav_chunks_from(
                data@,
                pos as int,
            ),
        decreases data@.len() - pos,
    {
        let ghost prev_chunks = chunks@;
        let ghost p = pos as int;
        let id: [u8; 4] = [data[pos], data[pos + 1], data[pos + 2], data[pos + 3]];
        let size = read_le32(data, pos + 4) as usize;
        proof {
            assert(id@ =~= data@.subrange(p, p + 4));
            crate::bytes::lemma_le32_bounds(data@.subrange(p + 4, p + 8));
        }
        let avail = data.len() - (pos + 8);
        if size > avail {
            let d = copy_range(data, pos + 8, data.len());
            chunks.push(RiffChunk { id, data: d });
            proof {
                assert(spec_chunks_view(chunks@) =~= spec_chunks_view(prev_chunks).push(
                    (id@, data@.subrange(p + 8, data@.len() as int)),
                ));
                assert(wav_chunks_from(data@, p) =~= seq![
                    (id@, data@.subrange(p + 8, data@.len() as int)),
                ]);
                assert(spec_chunks_view(chunks@) + wav_chunks_from(data@, data@.len() as int)
                    =~= spec_chunks_view(prev_chunks) + wav_chunks_from(data@, p));
            }
            return Ok(chunks);
        }
        let chunk_end = pos + 8 + size;
        let d = copy_range(data, pos + 8, chunk_end);
        chunks.push(RiffChunk { id, data: d });
        proof {
            assert(spec_chunks_view(chunks@) =~= spec_chunks_view(prev_chunks).push(
                (id@, data@.subrange(p + 8, p + 8 + size as int)),
            ));
            assert(wav_chunks_from(data@, p) =~= seq![
                (id@, data@.subrange(p + 8, p + 8 + size as int)),
            ] + wav_chunks_from(
                data@,
                if (p + 8 + size as int) % 2 == 1 {
                    p + 8 + size + 1
                } else {
                    p + 8 + size
                },
            ));
        }
        pos = chunk_end;
        if pos % 2 == 1 {
            if pos < data.len() {
                pos = pos + 1;
            } else {
                proof {
                    assert(wav_chunks_from(data@, pos as int) =~= Seq::<
                        (Seq<u8>, Seq<u8>),
                    >::empty());
                    assert(wav_chunks_from(data@, pos + 1 as int) =~= Seq::<
                        (Seq<u8>, Seq<u8>),
                    >::empty());
                }
                return Ok(chunks);
            }
        }
    }
    proof {
        assert(wav_chunks_from(data@, pos as int) =~= Seq::<(Seq<u8>, Seq<u8>)>::empty());
    }
    Ok(chunks)
}

/// Whether this chunk must always be retained, whatever the policy.
pub fn is_essential_chunk(id: &[u8; 4]) -> (r: bool)
    ensures
        r == spec_wav_essential(id@),
{
    proof {
        assert(id@ =~= seq![id@[0], id@[1], id@[2], id@[3]]);
    }
    (id[0] == 0x66 && id[1] == 0x6d && id[2] == 0x74 && id[3] == 0x20) || (id[0] == 0x64 && id[1]
        == 0x61 && id[2] == 0x74 && id[3] == 0x61) || (id[0] == 0x66 && id[1] == 0x61 && id[2]
        == 0x63 && id[3] == 0x74)
}

/// Whether this chunk is non-sensitive metadata, retained under `Safe`.
pub fn is_safe_chunk(id: &[u8; 4]) -> (r: bool)
    ensures
        r == spec_wav_safe(id@),
{
    proof {
        assert(id@ =~= seq![id@[0], id@[1], id@[2], id@[3]]);
    }
    (id[0] == 0x4c && id[1] == 0x49 && id[2] == 0x53 && id[3] == 0x54) || (id[0] == 0x63 && id[1]
        == 0x75 && id[2] == 0x65 && id[3] == 0x20) || (id[0] == 0x73 && id[1] == 0x6d && id[2]
        == 0x70 && id[3] == 0x6c) || (id[0] == 0x69 && id[1] == 0x6e && id[2] == 0x73 && id[3]
        == 0x74)
}

/// Rebuilds a WAV file keeping only the chunks `mode` permits, with the RIFF
/// size field patched to the new total. Under `Off` the input is returned
/// unchanged; a missing `RIFF`/`WAVE` header is a decode error.
pub fn strip_wav_metadata(input: &[u8], mode: StripMode) -> (r: Result<Vec<u8>, ProcessingError>)
    ensures
        mode is Off ==> (r matches Ok(v) && v@ == input@),
        !(mode is Off) && !spec_wav_header_ok(input@) ==> (r matches Err(e) && e is Decode),
        !(mode is Off) && spec_wav_header_ok(input@) ==> (r matches Ok(v) && v@ == spec_strip_wav(
            input@,
            mode,
        )),
{
    if mode == StripMode::Off {
        return Ok(vstd::slice::slice_to_vec(input));
    }
    if input.len() < 12 {
        return Err(ProcessingError::Decode("WAV file too small".to_owned()));
    }
    proof {
        assert(input@.subrange(0, 4) =~= seq![input@[0], input@[1], input@[2], input@[3]]);
        assert(input@.subrange(8, 12) =~= seq![input@[8], input@[9], input@[10], input@[11]]);
    }
    if !(input[0] == 0x52 && input[1] == 0x49 && input[2] == 0x46 && input[3] == 0x46 && input[8]
        == 0x57 && input[9] == 0x41 && input[10] == 0x56 && input[11] == 0x45) {
        return Err(ProcessingError::Decode("Invalid WAV signature".to_owned()));
    }
    let tail = vstd::slice::slice_subrange(input, 12, input.len());
    proof {
        assert(tail@ =~= input@.skip(12));
    }
    let chunks = match parse_riff_chunks(tail) {
        Ok(v) => v,
        Err(e) => {
            return Err(e);
        },
    };
    let ghost cs = spec_chunks_view(chunks@);
    let ghost keep_pred = |c: (Seq<u8>, Seq<u8>)| spec_wav_keep(c.0, mode);
    let mut body: Vec<u8> = Vec::new();
    let mut i: usize = 0;
    while i < chunks.len()
        invariant
            i <= chunks@.len(),
            cs == spec_chunks_view(chunks@),
            keep_pred == (|c: (Seq<u8>, Seq<u8>)| spec_wav_keep(c.0, mode)),
            body@ == spec_emit_chunks(cs.take(i as int).filter(keep_pred)),
        decreases chunks@.len() - i,
    {
        let ghost prev_body = body@;
        let c = &chunks[i];
        let keep = match mode {
            StripMode::All => is_essential_chunk(&c.id),
            StripMode::Safe => is_essential_chunk(&c.id) || is_safe_chunk(&c.id),
            StripMode::Off => true,
        };
        if keep {
            body.push(c.id[0]);
            body.push(c.id[1]);
            body.push(c.id[2]);
            body.push(c.id[3]);
            let len32: u32 = ((c.data.len() as u128) % 0x100000000) as u32;
            push_le32(&mut body, len32);
            push_bytes(&mut body, c.data.as_slice());
            if c.data.len() % 2 != 0 {
                body.push(0);
            }
            proof {
                assert(body@ =~= prev_body + spec_emit_chunk(cs[i as int]));
            }
        }
        proof {
            assert(cs.take(i + 1) =~= cs.take(i as int).push(cs[i as int]));
            lemma_filter_push(cs.take(i as int), keep_pred, cs[i as int]);
            assert(keep == keep_pred(cs[i as int]));
            if keep {
                lemma_emit_push(cs.take(i as int).filter(keep_pred), cs[i as int]);
            }
        }
        i = i + 1;
    }
    proof {
        assert(cs.take(cs.len() as int) =~= cs);
    }
    let mut output: Vec<u8> = Vec::new();
    output.push(0x52);
    output.push(0x49);
    output.push(0x46);
    output.push(0x46);
    let riff_size: u32 = (((body.len() as u128) + 4) % 0x100000000) as u32;
    push_le32(&mut output, riff_size);
    output.push(0x57);
    output.push(0x41);
    output.push(0x56);
    output.push(0x45);
    push_bytes(&mut output, body.as_slice());
    proof {
        assert(output@ =~= spec_strip_wav(input@, mode));
    }
    Ok(output)
}

/// Every chunk the walker produces has a 4-byte identifier, and - when the
/// buffer is shorter than 2^32 bytes - a payload shorter than 2^32 bytes.
pub proof fn lemma_wav_chunks_wf(s: Seq<u8>, pos: int)
    requires
        0 <= pos,
        s.len() < 0x100000000,
    ensures
        forall|k: int|
            0 <= k < wav_chunks_from(s, pos).len() ==> (#[trigger] wav_chunks_from(s, pos)[k]).0.len()
                == 4 && wav_chunks_from(s, pos)[k].1.len() < 0x100000000,
    decreases s.len() + 1 - pos,
{
    if pos + 8 <= s.len() {
        let size = spec_le32(s.subrange(pos + 4, pos + 8));
        crate::bytes::lemma_le32_bounds(s.subrange(pos + 4, pos + 8));
        if pos + 8 + size > s.len() {
        } else {
            let next = if (pos + 8 + size) % 2 == 1 {
                pos + 8 + size + 1
            } else {
                pos + 8 + size
            };
            lemma_wav_chunks_wf(s, next);
            let head = (s.subrange(pos, pos + 4), s.subrange(pos + 8, pos + 8 + size));
            let rest = wav_chunks_from(s, next);
            assert forall|k: int|
                0 <= k < wav_chunks_from(s, pos).len() implies (#[trigger] wav_chunks_from(
                s,
                pos,
            )[k]).0.len() == 4 && wav_chunks_from(s, pos)[k].1.len() < 0x100000000 by {
                if k == 0 {
                    assert(wav_chunks_from(s, pos)[0] == head);
                } else {
                    assert(wav_chunks_from(s, pos)[k] == rest[k - 1]);
                }
            }
        }
    }
}

/// Walking the emitted wire form of a well-formed chunk list, from an even
/// position whose suffix is exactly that wire form, recovers the list.
#[verifier::rlimit(100)]
proof fn lemma_wav_walk_emit_from(s: Seq<u8>, pos: int, cs: Seq<(Seq<u8>, Seq<u8>)>)
    requires
        0 <= pos <= s.len(),
        pos % 2 == 0,
        s.subrange(pos, s.len() as int) == spec_emit_chunks(cs),
        forall|k: int|
            0 <= k < cs.len() ==> (#[trigger] cs[k]).0.len() == 4 && cs[k].1.len() < 0x100000000,
    ensures
        wav_chunks_from(s, pos) == cs,
    decreases cs.len(),
{
    if cs.len() == 0 {
        assert(spec_emit_chunks(cs) == Seq::<u8>::empty());
        assert(s.len() - pos == 0);
        assert(wav_chunks_from(s, pos) =~= Seq::<(Seq<u8>, Seq<u8>)>::empty());
    } else {
        let c0 = cs[0];
        assert(c0.0.len() == 4 && c0.1.len() < 0x100000000);
        let rest = cs.drop_first();
        assert(cs =~= seq![c0] + rest);
        crate::riff::lemma_emit_concat(seq![c0], rest);
        crate::riff::lemma_emit_singleton(c0);
        let erest = spec_emit_chunks(rest);
        crate::riff::lemma_emit_chunk_parses_back(s, pos, c0, erest);
        let d = c0.1.len() as int;
        let size = spec_le32(s.subrange(pos + 4, pos + 8));
        assert(size == d);
        let next = if (pos + 8 + d) % 2 == 1 {
            pos + 8 + d + 1
        } else {
            pos + 8 + d
        };
        assert forall|k: int|
            0 <= k < rest.len() implies (#[trigger] rest[k]).0.len() == 4 && rest[k].1.len()
            < 0x100000000 by {
            assert(rest[k] == cs[k + 1]);
        }
        assert(s.subrange(pos, s.len() as int).len() == s.len() - pos);
        assert(spec_emit_chunks(cs) == spec_emit_chunk(c0) + erest);
        assert((spec_emit_chunk(c0) + erest).len() == spec_emit_chunk(c0).len() + erest.len());
        assert(s.len() - pos == spec_emit_chunk(c0).len() + erest.len());
        assert(next == pos + spec_emit_chunk(c0).len());
        assert(0 <= next <= s.len());
        assert(s.subrange(next, s.len() as int) == erest);
        lemma_wav_walk_emit_from(s, next, rest);
        assert(wav_chunks_from(s, pos) == seq![(c0.0, c0.1)] + rest);
        assert((c0.0, c0.1) == c0);
        assert(seq![c0] + rest =~= cs);
    }
}

/// Every chunk the walker finds in the reconstructed output survives its own
/// classification again: the output's chunk list is exactly the kept list.
pub proof fn lemma_wav_strip_parses_back(s: Seq<u8>, mode: StripMode)
    requires
        spec_wav_header_ok(s),
        s.len() < 0x100000000,
    ensures
        spec_wav_header_ok(spec_strip_wav(s, mode)),
        spec_wav_chunks(spec_strip_wav(s, mode)) == spec_wav_kept(s, mode),
{
    let out = spec_strip_wav(s, mode);
    let kept = spec_wav_kept(s, mode);
    let keep_pred = |c: (Seq<u8>, Seq<u8>)| spec_wav_keep(c.0, mode);
    let body = spec_emit_chunks(kept);
    assert(out.subrange(0, 4) =~= seq![0x52u8, 0x49, 0x46, 0x46]);
    assert(out.subrange(8, 12) =~= seq![0x57u8, 0x41, 0x56, 0x45]);
    lemma_wav_chunks_wf(s.skip(12), 0);
    assert forall|k: int|
        0 <= k < kept.len() implies (#[trigger] kept[k]).0.len() == 4 && kept[k].1.len()
        < 0x100000000 by {
        assert(kept.contains(kept[k]));
        crate::bytes::lemma_filter_is_subset(spec_wav_chunks(s), keep_pred, kept[k]);
        let j = choose|j: int|
            0 <= j < spec_wav_chunks(s).len() && spec_wav_chunks(s)[j] == kept[k];
        assert(spec_wav_chunks(s)[j].0.len() == 4);
    }
    let tail = out.skip(12);
    assert(tail =~= body);
    assert(tail.subrange(0, tail.len() as int) =~= body);
    lemma_wav_walk_emit_from(tail, 0, kept);
}

/// Re-stripping an already-stripped WAV file yields the same bytes: the
/// reconstruction is a fixed point of the strip under the same policy.
pub proof fn lemma_wav_strip_converges(s: Seq<u8>, mode: StripMode)
    requires
        spec_wav_header_ok(s),
        s.len() < 0x100000000,
    ensures
        spec_wav_header_ok(spec_strip_wav(s, mode)),
        spec_strip_wav(spec_strip_wav(s, mode), mode) == spec_strip_wav(s, mode),
{
    let out = spec_strip_wav(s, mode);
    let kept = spec_wav_kept(s, mode);
    let keep_pred = |c: (Seq<u8>, Seq<u8>)| spec_wav_keep(c.0, mode);
    lemma_wav_strip_parses_back(s, mode);
    assert forall|k: int| 0 <= k < kept.len() implies keep_pred(#[trigger] kept[k]) by {
        spec_wav_chunks(s).lemma_filter_pred(keep_pred, k);
    }
    crate::bytes::lemma_filter_all(kept, keep_pred);
    assert(spec_wav_kept(out, mode) == kept);
    assert(spec_strip_wav(out, mode) == spec_strip_wav(s, mode));
}

/// The patched RIFF size field of the reconstruction always equals the
/// output's length less the 8 header bytes, reduced modulo 2^32; whenever
/// that length fits the field, it equals it exactly.
pub proof fn lemma_wav_size_field(s: Seq<u8>, mode: StripMode)
    ensures
        ({
            let out = spec_strip_wav(s, mode);
            &&& out.len() >= 12
            &&& spec_le32(out.subrange(4, 8)) == (out.len() - 8) % 0x100000000
            &&& (out.len() - 8 < 0x100000000 ==> spec_le32(out.subrange(4, 8)) == out.len() - 8)
        }),
{
    let out = spec_strip_wav(s, mode);
    let body = spec_emit_chunks(spec_wav_kept(s, mode));
    let n32 = (((body.len() + 4) % 0x100000000) as u32);
    assert(out.subrange(4, 8) =~= spec_le32_bytes(n32));
    crate::bytes::lemma_le32_round_trip(n32);
    assert(out.len() == 12 + body.len());
}

/// Essential chunks (`fmt `, `data`, `fact`) survive under every policy: any
/// such chunk of the input is in the kept list, payload and all.
pub proof fn lemma_wav_essential_kept(s: Seq<u8>, mode: StripMode, k: int)
    requires
        0 <= k < spec_wav_chunks(s).len(),
        spec_wav_essential(spec_wav_chunks(s)[k].0),
    ensures
        spec_wav_kept(s, mode).contains(spec_wav_chunks(s)[k]),
{
    let keep_pred = |c: (Seq<u8>, Seq<u8>)| spec_wav_keep(c.0, mode);
    assert(keep_pred(spec_wav_chunks(s)[k]));
    spec_wav_chunks(s).lemma_filter_contains(keep_pred, k);
}

/// The description of each chunk identifier.
pub open spec fn spec_chunk_description(id: Seq<u8>) -> Seq<char> {
    if id == seq![0x66u8, 0x6d, 0x74, 0x20] {
        "Format"@
    } else if id == seq![0x64u8, 0x61, 0x74, 0x61] {
        "Audio Data"@
    } else if id == seq![0x66u8, 0x61, 0x63, 0x74] {
        "Fact (sample count)"@
    } else if id == seq![0x4cu8, 0x49, 0x53, 0x54] {
        "List Container"@
    } else if id == seq![0x63u8, 0x75, 0x65, 0x20] {
        "Cue Points"@
    } else if id == seq![0x73u8, 0x6d, 0x70, 0x6c] {
        "Sampler Info"@
    } else if id == seq![0x69u8, 0x6e, 0x73, 0x74] {
        "Instrument"@
    } else if id == seq![0x62u8, 0x65, 0x78, 0x74] {
        "Broadcast Extension (BWF)"@
    } else if id == seq![0x69u8, 0x58, 0x4d, 0x4c] {
        "iXML Metadata"@
    } else if id == seq![0x4au8, 0x55, 0x4e, 0x4b] {
        "Padding/Junk"@
    } else if id == seq![0x6au8, 0x75, 0x6e, 0x6b] {
        "Padding/Junk"@
    } else if id == seq![0x50u8, 0x41, 0x44, 0x20] {
        "Padding"@
    } else if id == seq![0x70u8, 0x61, 0x64, 0x20] {
        "Padding"@
    } else if id == seq![0x50u8, 0x45, 0x41, 0x4b] {
        "Peak Envelope"@
    } else if id == seq![0x44u8, 0x49, 0x53, 0x50] {
        "Display/Title"@
    } else if id == seq![0x61u8, 0x63, 0x69, 0x64] {
        "Acid Loop Info"@
    } else if id == seq![0x73u8, 0x74, 0x72, 0x63] {
        "Structure"@
    } else if id == seq![0x61u8, 0x66, 0x73, 0x70] {
        "AFsp Info"@
    } else if id == seq![0x63u8, 0x61, 0x72, 0x74] {
        "Cart Chunk (AES46)"@
    } else if id == seq![0x6cu8, 0x61, 0x62, 0x6c] {
        "Label"@
    } else if id == seq![0x6eu8, 0x6f, 0x74, 0x65] {
        "Note"@
    } else if id == seq![0x6cu8, 0x74, 0x78, 0x74] {
        "Labeled Text"@
    } else if id == seq![0x70u8, 0x6c, 0x73, 0x74] {
        "Playlist"@
    } else if id == seq![0x49u8, 0x44, 0x33, 0x20] {
        "ID3 Tag"@
    } else {
        "Unknown"@
    }
}

/// A human-readable description of a WAV chunk identifier.
pub fn chunk_description(id: &[u8; 4]) -> (r: &'static str)
    ensures
        r@ == spec_chunk_description(id@),
{
    proof {
        assert(id@ =~= seq![id@[0], id@[1], id@[2], id@[3]]);
    }
    if id[0] == 0x66 && id[1] == 0x6d && id[2] == 0x74 && id[3] == 0x20 {
        "Format"
    } else if id[0] == 0x64 && id[1] == 0x61 && id[2] == 0x74 && id[3] == 0x61 {
        "Audio Data"
    } else if id[0] == 0x66 && id[1] == 0x61 && id[2] == 0x63 && id[3] == 0x74 {
        "Fact (sample count)"
    } else if id[0] == 0x4c && id[1] == 0x49 && id[2] == 0x53 && id[3] == 0x54 {
        "List Container"
    } else if id[0] == 0x63 && id[1] == 0x75 && id[2] == 0x65 && id[3] == 0x20 {
        "Cue Points"
    } else if id[0] == 0x73 && id[1] == 0x6d && id[2] == 0x70 && id[3] == 0x6c {
        "Sampler Info"
    } else if id[0] == 0x69 && id[1] == 0x6e && id[2] == 0x73 && id[3] == 0x74 {
        "Instrument"
    } else if id[0] == 0x62 && id[1] == 0x65 && id[2] == 0x78 && id[3] == 0x74 {
        "Broadcast Extension (BWF)"
    } else if id[0] == 0x69 && id[1] == 0x58 && id[2] == 0x4d && id[3] == 0x4c {
        "iXML Metadata"
    } else if id[0] == 0x4a && id[1] == 0x55 && id[2] == 0x4e && id[3] == 0x4b {
        "Padding/Junk"
    } else if id[0] == 0x6a && id[1] == 0x75 && id[2] == 0x6e && id[3] == 0x6b {
        "Padding/Junk"
    } else if id[0] == 0x50 && id[1] == 0x41 && id[2] == 0x44 && id[3] == 0x20 {
        "Padding"
    } else if id[0] == 0x70 && id[1] == 0x61 && id[2] == 0x64 && id[3] == 0x20 {
        "Padding"
    } else if id[0] == 0x50 && id[1] == 0x45 && id[2] == 0x41 && id[3] == 0x4b {
        "Peak Envelope"
    } else if id[0] == 0x44 && id[1] == 0x49 && id[2] == 0x53 && id[3] == 0x50 {
        "Display/Title"
    } else if id[0] == 0x61 && id[1] == 0x63 && id[2] == 0x69 && id[3] == 0x64 {
        "Acid Loop Info"
    } else if id[0] == 0x73 && id[1] == 0x74 && id[2] == 0x72 && id[3] == 0x63 {
        "Structure"
    } else if id[0] == 0x61 && id[1] == 0x66 && id[2] == 0x73 && id[3] == 0x70 {
        "AFsp Info"
    } else if id[0] == 0x63 && id[1] == 0x61 && id[2] == 0x72 && id[3] == 0x74 {
        "Cart Chunk (AES46)"
    } else if id[0] == 0x6c && id[1] == 0x61 && id[2] == 0x62 && id[3] == 0x6c {
        "Label"
    } else if id[0] == 0x6e && id[1] == 0x6f && id[2] == 0x74 && id[3] == 0x65 {
        "Note"
    } else if id[0] == 0x6c && id[1] == 0x74 && id[2] == 0x78 && id[3] == 0x74 {
        "Labeled Text"
    } else if id[0] == 0x70 && id[1] == 0x6c && id[2] == 0x73 && id[3] == 0x74 {
        "Playlist"
    } else if id[0] == 0x49 && id[1] == 0x44 && id[2] == 0x33 && id[3] == 0x20 {
        "ID3 Tag"
    } else {
        "Unknown"
    }
}

} // verus!
