//! Pieces shared by the two RIFF-based container engines (WAV and WebP):
//! the chunk record type, the wire form of an emitted chunk, and the lemmas
//! used to reason about reconstruction.

use crate::bytes::{spec_le32, spec_le32_bytes};
use vstd::prelude::*;
use vstd::seq_lib::*;

verus! {

/// One RIFF chunk: a 4-byte ASCII identifier and its payload.
pub struct RiffChunk {
    pub id: [u8; 4],
    pub data: Vec<u8>,
}

/// The (identifier, payload) view of a parsed chunk list.
pub open spec fn spec_chunks_view(v: Seq<RiffChunk>) -> Seq<(Seq<u8>, Seq<u8>)> {
    v.map_values(|c: RiffChunk| (c.id@, c.data@))
}

/// The wire form of one chunk on output: identifier, size field recomputed
/// from the retained payload, the payload, and a regenerated padding byte if
/// the payload length is odd.
pub open spec fn spec_emit_chunk(c: (Seq<u8>, Seq<u8>)) -> Seq<u8> {
    c.0 + spec_le32_bytes(((c.1.len() % 0x100000000) as u32)) + c.1 + if c.1.len() % 2 == 1 {
        seq![0u8]
    } else {
        Seq::<u8>::empty()
    }
}

/// The concatenated wire form of a chunk list.
pub open spec fn spec_emit_chunks(cs: Seq<(Seq<u8>, Seq<u8>)>) -> Seq<u8>
    decreases cs.len(),
{
    if cs.len() == 0 {
        Seq::empty()
    } else {
        spec_emit_chunks(cs.drop_last()) + spec_emit_chunk(cs.last())
    }
}

/// Emitting a chunk list with one more chunk appends that chunk's wire form.
pub proof fn lemma_emit_push(cs: Seq<(Seq<u8>, Seq<u8>)>, c: (Seq<u8>, Seq<u8>))
    ensures
        spec_emit_chunks(cs.push(c)) == spec_emit_chunks(cs) + spec_emit_chunk(c),
{
    assert(cs.push(c).drop_last() =~= cs);
    assert(cs.push(c).last() == c);
}

/// Emitting the concatenation of two chunk lists concatenates their wire
/// forms.
pub proof fn lemma_emit_concat(a: Seq<(Seq<u8>, Seq<u8>)>, b: Seq<(Seq<u8>, Seq<u8>)>)
    ensures
        spec_emit_chunks(a + b) == spec_emit_chunks(a) + spec_emit_chunks(b),
    decreases b.len(),
{
    if b.len() == 0 {
        assert(a + b =~= a);
        assert(spec_emit_chunks(a) + spec_emit_chunks(b) =~= spec_emit_chunks(a));
    } else {
        assert((a + b).drop_last() =~= a + b.drop_last());
        assert((a + b).last() == b.last());
        lemma_emit_concat(a, b.drop_last());
        assert(spec_emit_chunks(a) + spec_emit_chunks(b.drop_last()) + spec_emit_chunk(b.last())
            =~= spec_emit_chunks(a) + (spec_emit_chunks(b.drop_last()) + spec_emit_chunk(
            b.last(),
        )));
    }
}

/// The wire form of a single chunk, as a one-element list.
pub proof fn lemma_emit_singleton(c: (Seq<u8>, Seq<u8>))
    ensures
        spec_emit_chunks(seq![c]) == spec_emit_chunk(c),
{
    assert(seq![c].drop_last() =~= Seq::<(Seq<u8>, Seq<u8>)>::empty());
    assert(seq![c].last() == c);
    assert(spec_emit_chunks(Seq::<(Seq<u8>, Seq<u8>)>::empty()) == Seq::<u8>::empty());
    assert(Seq::<u8>::empty() + spec_emit_chunk(c) =~= spec_emit_chunk(c));
}

/// Reading one emitted chunk back from the front of its wire form: the
/// fields parse to the chunk that was emitted, and the rest of the buffer
/// follows at the next even position.
#[verifier::rlimit(100)]
pub proof fn lemma_emit_chunk_parses_back(s: Seq<u8>, pos: int, c0: (Seq<u8>, Seq<u8>), erest: Seq<u8>)
    requires
        0 <= pos <= s.len(),
        pos % 2 == 0,
        c0.0.len() == 4,
        c0.1.len() < 0x100000000,
        s.subrange(pos, s.len() as int) == spec_emit_chunk(c0) + erest,
    ensures
        pos + 8 <= s.len(),
        s.subrange(pos, pos + 4) == c0.0,
        spec_le32(s.subrange(pos + 4, pos + 8)) == c0.1.len(),
        pos + 8 + c0.1.len() <= s.len(),
        s.subrange(pos + 8, pos + 8 + c0.1.len() as int) == c0.1,
        ({
            let next = if (pos + 8 + c0.1.len()) % 2 == 1 {
                pos + 8 + c0.1.len() + 1
            } else {
                pos + 8 + c0.1.len() as int
            };
            &&& next == pos + spec_emit_chunk(c0).len()
            &&& next % 2 == 0
            &&& s.subrange(next, s.len() as int) == erest
        }),
{
    let sub = s.subrange(pos, s.len() as int);
    let e0 = spec_emit_chunk(c0);
    let d = c0.1.len() as int;
    let pad: int = if d % 2 == 1 {
        1
    } else {
        0
    };
    let lenb = spec_le32_bytes(((d % 0x100000000) as u32));
    let padseq: Seq<u8> = if d % 2 == 1 {
        seq![0u8]
    } else {
        Seq::<u8>::empty()
    };
    assert(e0 == c0.0 + lenb + c0.1 + padseq);
    assert(lenb.len() == 4 && padseq.len() == pad);
    assert(e0.len() == 8 + d + pad);
    assert(sub.len() == s.len() - pos);
    assert(sub.len() == e0.len() + erest.len());
    assert forall|i: int| 0 <= i < e0.len() implies s[pos + i] == e0[i] by {
        assert(sub[i] == (e0 + erest)[i]);
        assert(s[pos + i] == sub[i]);
    }
    assert forall|i: int| 0 <= i < 4 implies e0[i] == c0.0[i] by {
        assert(e0[i] == ((c0.0 + lenb) + c0.1)[i]);
        assert(((c0.0 + lenb) + c0.1)[i] == (c0.0 + lenb)[i]);
    }
    assert forall|i: int| 0 <= i < 4 implies e0[4 + i] == lenb[i] by {
        assert(e0[4 + i] == ((c0.0 + lenb) + c0.1)[4 + i]);
        assert(((c0.0 + lenb) + c0.1)[4 + i] == (c0.0 + lenb)[4 + i]);
    }
    assert forall|i: int| 0 <= i < d implies e0[8 + i] == c0.1[i] by {
        assert(e0[8 + i] == ((c0.0 + lenb) + c0.1)[8 + i]);
    }
    assert(s.subrange(pos, pos + 4) =~= c0.0);
    assert(s.subrange(pos + 4, pos + 8) =~= lenb);
    crate::bytes::lemma_le32_round_trip(((d % 0x100000000) as u32));
    assert(s.subrange(pos + 8, pos + 8 + d) =~= c0.1);
    let next = if (pos + 8 + d) % 2 == 1 {
        pos + 8 + d + 1
    } else {
        pos + 8 + d
    };
    assert(next == pos + e0.len());
    assert forall|i: int| 0 <= i < erest.len() implies s[next + i] == erest[i] by {
        assert(sub[e0.len() + i] == (e0 + erest)[e0.len() + i]);
        assert(s[pos + (e0.len() + i)] == sub[e0.len() + i]);
    }
    assert(s.subrange(next, s.len() as int) =~= erest);
}

} // verus!
