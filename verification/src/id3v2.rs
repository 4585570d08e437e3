//! The `Safe` policy for MP3 files: keep only the allow-listed ID3v2 frames,
//! rebuilt into a fresh tag, and drop the ID3v1 trailer.
//!
//! The binary layout of ID3v2 frames is owned by the `id3` crate; this module
//! owns only the classification and reconstruction policy. Everything learnt
//! from that crate passes through the trusted declarations below. The frames
//! themselves are opaque values; the crate's parse and serialize outcomes are
//! deterministic functions of their inputs, so they carry names
//! (`tag_parses`, `parsed_frames`, `tag_wire`, `tag_write_ok`) that the
//! contracts speak through.
//!
//! All safe-listed frames are text frames, so the rebuilt tag is constructed
//! from each kept frame's identifier and text alone. That keeps the frames'
//! serialized sizes in the library's own hands: the serializer asserts that
//! frame sizes fit its synchsafe fields, and the rebuild refuses, with an
//! encode error, any frame set whose total could reach that limit, instead
//! of ever letting the assertion fire.

use crate::bytes::{copy_range, lemma_filter_is_subset, lemma_filter_push, push_bytes};
use crate::error::ProcessingError;
use crate::mp3::{
    detect_id3v2_size, has_id3v1, spec_audio_end, spec_audio_span, spec_audio_start,
    spec_has_id3v1,
};
use id3::TagLike;
use vstd::prelude::*;
use vstd::seq_lib::*;
use vstd::string::StringExecFns;
use vstd::string::StringSliceAdditionalSpecFns;
use vstd::utf8::encode_utf8;

verus! {

/// The serialized frame data of a rebuilt tag must stay below the
/// serializer's synchsafe size limit of 2^28 bytes; rebuilds whose frames
/// could reach past this cap are refused with an encode error.
pub const TAG_WIRE_LIMIT: u64 = 0x0FFFFFFF;

#[verifier::external_type_specification]
#[verifier::external_body]
pub struct ExId3Tag(id3::Tag);

#[verifier::external_type_specification]
#[verifier::external_body]
pub struct ExId3Frame(id3::Frame);

#[verifier::external_type_specification]
#[verifier::external_body]
pub struct ExId3Error(id3::Error);

/// The frames a tag holds, in the tag's own order.
pub uninterp spec fn tag_frames(t: id3::Tag) -> Seq<id3::Frame>;

/// The identifier of one frame.
pub uninterp spec fn frame_id(f: id3::Frame) -> Seq<u8>;

/// The text a frame carries, when its content is text.
pub uninterp spec fn frame_text_value(f: id3::Frame) -> Option<Seq<char>>;

/// The frame's size on the wire at ID3v2.4: header plus encoded content.
pub uninterp spec fn frame_wire_size(f: id3::Frame) -> int;

/// The ID3v2.4 serialization of a tag, a function of its contents alone.
pub uninterp spec fn tag_wire(t: id3::Tag) -> Seq<u8>;

/// Whether serializing a tag at ID3v2.4 into a memory buffer succeeds; with
/// no I/O involved this, too, is a function of the tag's contents alone.
pub uninterp spec fn tag_write_ok(t: id3::Tag) -> bool;

/// Whether an ID3v2 tag parses from the start of the given bytes; the parse
/// reads the bytes alone, so its outcome is a function of them.
pub uninterp spec fn tag_parses(s: Seq<u8>) -> bool;

/// The frames of the tag that parses from the given bytes. Meaningful only
/// when `tag_parses` holds of them.
pub uninterp spec fn parsed_frames(s: Seq<u8>) -> Seq<id3::Frame>;

/// The summed wire sizes of a frame sequence.
pub open spec fn spec_wire_sum(fs: Seq<id3::Frame>) -> int
    decreases fs.len(),
{
    if fs.len() == 0 {
        0
    } else {
        spec_wire_sum(fs.drop_last()) + frame_wire_size(fs.last())
    }
}

/// Relies on `id3::Tag::read_from2` over an in-memory cursor: whether the
/// parse succeeds, and which frames it yields, depend on the bytes alone.
#[verifier::external_body]
fn tag_read(input: &[u8]) -> (r: Option<id3::Tag>)
    ensures
        r is Some <==> tag_parses(input@),
        r matches Some(t) ==> tag_frames(t) == parsed_frames(input@),
{
    id3::Tag::read_from2(std::io::Cursor::new(input)).ok()
}

/// Relies on `id3::Tag::new`: a freshly created tag holds no frames.
#[verifier::external_body]
fn tag_new() -> (r: id3::Tag)
    ensures
        tag_frames(r) == Seq::<id3::Frame>::empty(),
{
    id3::Tag::new()
}

/// Relies on `id3::Tag::frames`: the tag's frames are stored in a vector and
/// iterated in order, so their count is the length of that order.
#[verifier::external_body]
fn tag_frame_count(t: &id3::Tag) -> (r: usize)
    ensures
        r == tag_frames(*t).len(),
{
    t.frames().count()
}

/// Relies on `id3::Tag::frames` and `id3::Frame::id`: the identifier of the
/// frame at position `i` of the tag's own order.
#[verifier::external_body]
fn tag_frame_id_at(t: &id3::Tag, i: usize) -> (r: Vec<u8>)
    requires
        i < tag_frames(*t).len(),
    ensures
        r@ == frame_id(tag_frames(*t)[i as int]),
{
    t.frames().nth(i).map(|f| f.id().as_bytes().to_vec()).unwrap_or_default()
}

/// Relies on `id3::Tag::frames` and `id3::Content::text`: the text of the
/// frame at position `i`, which is there exactly when that frame's content
/// is a text value.
#[verifier::external_body]
fn tag_frame_text_at(t: &id3::Tag, i: usize) -> (r: Option<String>)
    requires
        i < tag_frames(*t).len(),
    ensures
        r is Some <==> frame_text_value(tag_frames(*t)[i as int]) is Some,
        r matches Some(s) ==> frame_text_value(tag_frames(*t)[i as int]) == Some(s@),
{
    t.frames().nth(i).and_then(|f| f.content().text()).map(|s| s.to_owned())
}

/// Relies on `id3::Frame::text` at ID3v2.4: a 4-byte identifier with a text
/// content, default flags and no explicit encoding. Such a frame serializes
/// as the 10-byte header, one encoding byte (UTF-8), and the text's UTF-8
/// bytes, nothing else.
#[verifier::external_body]
fn text_frame(id: &str, text: &str) -> (r: id3::Frame)
    requires
        id.spec_bytes().len() == 4,
    ensures
        frame_id(r) == id.spec_bytes(),
        frame_text_value(r) == Some(text@),
        frame_wire_size(r) == 11 + encode_utf8(text@).len(),
{
    id3::Frame::text(id, text)
}

/// Whether some frame of the sequence carries the given identifier.
pub open spec fn has_frame_with_id(fs: Seq<id3::Frame>, id: Seq<u8>) -> bool {
    exists|j: int| 0 <= j < fs.len() && frame_id(#[trigger] fs[j]) == id
}

/// Relies on `id3::TagLike::add_frame`: the frame is pushed onto the tag's
/// frame vector; at most one existing frame that the crate considers a
/// conflict (necessarily with the same identifier; for two text frames, any
/// same-identifier frame) is first removed and handed back.
#[verifier::external_body]
fn tag_add_frame(t: &mut id3::Tag, f: id3::Frame) -> (r: Option<id3::Frame>)
    ensures
        !has_frame_with_id(tag_frames(*old(t)), frame_id(f)) ==> tag_frames(*final (t))
            == tag_frames(*old(t)).push(f),
        has_frame_with_id(tag_frames(*old(t)), frame_id(f)) ==> (tag_frames(*final (t))
            == tag_frames(*old(t)).push(f) || exists|j: int|
            0 <= j < tag_frames(*old(t)).len() && frame_id(#[trigger] tag_frames(*old(t))[j])
                == frame_id(f) && tag_frames(*final (t)) == tag_frames(*old(t)).remove(j).push(f)),
{
    t.add_frame(f)
}

/// Relies on `id3::Tag::write_to` with version ID3v2.4 into a growable
/// buffer: success and the bytes written are functions of the tag's contents
/// alone. The serializer asserts that each frame's size and the total frame
/// data fit its 28-bit synchsafe fields, so the `requires` keeps tags that
/// could reach that limit out: under it the call returns, it never panics.
#[verifier::external_body]
fn tag_write(t: &id3::Tag) -> (r: Result<Vec<u8>, id3::Error>)
    requires
        forall|k: int|
            0 <= k < tag_frames(*t).len() ==> frame_wire_size(#[trigger] tag_frames(*t)[k]) >= 0,
        spec_wire_sum(tag_frames(*t)) < 0x10000000,
    ensures
        r is Ok <==> tag_write_ok(*t),
        r matches Ok(v) ==> v@ == tag_wire(*t),
{
    let mut out = Vec::new();
    t.write_to(&mut out, id3::Version::Id3v24).map(|_| out)
}

/// Relies on `id3::Error`'s `Display` impl, used only to word the error
/// report.
#[verifier::external_body]
fn id3_error_message(e: &id3::Error) -> String {
    format!("{}", e)
}

/// The fixed allow-list of safe ID3v2 frames: title, artist, album, year,
/// recording time, genre, track number.
pub open spec fn spec_safe_frame_id(id: Seq<u8>) -> bool {
    ||| id == seq![0x54u8, 0x49, 0x54, 0x32]  // "TIT2"
    ||| id == seq![0x54u8, 0x50, 0x45, 0x31]  // "TPE1"
    ||| id == seq![0x54u8, 0x41, 0x4c, 0x42]  // "TALB"
    ||| id == seq![0x54u8, 0x59, 0x45, 0x52]  // "TYER"
    ||| id == seq![0x54u8, 0x44, 0x52, 0x43]  // "TDRC"
    ||| id == seq![0x54u8, 0x43, 0x4f, 0x4e]  // "TCON"
    ||| id == seq![0x54u8, 0x52, 0x43, 0x4b]  // "TRCK"

}

/// Whether a frame is on the safe allow-list.
pub open spec fn frame_is_safe(f: id3::Frame) -> bool {
    spec_safe_frame_id(frame_id(f))
}

/// Whether a frame is kept by the rebuild: safe-listed, and carrying a text
/// value the tag model exposes (every safe-listed frame read from a real
/// tag is a text frame).
pub open spec fn spec_kept_frame(f: id3::Frame) -> bool {
    frame_is_safe(f) && frame_text_value(f) is Some
}

/// Whether no two identifiers in the sequence coincide.
pub open spec fn spec_distinct_ids(ids: Seq<Seq<u8>>) -> bool {
    forall|i: int, j: int| 0 <= i < j < ids.len() ==> ids[i] != ids[j]
}

/// Whether `g` preserves `f`: same identifier, same text.
pub open spec fn frame_matches(g: id3::Frame, f: id3::Frame) -> bool {
    frame_id(g) == frame_id(f) && frame_text_value(g) == frame_text_value(f)
}

/// Whether every frame of `t2` is on the safe allow-list and preserves one
/// of the given original frames, identifier and text.
pub open spec fn spec_rebuilt_from(t2: id3::Tag, frames: Seq<id3::Frame>) -> bool {
    forall|k: int|
        0 <= k < tag_frames(t2).len() ==> frame_is_safe(#[trigger] tag_frames(t2)[k])
            && (exists|j: int|
            0 <= j < frames.len() && frame_matches(tag_frames(t2)[k], #[trigger] frames[j]))
}

/// Whether `gs` preserves `fs` frame by frame: same length, and each frame
/// keeps its counterpart's identifier and text, in order.
pub open spec fn spec_frames_match(gs: Seq<id3::Frame>, fs: Seq<id3::Frame>) -> bool {
    gs.len() == fs.len() && (forall|k: int|
        0 <= k < gs.len() ==> frame_matches(#[trigger] gs[k], fs[k]))
}

/// The serialized footprint of the kept frames: 11 bytes of header and
/// encoding byte plus the text's UTF-8 bytes for each, 0 for a dropped
/// frame.
pub open spec fn spec_kept_wire_sum(fs: Seq<id3::Frame>) -> int
    decreases fs.len(),
{
    if fs.len() == 0 {
        0
    } else {
        spec_kept_wire_sum(fs.drop_last()) + if spec_kept_frame(fs.last()) {
            11 + encode_utf8(frame_text_value(fs.last()).unwrap()).len()
        } else {
            0
        }
    }
}

/// A prefix of the frames never outweighs the whole: each frame contributes
/// a non-negative footprint.
proof fn lemma_kept_wire_take_le(fs: Seq<id3::Frame>, i: int)
    requires
        0 <= i <= fs.len(),
    ensures
        spec_kept_wire_sum(fs.take(i)) <= spec_kept_wire_sum(fs),
    decreases fs.len() - i,
{
    if i < fs.len() {
        assert(fs.take(i + 1).drop_last() =~= fs.take(i));
        assert(fs.take(i + 1).last() == fs[i]);
        lemma_kept_wire_take_le(fs, i + 1);
    } else {
        assert(fs.take(i) =~= fs);
    }
}

/// What stripping unsafe frames returns, given the frames of the parsed tag.
///
/// With nothing to remove the input comes back byte-for-byte; with an empty
/// or inverted audio span the result is a decode error. Otherwise a tag is
/// rebuilt from the kept frames - the safe-listed text frames, each
/// preserving its identifier and text, exactly and in order when the
/// original identifiers are distinct - and the result is that tag's
/// serialization followed by the audio bytes. An encode error comes exactly
/// when the kept frames' serialized footprint would overrun the
/// serializer's size limit, or when the rebuilt tag fails to serialize.
pub open spec fn spec_safe_strip_post(
    s: Seq<u8>,
    frames: Seq<id3::Frame>,
    r: Result<Vec<u8>, ProcessingError>,
) -> bool {
    let safe_count = frames.filter(|f: id3::Frame| frame_is_safe(f)).len();
    let kept = frames.filter(|f: id3::Frame| spec_kept_frame(f));
    let ids = frames.map_values(|f: id3::Frame| frame_id(f));
    &&& (safe_count == frames.len() && !spec_has_id3v1(s) ==> (r matches Ok(v) && v@ == s))
    &&& ((safe_count < frames.len() || spec_has_id3v1(s)) && spec_audio_start(s)
        >= spec_audio_end(s) ==> (r matches Err(e) && e is Decode))
    &&& ((safe_count < frames.len() || spec_has_id3v1(s)) && spec_audio_start(s) < spec_audio_end(
        s,
    ) && spec_kept_wire_sum(frames) > TAG_WIRE_LIMIT as int ==> (r matches Err(e) && e is Encode))
    &&& ((safe_count < frames.len() || spec_has_id3v1(s)) && spec_audio_start(s) < spec_audio_end(
        s,
    ) && spec_kept_wire_sum(frames) <= TAG_WIRE_LIMIT as int ==> (match r {
        Ok(v) => (exists|t2: id3::Tag|
            spec_rebuilt_from(t2, frames) && tag_write_ok(t2) && v@ == tag_wire(t2)
                + spec_audio_span(s)) && (spec_distinct_ids(ids) ==> exists|t2: id3::Tag|
            spec_frames_match(tag_frames(t2), kept) && tag_write_ok(t2) && v@ == tag_wire(t2)
                + spec_audio_span(s)),
        Err(e) => e is Encode && (exists|t2: id3::Tag|
            spec_rebuilt_from(t2, frames) && !tag_write_ok(t2)) && (spec_distinct_ids(ids)
            ==> exists|t2: id3::Tag| spec_frames_match(tag_frames(t2), kept) && !tag_write_ok(t2)),
    }))
}

/// What the whole `Safe` strip returns. When no ID3v2 tag parses, the result
/// is exactly the input with its ID3v1 trailer dropped if one is there;
/// when a tag parses, the rebuild contract holds of the parsed frames.
pub open spec fn spec_strip_safe_outcome(s: Seq<u8>, r: Result<Vec<u8>, ProcessingError>) -> bool {
    &&& (!tag_parses(s) && spec_has_id3v1(s) ==> (r matches Ok(v) && v@ == s.subrange(
        0,
        s.len() - 128,
    )))
    &&& (!tag_parses(s) && !spec_has_id3v1(s) ==> (r matches Ok(v) && v@ == s))
    &&& (tag_parses(s) ==> spec_safe_strip_post(s, parsed_frames(s), r))
}

/// Whether a frame identifier is on the safe allow-list.
fn is_safe_frame_bytes(id: &[u8]) -> (r: bool)
    ensures
        r == spec_safe_frame_id(id@),
{
    if id.len() != 4 {
        proof {
            assert(!spec_safe_frame_id(id@));
        }
        return false;
    }
    proof {
        assert(id@ =~= seq![id@[0], id@[1], id@[2], id@[3]]);
    }
    (id[0] == 0x54 && id[1] == 0x49 && id[2] == 0x54 && id[3] == 0x32) || (id[0] == 0x54 && id[1]
        == 0x50 && id[2] == 0x45 && id[3] == 0x31) || (id[0] == 0x54 && id[1] == 0x41 && id[2]
        == 0x4c && id[3] == 0x42) || (id[0] == 0x54 && id[1] == 0x59 && id[2] == 0x45 && id[3]
        == 0x52) || (id[0] == 0x54 && id[1] == 0x44 && id[2] == 0x52 && id[3] == 0x43) || (id[0]
        == 0x54 && id[1] == 0x43 && id[2] == 0x4f && id[3] == 0x4e) || (id[0] == 0x54 && id[1]
        == 0x52 && id[2] == 0x43 && id[3] == 0x4b)
}

/// The allow-listed identifier as its own literal, so a rebuilt frame can be
/// created from it.
fn safe_frame_id_str(id: &[u8]) -> (r: Option<&'static str>)
    ensures
        r is Some <==> spec_safe_frame_id(id@),
        r matches Some(s) ==> s.spec_bytes() == id@ && s.spec_bytes().len() == 4,
{
    if id.len() != 4 {
        proof {
            assert(!spec_safe_frame_id(id@));
        }
        return None;
    }
    proof {
        assert(id@ =~= seq![id@[0], id@[1], id@[2], id@[3]]);
        vstd::string::is_ascii_spec_bytes("TIT2");
        vstd::string::is_ascii_spec_bytes("TPE1");
        vstd::string::is_ascii_spec_bytes("TALB");
        vstd::string::is_ascii_spec_bytes("TYER");
        vstd::string::is_ascii_spec_bytes("TDRC");
        vstd::string::is_ascii_spec_bytes("TCON");
        vstd::string::is_ascii_spec_bytes("TRCK");
        reveal_strlit("TIT2");
        reveal_strlit("TPE1");
        reveal_strlit("TALB");
        reveal_strlit("TYER");
        reveal_strlit("TDRC");
        reveal_strlit("TCON");
        reveal_strlit("TRCK");
    }
    if id[0] == 0x54 && id[1] == 0x49 && id[2] == 0x54 && id[3] == 0x32 {
        proof {
            assert("TIT2".spec_bytes() =~= id@);
        }
        Some("TIT2")
    } else if id[0] == 0x54 && id[1] == 0x50 && id[2] == 0x45 && id[3] == 0x31 {
        proof {
            assert("TPE1".spec_bytes() =~= id@);
        }
        Some("TPE1")
    } else if id[0] == 0x54 && id[1] == 0x41 && id[2] == 0x4c && id[3] == 0x42 {
        proof {
            assert("TALB".spec_bytes() =~= id@);
        }
        Some("TALB")
    } else if id[0] == 0x54 && id[1] == 0x59 && id[2] == 0x45 && id[3] == 0x52 {
        proof {
            assert("TYER".spec_bytes() =~= id@);
        }
        Some("TYER")
    } else if id[0] == 0x54 && id[1] == 0x44 && id[2] == 0x52 && id[3] == 0x43 {
        proof {
            assert("TDRC".spec_bytes() =~= id@);
        }
        Some("TDRC")
    } else if id[0] == 0x54 && id[1] == 0x43 && id[2] == 0x4f && id[3] == 0x4e {
        proof {
            assert("TCON".spec_bytes() =~= id@);
        }
        Some("TCON")
    } else if id[0] == 0x54 && id[1] == 0x52 && id[2] == 0x43 && id[3] == 0x4b {
        proof {
            assert("TRCK".spec_bytes() =~= id@);
        }
        Some("TRCK")
    } else {
        None
    }
}

/// The safe-frame allow-list, as the frame identifiers themselves.
pub fn get_safe_frame_ids() -> (r: Vec<&'static str>)
    ensures
        r@.map_values(|s: &str| s@) == seq![
            "TIT2"@,
            "TPE1"@,
            "TALB"@,
            "TYER"@,
            "TDRC"@,
            "TCON"@,
            "TRCK"@,
        ],
{
    let mut v: Vec<&'static str> = Vec::new();
    v.push("TIT2");
    v.push("TPE1");
    v.push("TALB");
    v.push("TYER");
    v.push("TDRC");
    v.push("TCON");
    v.push("TRCK");
    proof {
        assert(v@.map_values(|s: &str| s@) =~= seq![
            "TIT2"@,
            "TPE1"@,
            "TALB"@,
            "TYER"@,
            "TDRC"@,
            "TCON"@,
            "TRCK"@,
        ]);
    }
    v
}

/// Rebuilds the tag keeping only safe-listed frames, preserving each kept
/// frame's identifier and text, and concatenates the new tag's serialization
/// with the audio bytes.
///
/// When there is nothing to remove - no unsafe frame and no ID3v1 trailer -
/// the input is returned unchanged, byte for byte. An empty or inverted
/// audio span is a structural decode error. An encode error comes exactly
/// when the kept frames would overrun the serializer's size limit, or when
/// the rebuilt tag fails to serialize.
pub fn strip_unsafe_with_tag(input: &[u8], tag: &id3::Tag) -> (r: Result<Vec<u8>, ProcessingError>)
    ensures
        spec_safe_strip_post(input@, tag_frames(*tag), r),
{
    let ghost frames = tag_frames(*tag);
    let ghost safe_pred = |f: id3::Frame| frame_is_safe(f);
    let ghost kept_pred = |f: id3::Frame| spec_kept_frame(f);
    let ghost ids = frames.map_values(|f: id3::Frame| frame_id(f));
    let n = tag_frame_count(tag);
    let mut safe_count: usize = 0;
    let mut i: usize = 0;
    while i < n
        invariant
            n == frames.len(),
            frames == tag_frames(*tag),
            safe_pred == (|f: id3::Frame| frame_is_safe(f)),
            i <= n,
            safe_count <= i,
            safe_count == frames.take(i as int).filter(safe_pred).len(),
        decreases n - i,
    {
        let idb = tag_frame_id_at(tag, i);
        let safe = is_safe_frame_bytes(idb.as_slice());
        proof {
            assert(frames.take(i + 1) =~= frames.take(i as int).push(frames[i as int]));
            lemma_filter_push(frames.take(i as int), safe_pred, frames[i as int]);
        }
        if safe {
            safe_count = safe_count + 1;
        }
        i = i + 1;
    }
    proof {
        assert(frames.take(n as int) =~= frames);
    }
    let has_v1 = has_id3v1(input);
    if safe_count == n && !has_v1 {
        return Ok(vstd::slice::slice_to_vec(input));
    }
    let audio_start = detect_id3v2_size(input);
    let audio_end = if has_v1 {
        input.len() - 128
    } else {
        input.len()
    };
    if audio_start >= audio_end {
        return Err(
            ProcessingError::Decode("Invalid MP3 structure: no audio data found".to_owned()),
        );
    }
    let mut new_tag = tag_new();
    let mut total: u64 = 0;
    let mut i: usize = 0;
    while i < n
        invariant
            n == frames.len(),
            frames == tag_frames(*tag),
            safe_pred == (|f: id3::Frame| frame_is_safe(f)),
            kept_pred == (|f: id3::Frame| spec_kept_frame(f)),
            ids == frames.map_values(|f: id3::Frame| frame_id(f)),
            safe_count == frames.filter(safe_pred).len(),
            !(safe_count == n && !spec_has_id3v1(input@)),
            spec_audio_start(input@) < spec_audio_end(input@),
            i <= n,
            total <= TAG_WIRE_LIMIT,
            total == spec_kept_wire_sum(frames.take(i as int)),
            spec_wire_sum(tag_frames(new_tag)) <= total as int,
            forall|k: int|
                0 <= k < tag_frames(new_tag).len() ==> frame_wire_size(
                    #[trigger] tag_frames(new_tag)[k],
                ) >= 0,
            spec_rebuilt_from(new_tag, frames),
            spec_distinct_ids(ids) ==> spec_frames_match(
                tag_frames(new_tag),
                frames.take(i as int).filter(kept_pred),
            ),
        decreases n - i,
    {
        let ghost prev_frames = tag_frames(new_tag);
        proof {
            assert(frames.take(i + 1) =~= frames.take(i as int).push(frames[i as int]));
            assert(frames.take(i + 1).drop_last() =~= frames.take(i as int));
            assert(frames.take(i + 1).last() == frames[i as int]);
            lemma_filter_push(frames.take(i as int), kept_pred, frames[i as int]);
        }
        let idb = tag_frame_id_at(tag, i);
        match safe_frame_id_str(idb.as_slice()) {
            None => {
                proof {
                    assert(!spec_kept_frame(frames[i as int]));
                    assert(spec_kept_wire_sum(frames.take(i + 1)) == spec_kept_wire_sum(
                        frames.take(i as int),
                    ));
                }
            },
            Some(sid) => {
                match tag_frame_text_at(tag, i) {
                    None => {
                        proof {
                            assert(!spec_kept_frame(frames[i as int]));
                            assert(spec_kept_wire_sum(frames.take(i + 1)) == spec_kept_wire_sum(
                                frames.take(i as int),
                            ));
                        }
                    },
                    Some(text) => {
                        proof {
                            assert(spec_kept_frame(frames[i as int]));
                        }
                        let ts = text.as_str();
                        let len64 = ts.as_bytes().len() as u64;
                        proof {
                            assert(ts.spec_bytes() == encode_utf8(text@));
                            assert(len64 as int == encode_utf8(text@).len());
                            lemma_kept_wire_take_le(frames, i + 1);
                        }
                        if len64 > TAG_WIRE_LIMIT {
                            return Err(
                                ProcessingError::Encode(
                                    "ID3 tag too large to serialize".to_owned(),
                                ),
                            );
                        }
                        if 11 + len64 > TAG_WIRE_LIMIT - total {
                            return Err(
                                ProcessingError::Encode(
                                    "ID3 tag too large to serialize".to_owned(),
                                ),
                            );
                        }
                        let f = text_frame(sid, ts);
                        proof {
                            assert(frame_id(f) == frame_id(frames[i as int]));
                            assert(frame_text_value(f) == frame_text_value(frames[i as int]));
                            assert(frame_matches(f, frames[i as int]));
                            if spec_distinct_ids(ids) {
                                if has_frame_with_id(prev_frames, frame_id(f)) {
                                    let j = choose|j: int|
                                        0 <= j < prev_frames.len() && frame_id(prev_frames[j])
                                            == frame_id(f);
                                    let filtered = frames.take(i as int).filter(kept_pred);
                                    assert(frame_matches(prev_frames[j], filtered[j]));
                                    assert(filtered.contains(filtered[j]));
                                    lemma_filter_is_subset(
                                        frames.take(i as int),
                                        kept_pred,
                                        filtered[j],
                                    );
                                    let k2 = choose|k2: int|
                                        0 <= k2 < frames.take(i as int).len() && frames.take(
                                            i as int,
                                        )[k2] == filtered[j];
                                    assert(frames[k2] == filtered[j]);
                                    assert(ids[k2] == frame_id(frames[k2]));
                                    assert(ids[i as int] == frame_id(frames[i as int]));
                                    assert(false);
                                }
                            }
                        }
                        let _replaced = tag_add_frame(&mut new_tag, f);
                        total = total + 11 + len64;
                        proof {
                            let now = tag_frames(new_tag);
                            assert(len64 as int == encode_utf8(text@).len());
                            assert(frame_text_value(frames[i as int]).unwrap() == text@);
                            assert(spec_kept_wire_sum(frames.take(i + 1)) == spec_kept_wire_sum(
                                frames.take(i as int),
                            ) + 11 + encode_utf8(text@).len());
                            assert(frame_wire_size(f) == 11 + len64 as int);
                            // both add outcomes keep every frame safe, sourced
                            // from the originals, non-negative in size, and
                            // within the running total
                            if now == prev_frames.push(f) {
                                assert(spec_wire_sum(now) == spec_wire_sum(prev_frames)
                                    + frame_wire_size(f)) by {
                                    assert(now.drop_last() =~= prev_frames);
                                    assert(now.last() == f);
                                }
                                assert forall|k: int|
                                    0 <= k < now.len() implies frame_is_safe(
                                    #[trigger] now[k],
                                ) && (exists|j2: int|
                                    0 <= j2 < frames.len() && frame_matches(now[k], frames[j2]))
                                    && frame_wire_size(now[k]) >= 0 by {
                                    if k < prev_frames.len() {
                                        assert(now[k] == prev_frames[k]);
                                    } else {
                                        assert(now[k] == f);
                                        assert(frame_matches(now[k], frames[i as int]));
                                    }
                                }
                            } else {
                                let j = choose|j: int|
                                    0 <= j < prev_frames.len() && frame_id(
                                        #[trigger] prev_frames[j],
                                    ) == frame_id(f) && tag_frames(new_tag) == prev_frames.remove(
                                        j,
                                    ).push(f);
                                let removed = prev_frames.remove(j);
                                prev_frames.remove_ensures(j);
                                assert(spec_wire_sum(now) == spec_wire_sum(removed)
                                    + frame_wire_size(f)) by {
                                    assert(now.drop_last() =~= removed);
                                    assert(now.last() == f);
                                }
                                lemma_wire_sum_remove(prev_frames, j);
                                assert forall|k: int|
                                    0 <= k < now.len() implies frame_is_safe(
                                    #[trigger] now[k],
                                ) && (exists|j2: int|
                                    0 <= j2 < frames.len() && frame_matches(now[k], frames[j2]))
                                    && frame_wire_size(now[k]) >= 0 by {
                                    if k < removed.len() {
                                        assert(now[k] == removed[k]);
                                        if k < j {
                                            assert(removed[k] == prev_frames[k]);
                                        } else {
                                            assert(removed[k] == prev_frames[k + 1]);
                                        }
                                    } else {
                                        assert(now[k] == f);
                                        assert(frame_matches(now[k], frames[i as int]));
                                    }
                                }
                            }
                            if spec_distinct_ids(ids) {
                                assert(now == prev_frames.push(f));
                                assert(frames.take(i + 1).filter(kept_pred) == frames.take(
                                    i as int,
                                ).filter(kept_pred).push(frames[i as int]));
                                assert forall|k: int|
                                    0 <= k < now.len() implies frame_matches(
                                    #[trigger] now[k],
                                    frames.take(i + 1).filter(kept_pred)[k],
                                ) by {
                                    let filtered = frames.take(i as int).filter(kept_pred);
                                    if k < prev_frames.len() {
                                        assert(now[k] == prev_frames[k]);
                                        assert(frames.take(i + 1).filter(kept_pred)[k]
                                            == filtered[k]);
                                    } else {
                                        assert(now[k] == f);
                                        assert(frames.take(i + 1).filter(kept_pred)[k]
                                            == frames[i as int]);
                                    }
                                }
                            }
                        }
                    },
                }
            },
        }
        i = i + 1;
    }
    proof {
        assert(frames.take(n as int) =~= frames);
    }
    let audio = copy_range(input, audio_start, audio_end);
    match tag_write(&new_tag) {
        Ok(mut out) => {
            push_bytes(&mut out, audio.as_slice());
            proof {
                assert(tag_write_ok(new_tag));
                assert(out@ == tag_wire(new_tag) + spec_audio_span(input@));
                assert(exists|t2: id3::Tag|
                    spec_rebuilt_from(t2, frames) && tag_write_ok(t2) && out@ == tag_wire(t2)
                        + spec_audio_span(input@));
                if spec_distinct_ids(ids) {
                    assert(exists|t2: id3::Tag|
                        spec_frames_match(tag_frames(t2), frames.filter(kept_pred))
                            && tag_write_ok(t2) && out@ == tag_wire(t2) + spec_audio_span(
                            input@,
                        ));
                }
            }
            Ok(out)
        },
        Err(e) => {
            proof {
                assert(!tag_write_ok(new_tag));
                assert(exists|t2: id3::Tag| spec_rebuilt_from(t2, frames) && !tag_write_ok(t2));
                if spec_distinct_ids(ids) {
                    assert(exists|t2: id3::Tag|
                        spec_frames_match(tag_frames(t2), frames.filter(kept_pred))
                            && !tag_write_ok(t2));
                }
            }
            let mut msg = "Failed to write ID3 tag: ".to_owned();
            msg.append(id3_error_message(&e).as_str());
            Err(ProcessingError::Encode(msg))
        },
    }
}

/// Removing one frame never increases the summed wire sizes, when every
/// frame's size is non-negative.
proof fn lemma_wire_sum_remove(fs: Seq<id3::Frame>, j: int)
    requires
        0 <= j < fs.len(),
        forall|k: int| 0 <= k < fs.len() ==> frame_wire_size(#[trigger] fs[k]) >= 0,
    ensures
        spec_wire_sum(fs.remove(j)) <= spec_wire_sum(fs),
    decreases fs.len(),
{
    if fs.len() > 0 {
        if j == fs.len() - 1 {
            assert(fs.remove(j) =~= fs.drop_last());
            assert(frame_wire_size(fs.last()) >= 0);
        } else {
            assert(fs.remove(j).drop_last() =~= fs.drop_last().remove(j));
            assert(fs.remove(j).last() == fs.last());
            assert forall|k: int|
                0 <= k < fs.drop_last().len() implies frame_wire_size(
                #[trigger] fs.drop_last()[k],
            ) >= 0 by {
                assert(fs.drop_last()[k] == fs[k]);
            }
            lemma_wire_sum_remove(fs.drop_last(), j);
        }
    }
}

/// Strips unsafe metadata under the `Safe` policy. If no ID3v2 tag parses,
/// the result is exactly the input with only a trailing ID3v1 tag (if
/// present) removed; otherwise the tag is rebuilt from its safe-listed
/// frames, identifier and text preserved.
pub fn strip_unsafe_tags(input: &[u8]) -> (r: Result<Vec<u8>, ProcessingError>)
    ensures
        spec_strip_safe_outcome(input@, r),
{
    match tag_read(input) {
        Some(tag) => strip_unsafe_with_tag(input, &tag),
        None => {
            if has_id3v1(input) {
                let end = input.len() - 128;
                let out = copy_range(input, 0, end);
                return Ok(out);
            }
            Ok(vstd::slice::slice_to_vec(input))
        },
    }
}

} // verus!
