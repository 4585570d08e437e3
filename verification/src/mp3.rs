//! The MP3 tag engine, byte-level part: locating the ID3v2 tag through its
//! synchsafe size field, detecting the fixed 128-byte ID3v1 trailer, and
//! stripping both tags away to leave the bare audio frames.
//!
//! The `Safe` policy, which rebuilds an ID3v2 tag from its safe frames, lives
//! in the neighbouring module that speaks to the tag parser.

use crate::bytes::{copy_range, spec_lex_lt_bytes, spec_lex_lt_chars, spec_u64_string, str_eq};
use crate::error::ProcessingError;
use vstd::prelude::*;

verus! {

/// An MP3 processing stage, holding no state of its own.
pub struct Mp3Processor;

/// The value of a 4-byte synchsafe size field: only the low 7 bits of each
/// byte are significant, so each byte is masked before its bits are
/// combined. A byte with its high bit set contributes its low bits alone.
pub open spec fn spec_synchsafe_value(b6: u8, b7: u8, b8: u8, b9: u8) -> u32 {
    (((b6 & 0x7f) as u32) << 21) | (((b7 & 0x7f) as u32) << 14) | (((b8 & 0x7f) as u32) << 7) | ((
    b9 & 0x7f) as u32)
}

/// The 4-byte synchsafe encoding of `v`: the low 7 bits of each byte carry
/// data, the high bit of each byte stays clear.
pub open spec fn spec_synchsafe_bytes(v: u32) -> Seq<u8> {
    seq![
        (((v >> 21) & 0x7f) as u8),
        (((v >> 14) & 0x7f) as u8),
        (((v >> 7) & 0x7f) as u8),
        ((v & 0x7f) as u8),
    ]
}

/// The total span of the ID3v2 tag at the start of `s`, header included, or
/// 0 when no `ID3` signature is there.
pub open spec fn spec_id3v2_size(s: Seq<u8>) -> int {
    if s.len() >= 10 && s[0] == 0x49 && s[1] == 0x44 && s[2] == 0x33 {  // "ID3"
        spec_synchsafe_value(s[6], s[7], s[8], s[9]) + 10
    } else {
        0
    }
}

/// Whether the last 128 bytes of `s` form an ID3v1 trailer (they begin with
/// `TAG`).
pub open spec fn spec_has_id3v1(s: Seq<u8>) -> bool {
    &&& s.len() >= 128
    &&& s[s.len() - 128] == 0x54  // 'T'
    &&& s[s.len() - 127] == 0x41  // 'A'
    &&& s[s.len() - 126] == 0x47  // 'G'

}

/// Where the audio data starts: right after any ID3v2 tag.
pub open spec fn spec_audio_start(s: Seq<u8>) -> int {
    spec_id3v2_size(s)
}

/// Where the audio data ends: right before any ID3v1 trailer.
pub open spec fn spec_audio_end(s: Seq<u8>) -> int {
    if spec_has_id3v1(s) {
        s.len() - 128
    } else {
        s.len() as int
    }
}

/// The audio bytes strictly between the two tags. Meaningful only when the
/// span is neither empty nor inverted.
pub open spec fn spec_audio_span(s: Seq<u8>) -> Seq<u8> {
    s.subrange(spec_audio_start(s), spec_audio_end(s))
}

/// Encoding a value below 2^28 as synchsafe and reading the field back
/// recovers the value.
pub proof fn lemma_synchsafe_round_trip(v: u32)
    requires
        v < 0x10000000,
    ensures
        spec_synchsafe_bytes(v).len() == 4,
        spec_synchsafe_value(
            spec_synchsafe_bytes(v)[0],
            spec_synchsafe_bytes(v)[1],
            spec_synchsafe_bytes(v)[2],
            spec_synchsafe_bytes(v)[3],
        ) == v,
        forall|i: int| 0 <= i < 4 ==> spec_synchsafe_bytes(v)[i] < 0x80,
{
    let b6 = ((v >> 21) & 0x7f) as u8;
    let b7 = ((v >> 14) & 0x7f) as u8;
    let b8 = ((v >> 7) & 0x7f) as u8;
    let b9 = (v & 0x7f) as u8;
    assert((((((v >> 21) & 0x7f) as u8) & 0x7f) as u32) == (v >> 21) & 0x7f) by (bit_vector);
    assert((((((v >> 14) & 0x7f) as u8) & 0x7f) as u32) == (v >> 14) & 0x7f) by (bit_vector);
    assert((((((v >> 7) & 0x7f) as u8) & 0x7f) as u32) == (v >> 7) & 0x7f) by (bit_vector);
    assert((((v & 0x7f) as u8) & 0x7f) as u32 == v & 0x7f) by (bit_vector);
    assert((((v >> 21) & 0x7f) << 21) | (((v >> 14) & 0x7f) << 14) | (((v >> 7) & 0x7f) << 7) | (
    v & 0x7f) == v) by (bit_vector)
        requires
            v < 0x10000000u32,
    ;
    assert((((v >> 21) & 0x7f) as u8) < 0x80) by (bit_vector);
    assert((((v >> 14) & 0x7f) as u8) < 0x80) by (bit_vector);
    assert((((v >> 7) & 0x7f) as u8) < 0x80) by (bit_vector);
    assert(((v & 0x7f) as u8) < 0x80) by (bit_vector);
    assert(spec_synchsafe_bytes(v)[0] == b6);
    assert(spec_synchsafe_bytes(v)[1] == b7);
    assert(spec_synchsafe_bytes(v)[2] == b8);
    assert(spec_synchsafe_bytes(v)[3] == b9);
}

/// Encodes a tag size below 2^28 as a 4-byte synchsafe field.
pub fn encode_synchsafe(v: u32) -> (r: [u8; 4])
    requires
        v < 0x10000000,
    ensures
        r@ == spec_synchsafe_bytes(v),
{
    let r: [u8; 4] = [
        ((v >> 21) & 0x7f) as u8,
        ((v >> 14) & 0x7f) as u8,
        ((v >> 7) & 0x7f) as u8,
        (v & 0x7f) as u8,
    ];
    proof {
        assert(r@ =~= spec_synchsafe_bytes(v));
    }
    r
}

/// Reads a 4-byte synchsafe field back into the value it carries.
pub fn decode_synchsafe(b: &[u8; 4]) -> (r: u32)
    ensures
        r == spec_synchsafe_value(b[0], b[1], b[2], b[3]),
{
    (((b[0] & 0x7f) as u32) << 21u32) | (((b[1] & 0x7f) as u32) << 14u32) | (((b[2] & 0x7f) as u32)
        << 7u32) | ((b[3] & 0x7f) as u32)
}

/// The total size of the ID3v2 tag at the start of the file, the 10-byte
/// header included, or 0 when there is none.
pub fn detect_id3v2_size(input: &[u8]) -> (r: usize)
    ensures
        r == spec_id3v2_size(input@),
{
    if input.len() < 10 {
        return 0;
    }
    if !(input[0] == 0x49 && input[1] == 0x44 && input[2] == 0x33) {
        return 0;
    }
    let size = (((input[6] & 0x7f) as u32) << 21u32) | (((input[7] & 0x7f) as u32) << 14u32) | (((
    input[8] & 0x7f) as u32) << 7u32) | ((input[9] & 0x7f) as u32);
    proof {
        let x6 = input@[6];
        let x7 = input@[7];
        let x8 = input@[8];
        let x9 = input@[9];
        assert((((x6 & 0x7f) as u32) << 21u32) | (((x7 & 0x7f) as u32) << 14u32) | (((x8 & 0x7f)
            as u32) << 7u32) | ((x9 & 0x7f) as u32) < 0x10000000u32) by (bit_vector);
    }
    (size as usize) + 10
}

/// Whether the file carries an ID3v1 trailer in its last 128 bytes.
pub fn has_id3v1(input: &[u8]) -> (r: bool)
    ensures
        r == spec_has_id3v1(input@),
{
    if input.len() < 128 {
        return false;
    }
    let t = input.len() - 128;
    input[t] == 0x54 && input[t + 1] == 0x41 && input[t + 2] == 0x47
}

/// Removes both ID3 tags, returning only the audio bytes between them. An
/// empty or inverted audio span is a structural decode error.
pub fn strip_all_tags(input: &[u8]) -> (r: Result<Vec<u8>, ProcessingError>)
    ensures
        spec_audio_start(input@) >= spec_audio_end(input@) ==> (r matches Err(e) && e is Decode),
        spec_audio_start(input@) < spec_audio_end(input@) ==> (r matches Ok(v) && v@
            == spec_audio_span(input@)),
{
    let audio_start = detect_id3v2_size(input);
    let has_v1 = has_id3v1(input);
    let audio_end = if has_v1 {
        input.len() - 128
    } else {
        input.len()
    };
    if audio_start >= audio_end {
        return Err(
            ProcessingError::Decode("Invalid MP3 structure: no audio data found".to_owned()),
        );
    }
    Ok(copy_range(input, audio_start, audio_end))
}

/// A byte trimmed from the end of an ID3v1 field: NUL padding or ASCII
/// whitespace.
pub open spec fn spec_v1_pad(b: u8) -> bool {
    b == 0 || b == 0x20 || b == 0x09 || b == 0x0a || b == 0x0d
}

/// The field with its trailing NUL padding and whitespace removed.
pub open spec fn spec_trim_trailing(s: Seq<u8>) -> Seq<u8>
    decreases s.len(),
{
    if s.len() > 0 && spec_v1_pad(s.last()) {
        spec_trim_trailing(s.drop_last())
    } else {
        s
    }
}

/// The field with its leading whitespace removed as well.
pub open spec fn spec_trim_leading(s: Seq<u8>) -> Seq<u8>
    decreases s.len(),
{
    if s.len() > 0 && (s.first() == 0x20 || s.first() == 0x09 || s.first() == 0x0a || s.first()
        == 0x0d) {
        spec_trim_leading(s.drop_first())
    } else {
        s
    }
}

/// An ID3v1 field trimmed as the inspection report shows it.
pub open spec fn spec_v1_field(s: Seq<u8>, from: int, to: int) -> Seq<u8> {
    spec_trim_leading(spec_trim_trailing(s.subrange(from, to)))
}

/// Trims trailing NUL padding and whitespace, then leading whitespace.
fn trim_v1_field(v: &mut Vec<u8>)
    ensures
        final (v)@ == spec_trim_leading(spec_trim_trailing(old(v)@)),
{
    loop
        invariant
            spec_trim_trailing(v@) == spec_trim_trailing(old(v)@),
        ensures
            spec_trim_trailing(v@) == spec_trim_trailing(old(v)@),
            v@ == spec_trim_trailing(old(v)@),
        decreases v@.len(),
    {
        if v.len() == 0 {
            break ;
        }
        let b = v[v.len() - 1];
        if !(b == 0 || b == 0x20 || b == 0x09 || b == 0x0a || b == 0x0d) {
            break ;
        }
        let ghost prev = v@;
        v.pop();
        proof {
            assert(v@ =~= prev.drop_last());
        }
    }
    let n = v.len();
    let mut from: usize = 0;
    proof {
        assert(v@.skip(0) =~= v@);
    }
    loop
        invariant
            from <= n == v@.len(),
            spec_trim_leading(v@.skip(from as int)) == spec_trim_leading(v@),
        ensures
            from <= n == v@.len(),
            spec_trim_leading(v@.skip(from as int)) == spec_trim_leading(v@),
            from < n ==> !(v@[from as int] == 0x20 || v@[from as int] == 0x09 || v@[from as int]
                == 0x0a || v@[from as int] == 0x0d),
        decreases n - from,
    {
        if from >= n {
            break ;
        }
        let b = v[from];
        proof {
            assert(v@.skip(from as int).first() == v@[from as int]);
            assert(v@.skip(from as int).drop_first() =~= v@.skip(from as int + 1));
        }
        if !(b == 0x20 || b == 0x09 || b == 0x0a || b == 0x0d) {
            break ;
        }
        from = from + 1;
    }
    let trimmed = crate::bytes::copy_range(v.as_slice(), from, n);
    proof {
        if from < n {
            assert(v@.skip(from as int).first() == v@[from as int]);
        }
        assert(spec_trim_leading(v@.skip(from as int)) == v@.skip(from as int));
        assert(v@.subrange(from as int, n as int) =~= v@.skip(from as int));
    }
    *v = trimmed;
}

/// The fixed-offset fields of the ID3v1 trailer - title, artist, album,
/// year, comment, and the genre code - each text field trimmed of its NUL
/// padding and surrounding whitespace. `None` when the file carries no
/// ID3v1 trailer.
pub fn id3v1_fields(input: &[u8]) -> (r: Option<
    (Vec<u8>, Vec<u8>, Vec<u8>, Vec<u8>, Vec<u8>, u8),
>)
    ensures
        r is Some <==> spec_has_id3v1(input@),
        r matches Some(f) ==> ({
            let t = input@.len() - 128;
            &&& f.0@ == spec_v1_field(input@, t + 3, t + 33)
            &&& f.1@ == spec_v1_field(input@, t + 33, t + 63)
            &&& f.2@ == spec_v1_field(input@, t + 63, t + 93)
            &&& f.3@ == spec_v1_field(input@, t + 93, t + 97)
            &&& f.4@ == spec_v1_field(input@, t + 97, t + 127)
            &&& f.5 == input@[input@.len() - 1]
        }),
{
    if !has_id3v1(input) {
        return None;
    }
    let t = input.len() - 128;
    let mut title = copy_range(input, t + 3, t + 33);
    let mut artist = copy_range(input, t + 33, t + 63);
    let mut album = copy_range(input, t + 63, t + 93);
    let mut year = copy_range(input, t + 93, t + 97);
    let mut comment = copy_range(input, t + 97, t + 127);
    let genre = input[input.len() - 1];
    trim_v1_field(&mut title);
    trim_v1_field(&mut artist);
    trim_v1_field(&mut album);
    trim_v1_field(&mut year);
    trim_v1_field(&mut comment);
    Some((title, artist, album, year, comment, genre))
}

/// Strips an MP3 file's tags according to `mode`: `Off` returns the input
/// unchanged, `All` removes both tags entirely, and `Safe` rebuilds the
/// ID3v2 tag from its safe-listed frames and drops the ID3v1 trailer.
pub fn strip_mp3_metadata(input: &[u8], mode: crate::config::StripMode) -> (r: Result<
    Vec<u8>,
    ProcessingError,
>)
    ensures
        mode is Off ==> (r matches Ok(v) && v@ == input@),
        mode is All && spec_audio_start(input@) >= spec_audio_end(input@) ==> (r matches Err(e)
            && e is Decode),
        mode is All && spec_audio_start(input@) < spec_audio_end(input@) ==> (r matches Ok(v)
            && v@ == spec_audio_span(input@)),
        mode is Safe ==> crate::id3v2::spec_strip_safe_outcome(input@, r),
{
    match mode {
        crate::config::StripMode::Off => Ok(vstd::slice::slice_to_vec(input)),
        crate::config::StripMode::All => strip_all_tags(input),
        crate::config::StripMode::Safe => crate::id3v2::strip_unsafe_tags(input),
    }
}

/// The display name of each ID3v2 frame identifier.
pub open spec fn spec_frame_name(id: Seq<char>) -> Seq<char> {
    if id == "TIT2"@ {
        "Title"@
    } else if id == "TPE1"@ {
        "Artist"@
    } else if id == "TALB"@ {
        "Album"@
    } else if id == "TYER"@ {
        "Year"@
    } else if id == "TDRC"@ {
        "Recording Time"@
    } else if id == "TCON"@ {
        "Genre"@
    } else if id == "TRCK"@ {
        "Track Number"@
    } else if id == "TPOS"@ {
        "Part Of Set"@
    } else if id == "COMM"@ {
        "Comment"@
    } else if id == "APIC"@ {
        "Attached Picture"@
    } else if id == "USLT"@ {
        "Unsynchronized Lyrics"@
    } else if id == "TXXX"@ {
        "User Defined Text"@
    } else if id == "WXXX"@ {
        "User Defined URL"@
    } else if id == "PRIV"@ {
        "Private Data"@
    } else if id == "POPM"@ {
        "Popularimeter"@
    } else if id == "TBPM"@ {
        "BPM"@
    } else if id == "TCOM"@ {
        "Composer"@
    } else if id == "TLEN"@ {
        "Length"@
    } else if id == "TPUB"@ {
        "Publisher"@
    } else if id == "TPE2"@ {
        "Band/Orchestra/Accompaniment"@
    } else if id == "TPE3"@ {
        "Conductor"@
    } else if id == "TPE4"@ {
        "Interpreted/Remixed By"@
    } else if id == "TEXT"@ {
        "Lyricist"@
    } else if id == "TCOP"@ {
        "Copyright"@
    } else if id == "TENC"@ {
        "Encoded By"@
    } else if id == "TSRC"@ {
        "ISRC"@
    } else {
        "Unknown Frame"@
    }
}

/// A human-readable name for an ID3v2 frame identifier.
pub fn get_frame_name(frame_id: &str) -> (r: &'static str)
    ensures
        r@ == spec_frame_name(frame_id@),
{
    if str_eq(frame_id, "TIT2") {
        "Title"
    } else if str_eq(frame_id, "TPE1") {
        "Artist"
    } else if str_eq(frame_id, "TALB") {
        "Album"
    } else if str_eq(frame_id, "TYER") {
        "Year"
    } else if str_eq(frame_id, "TDRC") {
        "Recording Time"
    } else if str_eq(frame_id, "TCON") {
        "Genre"
    } else if str_eq(frame_id, "TRCK") {
        "Track Number"
    } else if str_eq(frame_id, "TPOS") {
        "Part Of Set"
    } else if str_eq(frame_id, "COMM") {
        "Comment"
    } else if str_eq(frame_id, "APIC") {
        "Attached Picture"
    } else if str_eq(frame_id, "USLT") {
        "Unsynchronized Lyrics"
    } else if str_eq(frame_id, "TXXX") {
        "User Defined Text"
    } else if str_eq(frame_id, "WXXX") {
        "User Defined URL"
    } else if str_eq(frame_id, "PRIV") {
        "Private Data"
    } else if str_eq(frame_id, "POPM") {
        "Popularimeter"
    } else if str_eq(frame_id, "TBPM") {
        "BPM"
    } else if str_eq(frame_id, "TCOM") {
        "Composer"
    } else if str_eq(frame_id, "TLEN") {
        "Length"
    } else if str_eq(frame_id, "TPUB") {
        "Publisher"
    } else if str_eq(frame_id, "TPE2") {
        "Band/Orchestra/Accompaniment"
    } else if str_eq(frame_id, "TPE3") {
        "Conductor"
    } else if str_eq(frame_id, "TPE4") {
        "Interpreted/Remixed By"
    } else if str_eq(frame_id, "TEXT") {
        "Lyricist"
    } else if str_eq(frame_id, "TCOP") {
        "Copyright"
    } else if str_eq(frame_id, "TENC") {
        "Encoded By"
    } else if str_eq(frame_id, "TSRC") {
        "ISRC"
    } else {
        "Unknown Frame"
    }
}

/// The name of each ID3v1 genre code.
pub open spec fn spec_genre_name(code: u8) -> Seq<char> {
    if code == 0 {
        "Blues"@
    } else if code == 1 {
        "Classic Rock"@
    } else if code == 2 {
        "Country"@
    } else if code == 3 {
        "Dance"@
    } else if code == 4 {
        "Disco"@
    } else if code == 5 {
        "Funk"@
    } else if code == 6 {
        "Grunge"@
    } else if code == 7 {
        "Hip-Hop"@
    } else if code == 8 {
        "Jazz"@
    } else if code == 9 {
        "Metal"@
    } else if code == 10 {
        "New Age"@
    } else if code == 11 {
        "Oldies"@
    } else if code == 12 {
        "Other"@
    } else if code == 13 {
        "Pop"@
    } else if code == 14 {
        "R&B"@
    } else if code == 15 {
        "Rap"@
    } else if code == 16 {
        "Reggae"@
    } else if code == 17 {
        "Rock"@
    } else if code == 18 {
        "Techno"@
    } else if code == 19 {
        "Industrial"@
    } else if code == 20 {
        "Alternative"@
    } else if code == 21 {
        "Ska"@
    } else if code == 22 {
        "Death Metal"@
    } else if code == 23 {
        "Pranks"@
    } else if code == 24 {
        "Soundtrack"@
    } else if code == 25 {
        "Euro-Techno"@
    } else if code == 26 {
        "Ambient"@
    } else if code == 27 {
        "Trip-Hop"@
    } else if code == 28 {
        "Vocal"@
    } else if code == 29 {
        "Jazz+Funk"@
    } else if code == 30 {
        "Fusion"@
    } else if code == 31 {
        "Trance"@
    } else if code == 32 {
        "Classical"@
    } else if code == 33 {
        "Instrumental"@
    } else if code == 34 {
        "Acid"@
    } else if code == 35 {
        "House"@
    } else if code == 36 {
        "Game"@
    } else if code == 37 {
        "Sound Clip"@
    } else if code == 38 {
        "Gospel"@
    } else if code == 39 {
        "Noise"@
    } else if code == 40 {
        "AlternRock"@
    } else if code == 41 {
        "Bass"@
    } else {
        "Unknown"@
    }
}

/// A human-readable name for an ID3v1 genre code.
pub fn get_genre_name(code: u8) -> (r: &'static str)
    ensures
        r@ == spec_genre_name(code),
{
    if code == 0 {
        "Blues"
    } else if code == 1 {
        "Classic Rock"
    } else if code == 2 {
        "Country"
    } else if code == 3 {
        "Dance"
    } else if code == 4 {
        "Disco"
    } else if code == 5 {
        "Funk"
    } else if code == 6 {
        "Grunge"
    } else if code == 7 {
        "Hip-Hop"
    } else if code == 8 {
        "Jazz"
    } else if code == 9 {
        "Metal"
    } else if code == 10 {
        "New Age"
    } else if code == 11 {
        "Oldies"
    } else if code == 12 {
        "Other"
    } else if code == 13 {
        "Pop"
    } else if code == 14 {
        "R&B"
    } else if code == 15 {
        "Rap"
    } else if code == 16 {
        "Reggae"
    } else if code == 17 {
        "Rock"
    } else if code == 18 {
        "Techno"
    } else if code == 19 {
        "Industrial"
    } else if code == 20 {
        "Alternative"
    } else if code == 21 {
        "Ska"
    } else if code == 22 {
        "Death Metal"
    } else if code == 23 {
        "Pranks"
    } else if code == 24 {
        "Soundtrack"
    } else if code == 25 {
        "Euro-Techno"
    } else if code == 26 {
        "Ambient"
    } else if code == 27 {
        "Trip-Hop"
    } else if code == 28 {
        "Vocal"
    } else if code == 29 {
        "Jazz+Funk"
    } else if code == 30 {
        "Fusion"
    } else if code == 31 {
        "Trance"
    } else if code == 32 {
        "Classical"
    } else if code == 33 {
        "Instrumental"
    } else if code == 34 {
        "Acid"
    } else if code == 35 {
        "House"
    } else if code == 36 {
        "Game"
    } else if code == 37 {
        "Sound Clip"
    } else if code == 38 {
        "Gospel"
    } else if code == 39 {
        "Noise"
    } else if code == 40 {
        "AlternRock"
    } else if code == 41 {
        "Bass"
    } else {
        "Unknown"
    }
}


/// Stripping all tags from an already-stripped file changes nothing: once
/// both tags are gone, a second pass finds no tag and returns the very same
/// audio bytes. The two side conditions rule out audio whose own bytes
/// happen to begin with an `ID3` header or end in a `TAG` trailer.
pub proof fn lemma_strip_all_converges(s: Seq<u8>)
    requires
        spec_audio_start(s) < spec_audio_end(s),
        spec_id3v2_size(spec_audio_span(s)) == 0,
        !spec_has_id3v1(spec_audio_span(s)),
    ensures
        spec_audio_start(spec_audio_span(s)) < spec_audio_end(spec_audio_span(s)),
        spec_audio_span(spec_audio_span(s)) == spec_audio_span(s),
{
    let out = spec_audio_span(s);
    assert(out.len() > 0);
    assert(spec_audio_start(out) == 0);
    assert(spec_audio_end(out) == out.len());
    assert(out.subrange(0, out.len() as int) =~= out);
}


/// A byte that can be shown as-is in a diagnostic dump: printable ASCII or
/// ordinary whitespace.
pub open spec fn spec_displayable(b: u8) -> bool {
    (0x20 <= b <= 0x7e) || b == 0x09 || b == 0x0a || b == 0x0d
}

/// The dump form of text-like data: displayable bytes kept, others shown as
/// a dot.
pub open spec fn spec_mapped_text(d: Seq<u8>) -> Seq<u8> {
    d.map(
        |_i: int, b: u8|
            if spec_displayable(b) {
                b
            } else {
                0x2eu8
            },
    )
}

/// Whether `pat` occurs in `d` at position `i`.
pub open spec fn spec_contains_at(d: Seq<u8>, pat: Seq<u8>, i: int) -> bool {
    0 <= i && i + pat.len() <= d.len() && d.subrange(i, i + pat.len()) == pat
}

/// Whether `pat` occurs anywhere in `d`.
pub open spec fn spec_contains(d: Seq<u8>, pat: Seq<u8>) -> bool {
    exists|i: int| spec_contains_at(d, pat, i)
}

/// Whether the data shows a sign of an embedded filesystem path.
pub open spec fn spec_has_path_marker(d: Seq<u8>) -> bool {
    ||| spec_contains(d, seq![0x3au8, 0x5c])  // ":\\"
    ||| spec_contains(d, seq![0x3au8, 0x2f])  // ":/"
    ||| spec_contains(d, seq![0x2fu8, 0x55, 0x73, 0x65, 0x72, 0x73, 0x2f])  // "/Users/"
    ||| spec_contains(d, seq![0x2fu8, 0x68, 0x6f, 0x6d, 0x65, 0x2f])  // "/home/"

}

/// The upper-case hex digits of one byte.
pub open spec fn spec_hex_hi(b: u8) -> u8 {
    if b / 16 < 10 {
        (0x30 + b / 16) as u8
    } else {
        (0x41 + b / 16 - 10) as u8
    }
}

/// The low hex digit of one byte.
pub open spec fn spec_hex_lo(b: u8) -> u8 {
    if b % 16 < 10 {
        (0x30 + b % 16) as u8
    } else {
        (0x41 + b % 16 - 10) as u8
    }
}

/// Space-separated upper-case hex pairs of the given bytes.
pub open spec fn spec_hex_pairs(d: Seq<u8>) -> Seq<u8>
    decreases d.len(),
{
    if d.len() == 0 {
        Seq::empty()
    } else if d.len() == 1 {
        seq![spec_hex_hi(d[0]), spec_hex_lo(d[0])]
    } else {
        spec_hex_pairs(d.drop_last()) + seq![0x20u8, spec_hex_hi(d.last()), spec_hex_lo(d.last())]
    }
}

/// Whether the data is mostly displayable, and so is dumped as text rather
/// than as a hex preview.
pub open spec fn spec_mostly_text(d: Seq<u8>) -> bool {
    d.filter(|b: u8| spec_displayable(b)).len() * 100 > 60 * d.len()
}

/// The dump form of unknown frame data: a note for empty data; quoted
/// dot-mapped text, with a warning when a path marker occurs, for mostly
/// displayable data; and a hex preview of the first 16 bytes otherwise.
pub open spec fn spec_format_unknown(d: Seq<u8>) -> Seq<u8> {
    if d.len() == 0 {
        seq![0x3cu8, 0x65, 0x6d, 0x70, 0x74, 0x79, 0x3e]  // "<empty>"
    } else if spec_mostly_text(d) {
        seq![0x22u8] + spec_mapped_text(d) + seq![0x22u8] + if spec_has_path_marker(d) {
            seq![0x20u8, 0x28, 0x63, 0x6f, 0x6e, 0x74, 0x61, 0x69, 0x6e, 0x73, 0x20, 0x66, 0x69, 0x6c, 0x65, 0x20, 0x70, 0x61, 0x74, 0x68, 0x73, 0x29]  // " (contains file paths)"
        } else {
            Seq::<u8>::empty()
        }
    } else {
        let preview = if d.len() > 16 {
            d.subrange(0, 16)
        } else {
            d
        };
        seq![0x3cu8, 0x62, 0x69, 0x6e, 0x61, 0x72, 0x79, 0x3a, 0x20] + spec_hex_pairs(preview) + if d.len() > 16 {
            seq![0x20u8, 0x2e, 0x2e, 0x2e, 0x20, 0x28] + spec_u64_string(d.len() as int) + seq![0x20u8, 0x62, 0x79, 0x74, 0x65, 0x73, 0x20, 0x74, 0x6f, 0x74, 0x61, 0x6c, 0x29, 0x3e]  // " ... (N bytes total)>"
        } else {
            seq![0x20u8, 0x28] + spec_u64_string(d.len() as int) + seq![0x20u8, 0x62, 0x79, 0x74, 0x65, 0x73, 0x29, 0x3e]  // " (N bytes)>"
        }
    }
}

/// Whether `pat` occurs anywhere in `d`.
fn contains_bytes(d: &[u8], pat: &[u8]) -> (r: bool)
    ensures
        r == spec_contains(d@, pat@),
{
    if pat.len() > d.len() {
        proof {
            assert forall|i: int| !spec_contains_at(d@, pat@, i) by {}
        }
        return false;
    }
    if pat.len() == 0 {
        proof {
            assert(d@.subrange(0, 0) =~= pat@);
            assert(spec_contains_at(d@, pat@, 0));
        }
        return true;
    }
    let mut i: usize = 0;
    let n = d.len();
    let last = d.len() - pat.len();
    while i <= last
        invariant
            n == d@.len(),
            1 <= pat@.len() <= d@.len(),
            last == d@.len() - pat@.len(),
            i <= last + 1,
            forall|j: int| 0 <= j < i ==> !spec_contains_at(d@, pat@, j),
        decreases last + 1 - i,
    {
        proof {
            assert(i + pat@.len() <= n);
        }
        let sub = vstd::slice::slice_subrange(d, i, i + pat.len());
        if crate::bytes::bytes_eq(sub, pat) {
            proof {
                assert(spec_contains_at(d@, pat@, i as int));
            }
            return true;
        }
        i = i + 1;
    }
    proof {
        assert forall|j: int| !spec_contains_at(d@, pat@, j) by {
            if spec_contains_at(d@, pat@, j) {
                assert(0 <= j <= last);
            }
        }
    }
    false
}

/// Renders unknown or binary frame data for the inspection report: text when
/// it is mostly displayable, a short hex preview otherwise.
#[verifier::rlimit(100)]
pub fn format_unknown_data(data: &[u8]) -> (r: String)
    ensures
        r@ == crate::bytes::spec_ascii_chars(spec_format_unknown(data@)),
{
    let ghost disp = |b: u8| spec_displayable(b);
    let mut out: Vec<u8> = Vec::new();
    if data.len() == 0 {
        out.push(0x3c);
        out.push(0x65);
        out.push(0x6d);
        out.push(0x70);
        out.push(0x74);
        out.push(0x79);
        out.push(0x3e);
        proof {
            assert(out@ =~= spec_format_unknown(data@));
            assert forall|k: int| 0 <= k < out@.len() implies out@[k] < 0x80 by {}
        }
        return crate::bytes::ascii_to_string(out);
    }
    let mut printable: usize = 0;
    let mut i: usize = 0;
    while i < data.len()
        invariant
            i <= data@.len(),
            disp == (|b: u8| spec_displayable(b)),
            printable == data@.take(i as int).filter(disp).len(),
            printable <= i,
        decreases data@.len() - i,
    {
        let b = data[i];
        proof {
            assert(data@.take(i + 1) =~= data@.take(i as int).push(data@[i as int]));
            crate::bytes::lemma_filter_push(data@.take(i as int), disp, data@[i as int]);
        }
        if (0x20 <= b && b <= 0x7e) || b == 0x09 || b == 0x0a || b == 0x0d {
            printable = printable + 1;
        }
        i = i + 1;
    }
    proof {
        assert(data@.take(data@.len() as int) =~= data@);
    }
    if (printable as u128) * 100 > 60 * (data.len() as u128) {
        out.push(0x22);
        let mut i: usize = 0;
        while i < data.len()
            invariant
                i <= data@.len(),
                out@ == seq![0x22u8] + spec_mapped_text(data@.take(i as int)),
            decreases data@.len() - i,
        {
            let b = data[i];
            if (0x20 <= b && b <= 0x7e) || b == 0x09 || b == 0x0a || b == 0x0d {
                out.push(b);
            } else {
                out.push(0x2e);
            }
            i = i + 1;
            proof {
                assert(data@.take(i as int) =~= data@.take(i as int - 1).push(
                    data@[i as int - 1],
                ));
                assert(out@ =~= seq![0x22u8] + spec_mapped_text(data@.take(i as int)));
            }
        }
        proof {
            assert(data@.take(data@.len() as int) =~= data@);
        }
        out.push(0x22);
        let marker = contains_bytes(data, &[0x3a, 0x5c]) || contains_bytes(data, &[0x3a, 0x2f])
            || contains_bytes(data, &[0x2f, 0x55, 0x73, 0x65, 0x72, 0x73, 0x2f])
            || contains_bytes(data, &[0x2f, 0x68, 0x6f, 0x6d, 0x65, 0x2f]);
        proof {
            assert([0x3au8, 0x5c]@ =~= seq![0x3au8, 0x5c]);
            assert([0x3au8, 0x2f]@ =~= seq![0x3au8, 0x2f]);
            assert([0x2fu8, 0x55, 0x73, 0x65, 0x72, 0x73, 0x2f]@ =~= seq![0x2fu8, 0x55, 0x73, 0x65, 0x72, 0x73, 0x2f]);
            assert([0x2fu8, 0x68, 0x6f, 0x6d, 0x65, 0x2f]@ =~= seq![0x2fu8, 0x68, 0x6f, 0x6d, 0x65, 0x2f]);
        }
        if marker {
            out.push(0x20);
        out.push(0x28);
        out.push(0x63);
        out.push(0x6f);
        out.push(0x6e);
        out.push(0x74);
        out.push(0x61);
        out.push(0x69);
        out.push(0x6e);
        out.push(0x73);
        out.push(0x20);
        out.push(0x66);
        out.push(0x69);
        out.push(0x6c);
        out.push(0x65);
        out.push(0x20);
        out.push(0x70);
        out.push(0x61);
        out.push(0x74);
        out.push(0x68);
        out.push(0x73);
        out.push(0x29);
        }
        proof {
            assert(out@ =~= spec_format_unknown(data@));
            assert forall|k: int| 0 <= k < out@.len() implies out@[k] < 0x80 by {
                let body = spec_mapped_text(data@);
                if 1 <= k < 1 + body.len() {
                    assert(out@[k] == body[k - 1]);
                }
            }
        }
        crate::bytes::ascii_to_string(out)
    } else {
        out.push(0x3c);
        out.push(0x62);
        out.push(0x69);
        out.push(0x6e);
        out.push(0x61);
        out.push(0x72);
        out.push(0x79);
        out.push(0x3a);
        out.push(0x20);
        let k = if data.len() > 16 {
            16
        } else {
            data.len()
        };
        let ghost preview = if data@.len() > 16 {
            data@.subrange(0, 16)
        } else {
            data@
        };
        proof {
            assert(preview =~= data@.take(k as int));
        }
        let mut i: usize = 0;
        while i < k
            invariant
                k <= data@.len(),
                k == preview.len(),
                preview == data@.take(k as int),
                preview =~= (if data@.len() > 16 {
                    data@.subrange(0, 16)
                } else {
                    data@
                }),
                i <= k,
                out@ == seq![0x3cu8, 0x62, 0x69, 0x6e, 0x61, 0x72, 0x79, 0x3a, 0x20] + spec_hex_pairs(preview.take(i as int)),
            decreases k - i,
        {
            let b = data[i];
            if i > 0 {
                out.push(0x20);
            }
            if b / 16 < 10 {
                out.push(0x30 + b / 16);
            } else {
                out.push(0x41 + b / 16 - 10);
            }
            if b % 16 < 10 {
                out.push(0x30 + b % 16);
            } else {
                out.push(0x41 + b % 16 - 10);
            }
            i = i + 1;
            proof {
                let cur = preview.take(i as int);
                assert(cur.drop_last() =~= preview.take(i as int - 1));
                assert(cur.last() == preview[i as int - 1]);
                assert(preview[i as int - 1] == data@[i as int - 1]);
                assert(out@ =~= seq![0x3cu8, 0x62, 0x69, 0x6e, 0x61, 0x72, 0x79, 0x3a, 0x20] + spec_hex_pairs(cur));
            }
        }
        proof {
            assert(preview.take(preview.len() as int) =~= preview);
        }
        if data.len() > 16 {
            out.push(0x20);
        out.push(0x2e);
        out.push(0x2e);
        out.push(0x2e);
        out.push(0x20);
        out.push(0x28);
            crate::bytes::push_decimal(&mut out, data.len() as u64);
            out.push(0x20);
        out.push(0x62);
        out.push(0x79);
        out.push(0x74);
        out.push(0x65);
        out.push(0x73);
        out.push(0x20);
        out.push(0x74);
        out.push(0x6f);
        out.push(0x74);
        out.push(0x61);
        out.push(0x6c);
        out.push(0x29);
        out.push(0x3e);
        } else {
            out.push(0x20);
        out.push(0x28);
            crate::bytes::push_decimal(&mut out, data.len() as u64);
            out.push(0x20);
        out.push(0x62);
        out.push(0x79);
        out.push(0x74);
        out.push(0x65);
        out.push(0x73);
        out.push(0x29);
        out.push(0x3e);
        }
        proof {
            assert(out@ =~= spec_format_unknown(data@));
            lemma_hex_pairs_ascii(preview);
            crate::bytes::lemma_u64_string_ascii(data@.len() as int);
            let hexpart = spec_hex_pairs(preview);
            let decpart = spec_u64_string(data@.len() as int);
            assert forall|k2: int| 0 <= k2 < out@.len() implies out@[k2] < 0x80 by {
                let pre = seq![0x3cu8, 0x62, 0x69, 0x6e, 0x61, 0x72, 0x79, 0x3a, 0x20];
                if pre.len() <= k2 < pre.len() + hexpart.len() {
                    assert(out@[k2] == hexpart[k2 - pre.len()]);
                } else if k2 >= pre.len() + hexpart.len() {
                    let tail = out@.subrange(
                        pre.len() as int + hexpart.len() as int,
                        out@.len() as int,
                    );
                    assert(out@[k2] == tail[k2 - pre.len() - hexpart.len()]);
                    let mid = (if data@.len() > 16 {
                        seq![0x20u8, 0x2e, 0x2e, 0x2e, 0x20, 0x28]
                    } else {
                        seq![0x20u8, 0x28]
                    });
                    assert(tail =~= mid + decpart + (if data@.len() > 16 {
                        seq![0x20u8, 0x62, 0x79, 0x74, 0x65, 0x73, 0x20, 0x74, 0x6f, 0x74, 0x61, 0x6c, 0x29, 0x3e]
                    } else {
                        seq![0x20u8, 0x62, 0x79, 0x74, 0x65, 0x73, 0x29, 0x3e]
                    }));
                }
            }
        }
        crate::bytes::ascii_to_string(out)
    }
}

/// Every byte of a hex preview is printable ASCII.
proof fn lemma_hex_pairs_ascii(d: Seq<u8>)
    ensures
        forall|i: int|
            0 <= i < spec_hex_pairs(d).len() ==> 0x20 <= #[trigger] spec_hex_pairs(d)[i] < 0x80,
    decreases d.len(),
{
    if d.len() > 1 {
        lemma_hex_pairs_ascii(d.drop_last());
        let prev = spec_hex_pairs(d.drop_last());
        assert forall|i: int|
            0 <= i < spec_hex_pairs(d).len() implies 0x20 <= #[trigger] spec_hex_pairs(d)[i]
            < 0x80 by {
            if i < prev.len() {
                assert(spec_hex_pairs(d)[i] == prev[i]);
            }
        }
    }
}


/// A string that looks like a filesystem path: a Unix-style absolute path,
/// or a Windows-style drive path.
pub open spec fn spec_path_like(p: Seq<char>) -> bool {
    ||| (p.len() > 5 && p[0] == '/')
    ||| (p.len() > 3 && p[1] == ':')
}

/// A byte that may appear inside an extracted path: printable ASCII other
/// than a quote, a separator-breaking bracket, or a wildcard.
pub open spec fn spec_path_byte(b: u8) -> bool {
    &&& 0x21 <= b <= 0x7e
    &&& b != 0x22  // '"'
    &&& b != 0x3c  // '<'
    &&& b != 0x3e  // '>'
    &&& b != 0x7c  // '|'
    &&& b != 0x3f  // '?'
    &&& b != 0x2a  // '*'

}

/// Whether a path-start marker stands at position `i` of the data: a drive
/// letter with a colon and a separator, or one of the well-known Unix
/// prefixes.
pub open spec fn spec_path_start(d: Seq<u8>, i: int) -> bool {
    ||| (i + 3 <= d.len() && (0x41 <= d[i] <= 0x5a || 0x61 <= d[i] <= 0x7a) && d[i + 1] == 0x3a
        && (d[i + 2] == 0x5c || d[i + 2] == 0x2f))
    ||| spec_contains_at(d, seq![0x2fu8, 0x55, 0x73, 0x65, 0x72, 0x73, 0x2f], i)  // "/Users/"
    ||| spec_contains_at(d, seq![0x2fu8, 0x68, 0x6f, 0x6d, 0x65, 0x2f], i)  // "/home/"
    ||| spec_contains_at(d, seq![0x2fu8, 0x6d, 0x6e, 0x74, 0x2f], i)  // "/mnt/"

}

/// A byte sequence that looks like a filesystem path: a Unix-style absolute
/// path, or a Windows-style drive path.
pub open spec fn spec_path_like_bytes(p: Seq<u8>) -> bool {
    ||| (p.len() > 5 && p[0] == 0x2f)
    ||| (p.len() > 3 && p[1] == 0x3a)
}

/// Every candidate in the list looks like a path and holds only ASCII
/// bytes.
pub open spec fn spec_raw_paths_ok(rs: Seq<Vec<u8>>) -> bool {
    forall|k: int|
        0 <= k < rs.len() ==> spec_path_like_bytes((#[trigger] rs[k])@) && (forall|m: int|
            0 <= m < rs[k]@.len() ==> (#[trigger] rs[k]@[m]) < 0x80)
}

/// Inserts a candidate into the strictly ascending list at its place; a
/// candidate already present is dropped, so the list stays duplicate-free.
#[verifier::rlimit(100)]
fn insert_sorted_unique(raw: &mut Vec<Vec<u8>>, v: Vec<u8>)
    requires
        forall|k: int|
            0 <= k && k + 1 < old(raw)@.len() ==> spec_lex_lt_bytes(
                (#[trigger] old(raw)@[k])@,
                old(raw)@[k + 1]@,
            ),
    ensures
        forall|k: int|
            0 <= k && k + 1 < final (raw)@.len() ==> spec_lex_lt_bytes(
                (#[trigger] final (raw)@[k])@,
                final (raw)@[k + 1]@,
            ),
        forall|k: int|
            0 <= k < final (raw)@.len() ==> ((exists|j: int|
                0 <= j < old(raw)@.len() && (#[trigger] final (raw)@[k])@ == old(raw)@[j]@)
                || final (raw)@[k]@ == v@),
{
    let n = raw.len();
    let mut idx: usize = 0;
    loop
        invariant
            n == raw@.len(),
            raw@ == old(raw)@,
            idx <= n,
            forall|k: int| 0 <= k < idx ==> spec_lex_lt_bytes((#[trigger] raw@[k])@, v@),
        ensures
            raw@ == old(raw)@,
            idx <= n,
            forall|k: int| 0 <= k < idx ==> spec_lex_lt_bytes((#[trigger] raw@[k])@, v@),
            idx < n ==> !spec_lex_lt_bytes(raw@[idx as int]@, v@),
        decreases n - idx,
    {
        if idx >= n {
            break ;
        }
        if !crate::bytes::lex_lt_bytes(raw[idx].as_slice(), v.as_slice()) {
            break ;
        }
        idx = idx + 1;
    }
    if idx < n {
        if crate::bytes::bytes_eq(raw[idx].as_slice(), v.as_slice()) {
            return ;
        }
        proof {
            if !spec_lex_lt_bytes(v@, raw@[idx as int]@) {
                crate::bytes::lemma_lex_trichotomy(raw@[idx as int]@, v@);
                assert(false);
            }
        }
    }
    let ghost o = raw@;
    let ghost vv = v;
    raw.insert(idx, v);
    proof {
        o.insert_ensures(idx as int, vv);
        assert(raw@ == o.insert(idx as int, vv));
        assert forall|k: int| 0 <= k && k + 1 < raw@.len() implies spec_lex_lt_bytes(
            (#[trigger] raw@[k])@,
            raw@[k + 1]@,
        ) by {
            if k + 1 < idx as int {
                assert(o.insert(idx as int, vv)[k] == o[k]);
                assert(o.insert(idx as int, vv)[k + 1] == o[k + 1]);
            } else if k + 1 == idx as int {
                assert(o.insert(idx as int, vv)[k] == o[k]);
                assert(o.insert(idx as int, vv)[k + 1] == vv);
            } else if k == idx as int {
                assert(o.insert(idx as int, vv)[k] == vv);
                assert(o.insert(idx as int, vv)[(k - idx) + idx + 1] == o[k]);
            } else {
                assert(o.insert(idx as int, vv)[(k - 1) + 1] == o[k - 1]);
                assert(o.insert(idx as int, vv)[k + 1] == o[k]);
            }
        }
        assert forall|k: int| 0 <= k < raw@.len() implies ((exists|j: int|
            0 <= j < o.len() && (#[trigger] raw@[k])@ == o[j]@) || raw@[k]@ == vv@) by {
            if k < idx as int {
                assert(o.insert(idx as int, vv)[k] == o[k]);
            } else if k > idx as int {
                assert(o.insert(idx as int, vv)[(k - 1) + 1] == o[k - 1]);
            }
        }
    }
}

/// Whether `v` is a contiguous run of the bytes of `d`.
pub open spec fn spec_bytes_from_data(v: Seq<u8>, d: Seq<u8>) -> bool {
    exists|p: int|
        0 <= p && p + v.len() <= d.len() && v == #[trigger] d.subrange(p, p + v.len() as int)
}

/// Whether `v` spells out a contiguous run of the bytes of `d`.
pub open spec fn spec_chars_from_data(v: Seq<char>, d: Seq<u8>) -> bool {
    exists|p: int|
        0 <= p && p + v.len() <= d.len() && v == crate::bytes::spec_ascii_chars(
            #[trigger] d.subrange(p, p + v.len() as int),
        )
}

/// Best-effort extraction of filesystem paths embedded in opaque frame data,
/// for the diagnostic report: Windows-style drive paths and well-known
/// Unix directories. Display logic only; every returned string looks like a
/// path and is a contiguous run of the data's bytes, and the list is sorted
/// ascending with duplicates removed (the entries are strictly increasing in
/// code-point order).
pub fn extract_file_paths(data: &[u8]) -> (r: Vec<String>)
    ensures
        forall|k: int| 0 <= k < r@.len() ==> spec_path_like(#[trigger] r@[k]@),
        forall|k: int|
            0 <= k && k + 1 < r@.len() ==> spec_lex_lt_chars(#[trigger] r@[k]@, r@[k + 1]@),
        forall|k: int| 0 <= k < r@.len() ==> spec_chars_from_data((#[trigger] r@[k])@, data@),
{
    let mut raw: Vec<Vec<u8>> = Vec::new();
    let n = data.len();
    let mut i: usize = 0;
    while i < n
        invariant
            n == data@.len(),
            i <= n,
            spec_raw_paths_ok(raw@),
            forall|k: int|
                0 <= k && k + 1 < raw@.len() ==> spec_lex_lt_bytes(
                    (#[trigger] raw@[k])@,
                    raw@[k + 1]@,
                ),
            forall|k: int|
                0 <= k < raw@.len() ==> spec_bytes_from_data((#[trigger] raw@[k])@, data@),
        decreases n - i,
    {
        let b = data[i];
        let windows = n - i >= 3 && ((0x41 <= b && b <= 0x5a) || (0x61 <= b && b <= 0x7a))
            && data[i + 1] == 0x3a && (data[i + 2] == 0x5c || data[i + 2] == 0x2f);
        let unix = b == 0x2f && (starts_with_at(data, i, &[0x2f, 0x55, 0x73, 0x65, 0x72, 0x73,
            0x2f]) || starts_with_at(data, i, &[0x2f, 0x68, 0x6f, 0x6d, 0x65, 0x2f])
            || starts_with_at(data, i, &[0x2f, 0x6d, 0x6e, 0x74, 0x2f]));
        if windows || unix {
            let start = i;
            let mut j: usize = i;
            let mut buf: Vec<u8> = Vec::new();
            while j < n
                invariant
                    n == data@.len(),
                    start <= j <= n,
                    buf@ == data@.subrange(start as int, j as int),
                    forall|k2: int| 0 <= k2 < buf@.len() ==> spec_path_byte(#[trigger] buf@[k2]),
                decreases n - j,
            {
                let c = data[j];
                let keep = 0x21 <= c && c <= 0x7e && c != 0x22 && c != 0x3c && c != 0x3e && c
                    != 0x7c && c != 0x3f && c != 0x2a;
                if !keep {
                    break ;
                }
                buf.push(c);
                j = j + 1;
                proof {
                    assert(data@.subrange(start as int, j as int) =~= data@.subrange(
                        start as int,
                        j as int - 1,
                    ).push(data@[j as int - 1]));
                }
            }
            let m = buf.len();
            let long_enough = if windows {
                m > 3
            } else {
                m > 5
            };
            if long_enough {
                let ghost prev_raw = raw@;
                let ghost bufv = buf@;
                proof {
                    assert(spec_path_like_bytes(bufv));
                    assert forall|k2: int| 0 <= k2 < bufv.len() implies (#[trigger] bufv[k2])
                        < 0x80 by {
                        assert(spec_path_byte(bufv[k2]));
                    }
                }
                insert_sorted_unique(&mut raw, buf);
                proof {
                    assert forall|k: int|
                        0 <= k < raw@.len() implies spec_path_like_bytes((#[trigger] raw@[k])@)
                        && (forall|m2: int|
                        0 <= m2 < raw@[k]@.len() ==> (#[trigger] raw@[k]@[m2]) < 0x80) by {
                        if raw@[k]@ == bufv {
                        } else {
                            let j2 = choose|j2: int|
                                0 <= j2 < prev_raw.len() && raw@[k]@ == prev_raw[j2]@;
                            assert(spec_path_like_bytes(prev_raw[j2]@));
                        }
                    }
                    assert forall|k: int| 0 <= k < raw@.len() implies spec_bytes_from_data(
                        (#[trigger] raw@[k])@,
                        data@,
                    ) by {
                        if raw@[k]@ == bufv {
                            assert(bufv == data@.subrange(
                                start as int,
                                start as int + bufv.len() as int,
                            ));
                            assert(raw@[k]@ == data@.subrange(
                                start as int,
                                start as int + raw@[k]@.len() as int,
                            ));
                        } else {
                            let j2 = choose|j2: int|
                                0 <= j2 < prev_raw.len() && raw@[k]@ == prev_raw[j2]@;
                            assert(spec_bytes_from_data(prev_raw[j2]@, data@));
                        }
                    }
                }
                if j > i {
                    i = j;
                } else {
                    i = i + 1;
                }
            } else {
                i = i + 1;
            }
        } else {
            i = i + 1;
        }
    }
    let mut paths: Vec<String> = Vec::new();
    let mut i2: usize = 0;
    while i2 < raw.len()
        invariant
            i2 <= raw@.len(),
            paths@.len() == i2,
            spec_raw_paths_ok(raw@),
            forall|k: int|
                0 <= k && k + 1 < raw@.len() ==> spec_lex_lt_bytes(
                    (#[trigger] raw@[k])@,
                    raw@[k + 1]@,
                ),
            forall|k: int|
                0 <= k < i2 ==> (#[trigger] paths@[k])@ == crate::bytes::spec_ascii_chars(
                    raw@[k]@,
                ),
            forall|k: int| 0 <= k < i2 ==> spec_path_like(#[trigger] paths@[k]@),
            forall|k: int|
                0 <= k < raw@.len() ==> spec_bytes_from_data((#[trigger] raw@[k])@, data@),
        decreases raw@.len() - i2,
    {
        let bytes = vstd::slice::slice_to_vec(raw[i2].as_slice());
        proof {
            assert(spec_path_like_bytes(raw@[i2 as int]@));
        }
        let p = crate::bytes::ascii_to_string(bytes);
        proof {
            let bv = raw@[i2 as int]@;
            if bv.len() > 5 && bv[0] == 0x2f {
                assert(p@[0] == bv[0] as char);
                assert(p@[0] == '/');
            } else {
                assert(p@[1] == bv[1] as char);
                assert(p@[1] == ':');
            }
            assert(spec_path_like(p@));
        }
        paths.push(p);
        i2 = i2 + 1;
    }
    proof {
        assert forall|k: int| 0 <= k && k + 1 < paths@.len() implies spec_lex_lt_chars(
            #[trigger] paths@[k]@,
            paths@[k + 1]@,
        ) by {
            assert(paths@[k]@ == crate::bytes::spec_ascii_chars(raw@[k]@));
            assert(paths@[k + 1]@ == crate::bytes::spec_ascii_chars(raw@[k + 1]@));
            assert(spec_lex_lt_bytes(raw@[k]@, raw@[k + 1]@));
            crate::bytes::lemma_lex_chars_of_bytes(raw@[k]@, raw@[k + 1]@);
        }
        assert forall|k: int| 0 <= k < paths@.len() implies spec_chars_from_data(
            (#[trigger] paths@[k])@,
            data@,
        ) by {
            assert(paths@[k]@ == crate::bytes::spec_ascii_chars(raw@[k]@));
            assert(spec_bytes_from_data(raw@[k]@, data@));
            let p2 = choose|p2: int|
                0 <= p2 && p2 + raw@[k]@.len() <= data@.len() && raw@[k]@
                    == #[trigger] data@.subrange(p2, p2 + raw@[k]@.len() as int);
            assert(paths@[k]@ == crate::bytes::spec_ascii_chars(
                data@.subrange(p2, p2 + paths@[k]@.len() as int),
            ));
        }
    }
    paths
}

/// Whether the bytes at position `i` of `d` begin with `pat`.
fn starts_with_at(d: &[u8], i: usize, pat: &[u8]) -> (r: bool)
    requires
        i < d@.len(),
    ensures
        r == spec_contains_at(d@, pat@, i as int),
{
    let n = d.len();
    if pat.len() > n - i {
        return false;
    }
    let sub = vstd::slice::slice_subrange(d, i, i + pat.len());
    crate::bytes::bytes_eq(sub, pat)
}

} // verus!
