//! Byte-level helpers shared by the container engines: little- and big-endian
//! 32-bit fields, byte-sequence copying, string equality, and rendering of
//! numbers as ASCII text for the diagnostic reports.

use vstd::prelude::*;
use vstd::seq_lib::*;

verus! {

/// The value of a 4-byte little-endian field.
pub open spec fn spec_le32(b: Seq<u8>) -> int
    recommends
        b.len() == 4,
{
    b[0] + b[1] * 0x100 + b[2] * 0x10000 + b[3] * 0x1000000
}

/// The value of a 4-byte big-endian field.
pub open spec fn spec_be32(b: Seq<u8>) -> int
    recommends
        b.len() == 4,
{
    b[0] * 0x1000000 + b[1] * 0x10000 + b[2] * 0x100 + b[3]
}

/// The 4-byte little-endian encoding of a 32-bit value.
pub open spec fn spec_le32_bytes(n: u32) -> Seq<u8> {
    seq![
        (n % 0x100) as u8,
        ((n / 0x100) % 0x100) as u8,
        ((n / 0x10000) % 0x100) as u8,
        ((n / 0x1000000) % 0x100) as u8,
    ]
}

/// Writing a 32-bit value little-endian and reading the field back recovers
/// the value.
pub proof fn lemma_le32_round_trip(n: u32)
    ensures
        spec_le32(spec_le32_bytes(n)) == n,
        spec_le32_bytes(n).len() == 4,
{
    let b = spec_le32_bytes(n);
    assert(b[0] == n % 0x100);
    assert(b[1] == (n / 0x100) % 0x100);
    assert(b[2] == (n / 0x10000) % 0x100);
    assert(b[3] == (n / 0x1000000) % 0x100);
    assert(n % 0x100 + ((n / 0x100) % 0x100) * 0x100 + ((n / 0x10000) % 0x100) * 0x10000 + ((n
        / 0x1000000) % 0x100) * 0x1000000 == n) by (bit_vector);
}

/// Any 4-byte little-endian field holds a value below 2^32.
pub proof fn lemma_le32_bounds(b: Seq<u8>)
    requires
        b.len() == 4,
    ensures
        0 <= spec_le32(b) < 0x100000000,
{
}

/// Any 4-byte big-endian field holds a value below 2^32.
pub proof fn lemma_be32_bounds(b: Seq<u8>)
    requires
        b.len() == 4,
    ensures
        0 <= spec_be32(b) < 0x100000000,
{
}

/// Reads the little-endian 32-bit field at `pos`.
pub fn read_le32(s: &[u8], pos: usize) -> (r: u32)
    requires
        pos + 4 <= s@.len(),
    ensures
        r == spec_le32(s@.subrange(pos as int, pos as int + 4)),
{
    let b0 = s[pos] as u32;
    let b1 = s[pos + 1] as u32;
    let b2 = s[pos + 2] as u32;
    let b3 = s[pos + 3] as u32;
    proof {
        let sub = s@.subrange(pos as int, pos as int + 4);
        assert(sub[0] == s@[pos as int]);
        assert(sub[1] == s@[pos as int + 1]);
        assert(sub[2] == s@[pos as int + 2]);
        assert(sub[3] == s@[pos as int + 3]);
    }
    b0 + b1 * 0x100 + b2 * 0x10000 + b3 * 0x1000000
}

/// Reads the big-endian 32-bit field at `pos`.
pub fn read_be32(s: &[u8], pos: usize) -> (r: u32)
    requires
        pos + 4 <= s@.len(),
    ensures
        r == spec_be32(s@.subrange(pos as int, pos as int + 4)),
{
    let b0 = s[pos] as u32;
    let b1 = s[pos + 1] as u32;
    let b2 = s[pos + 2] as u32;
    let b3 = s[pos + 3] as u32;
    proof {
        let sub = s@.subrange(pos as int, pos as int + 4);
        assert(sub[0] == s@[pos as int]);
        assert(sub[1] == s@[pos as int + 1]);
        assert(sub[2] == s@[pos as int + 2]);
        assert(sub[3] == s@[pos as int + 3]);
    }
    b0 * 0x1000000 + b1 * 0x10000 + b2 * 0x100 + b3
}

/// Appends the little-endian encoding of `n`.
pub fn push_le32(out: &mut Vec<u8>, n: u32)
    ensures
        final(out)@ == old(out)@ + spec_le32_bytes(n),
{
    out.push((n % 0x100) as u8);
    out.push(((n / 0x100) % 0x100) as u8);
    out.push(((n / 0x10000) % 0x100) as u8);
    out.push(((n / 0x1000000) % 0x100) as u8);
    proof {
        assert(out@ =~= old(out)@ + spec_le32_bytes(n));
    }
}

/// The 4-byte big-endian encoding of a 32-bit value.
pub open spec fn spec_be32_bytes(n: u32) -> Seq<u8> {
    seq![
        ((n / 0x1000000) % 0x100) as u8,
        ((n / 0x10000) % 0x100) as u8,
        ((n / 0x100) % 0x100) as u8,
        (n % 0x100) as u8,
    ]
}

/// Writing a 32-bit value big-endian and reading the field back recovers the
/// value.
pub proof fn lemma_be32_round_trip(n: u32)
    ensures
        spec_be32(spec_be32_bytes(n)) == n,
        spec_be32_bytes(n).len() == 4,
{
    let b = spec_be32_bytes(n);
    assert(b[0] == (n / 0x1000000) % 0x100);
    assert(b[1] == (n / 0x10000) % 0x100);
    assert(b[2] == (n / 0x100) % 0x100);
    assert(b[3] == n % 0x100);
    assert(((n / 0x1000000) % 0x100) * 0x1000000 + ((n / 0x10000) % 0x100) * 0x10000 + ((n
        / 0x100) % 0x100) * 0x100 + n % 0x100 == n) by (bit_vector);
}

/// Appends the big-endian encoding of `n`.
pub fn push_be32(out: &mut Vec<u8>, n: u32)
    ensures
        final(out)@ == old(out)@ + spec_be32_bytes(n),
{
    out.push(((n / 0x1000000) % 0x100) as u8);
    out.push(((n / 0x10000) % 0x100) as u8);
    out.push(((n / 0x100) % 0x100) as u8);
    out.push((n % 0x100) as u8);
    proof {
        assert(out@ =~= old(out)@ + spec_be32_bytes(n));
    }
}

/// Appending one element to a sequence filters to the old filtered sequence,
/// plus the element when it satisfies the predicate.
pub proof fn lemma_filter_push<A>(s: Seq<A>, p: spec_fn(A) -> bool, c: A)
    ensures
        s.push(c).filter(p) == if p(c) {
            s.filter(p).push(c)
        } else {
            s.filter(p)
        },
{
    reveal(Seq::filter);
    assert(s.push(c).drop_last() =~= s);
    assert(s.push(c).last() == c);
}

/// A sequence whose elements all satisfy the predicate filters to itself.
pub proof fn lemma_filter_all<A>(s: Seq<A>, p: spec_fn(A) -> bool)
    requires
        forall|k: int| 0 <= k < s.len() ==> p(#[trigger] s[k]),
    ensures
        s.filter(p) == s,
    decreases s.len(),
{
    reveal(Seq::filter);
    if s.len() > 0 {
        lemma_filter_all(s.drop_last(), p);
        assert(p(s.last()));
        assert(s.drop_last().push(s.last()) =~= s);
    }
}

/// Every element of a filtered sequence is an element of the original.
pub proof fn lemma_filter_is_subset<A>(s: Seq<A>, p: spec_fn(A) -> bool, x: A)
    requires
        s.filter(p).contains(x),
    ensures
        s.contains(x),
    decreases s.len(),
{
    reveal(Seq::filter);
    if s.len() > 0 {
        let dl = s.drop_last();
        if p(s.last()) && x == s.last() {
            assert(s[s.len() - 1] == x);
        } else {
            if p(s.last()) {
                let k = choose|k: int| 0 <= k < s.filter(p).len() && s.filter(p)[k] == x;
                assert(s.filter(p) == dl.filter(p).push(s.last()));
                assert(k < dl.filter(p).len());
                assert(dl.filter(p)[k] == x);
            }
            lemma_filter_is_subset(dl, p, x);
            let k2 = choose|k2: int| 0 <= k2 < dl.len() && dl[k2] == x;
            assert(s[k2] == x);
        }
    }
}

/// Strict lexicographic order on byte sequences: a proper prefix comes
/// first, otherwise the first differing byte decides.
pub open spec fn spec_lex_lt_bytes(a: Seq<u8>, b: Seq<u8>) -> bool
    decreases a.len(),
{
    if b.len() == 0 {
        false
    } else if a.len() == 0 {
        true
    } else if a[0] != b[0] {
        a[0] < b[0]
    } else {
        spec_lex_lt_bytes(a.drop_first(), b.drop_first())
    }
}

/// Strict lexicographic order on character sequences, by code point.
pub open spec fn spec_lex_lt_chars(a: Seq<char>, b: Seq<char>) -> bool
    decreases a.len(),
{
    if b.len() == 0 {
        false
    } else if a.len() == 0 {
        true
    } else if a[0] != b[0] {
        (a[0] as u32) < (b[0] as u32)
    } else {
        spec_lex_lt_chars(a.drop_first(), b.drop_first())
    }
}

/// Two byte sequences neither of which precedes the other are equal.
pub proof fn lemma_lex_trichotomy(a: Seq<u8>, b: Seq<u8>)
    requires
        !spec_lex_lt_bytes(a, b),
        !spec_lex_lt_bytes(b, a),
    ensures
        a == b,
    decreases a.len(),
{
    if a.len() == 0 && b.len() == 0 {
        assert(a =~= b);
    } else if a.len() == 0 {
        assert(spec_lex_lt_bytes(a, b));
    } else if b.len() == 0 {
        assert(spec_lex_lt_bytes(b, a));
    } else {
        assert(a[0] == b[0]);
        assert(!spec_lex_lt_bytes(a.drop_first(), b.drop_first()));
        assert(!spec_lex_lt_bytes(b.drop_first(), a.drop_first()));
        lemma_lex_trichotomy(a.drop_first(), b.drop_first());
        assert(a.drop_first() == b.drop_first());
        assert(a.drop_first().len() == b.drop_first().len());
        assert(a.len() == b.len());
        assert forall|k: int| 0 <= k < a.len() implies a[k] == b[k] by {
            if k > 0 {
                assert(a.drop_first()[k - 1] == b.drop_first()[k - 1]);
            }
        }
        assert(a =~= b);
    }
}

/// Byte order and code-point order agree through the byte-to-character map.
pub proof fn lemma_lex_chars_of_bytes(a: Seq<u8>, b: Seq<u8>)
    ensures
        spec_lex_lt_chars(spec_ascii_chars(a), spec_ascii_chars(b)) == spec_lex_lt_bytes(a, b),
    decreases a.len(),
{
    let ca = spec_ascii_chars(a);
    let cb = spec_ascii_chars(b);
    if b.len() == 0 || a.len() == 0 {
    } else {
        assert(ca[0] == a[0] as char);
        assert(cb[0] == b[0] as char);
        assert((a[0] as char) as u32 == a[0] as u32);
        assert((b[0] as char) as u32 == b[0] as u32);
        lemma_lex_chars_of_bytes(a.drop_first(), b.drop_first());
        assert(spec_ascii_chars(a.drop_first()) =~= ca.drop_first());
        assert(spec_ascii_chars(b.drop_first()) =~= cb.drop_first());
    }
}

/// Whether `a` comes strictly before `b` in lexicographic byte order.
pub fn lex_lt_bytes(a: &[u8], b: &[u8]) -> (r: bool)
    ensures
        r == spec_lex_lt_bytes(a@, b@),
{
    let mut i: usize = 0;
    proof {
        assert(a@.skip(0) =~= a@);
        assert(b@.skip(0) =~= b@);
    }
    while i < a.len() && i < b.len()
        invariant
            i <= a@.len(),
            i <= b@.len(),
            spec_lex_lt_bytes(a@, b@) == spec_lex_lt_bytes(a@.skip(i as int), b@.skip(i as int)),
        decreases a@.len() - i,
    {
        let ghost sa = a@.skip(i as int);
        let ghost sb = b@.skip(i as int);
        proof {
            assert(sa[0] == a@[i as int]);
            assert(sb[0] == b@[i as int]);
        }
        if a[i] < b[i] {
            return true;
        }
        if b[i] < a[i] {
            return false;
        }
        i = i + 1;
        proof {
            assert(sa.drop_first() =~= a@.skip(i as int));
            assert(sb.drop_first() =~= b@.skip(i as int));
        }
    }
    proof {
        if i == a@.len() {
            assert(a@.skip(i as int) =~= Seq::<u8>::empty());
        } else {
            assert(b@.skip(i as int) =~= Seq::<u8>::empty());
        }
    }
    a.len() < b.len()
}

/// Appends every byte of `s`.
pub fn push_bytes(out: &mut Vec<u8>, s: &[u8])
    ensures
        final(out)@ == old(out)@ + s@,
{
    let mut i: usize = 0;
    while i < s.len()
        invariant
            i <= s@.len(),
            out@ == old(out)@ + s@.take(i as int),
        decreases s@.len() - i,
    {
        out.push(s[i]);
        i = i + 1;
        proof {
            assert(s@.take(i as int) =~= s@.take(i as int - 1).push(s@[i as int - 1]));
        }
    }
    proof {
        assert(s@.take(s@.len() as int) =~= s@);
    }
}

/// Copies the bytes of `s` in `[i, j)` into a fresh vector.
pub fn copy_range(s: &[u8], i: usize, j: usize) -> (r: Vec<u8>)
    requires
        i <= j <= s@.len(),
    ensures
        r@ == s@.subrange(i as int, j as int),
{
    let sub = vstd::slice::slice_subrange(s, i, j);
    vstd::slice::slice_to_vec(sub)
}

/// Whether two byte slices hold the same bytes.
pub fn bytes_eq(a: &[u8], b: &[u8]) -> (r: bool)
    ensures
        r == (a@ == b@),
{
    if a.len() != b.len() {
        return false;
    }
    let mut i: usize = 0;
    while i < a.len()
        invariant
            a@.len() == b@.len(),
            i <= a@.len(),
            forall|k: int| 0 <= k < i ==> a@[k] == b@[k],
        decreases a@.len() - i,
    {
        if a[i] != b[i] {
            return false;
        }
        i = i + 1;
    }
    proof {
        assert(a@ =~= b@);
    }
    true
}

/// Whether two strings hold the same characters.
pub fn str_eq(a: &str, b: &str) -> (r: bool)
    ensures
        r == (a@ == b@),
{
    proof {
        vstd::utf8::encode_utf8_decode_utf8(a@);
        vstd::utf8::encode_utf8_decode_utf8(b@);
    }
    bytes_eq(a.as_bytes(), b.as_bytes())
}

/// The characters with the same code points as the given ASCII bytes.
pub open spec fn spec_ascii_chars(b: Seq<u8>) -> Seq<char> {
    b.map(|_i: int, c: u8| c as char)
}

/// Relies on `String::from_utf8`: bytes below 0x80 are valid UTF-8 and decode
/// one-for-one to the characters with the same code points.
#[verifier::external_body]
pub fn ascii_to_string(v: Vec<u8>) -> (r: String)
    requires
        forall|i: int| 0 <= i < v@.len() ==> v@[i] < 0x80,
    ensures
        r@ == spec_ascii_chars(v@),
{
    String::from_utf8(v).unwrap()
}

/// The decimal digits of `n`, most significant first; empty when `n == 0`.
pub open spec fn spec_decimal(n: int) -> Seq<u8>
    decreases n,
{
    if n <= 0 {
        Seq::empty()
    } else {
        spec_decimal(n / 10).push((0x30 + n % 10) as u8)
    }
}

/// The decimal rendering of `n`, with `0` rendered as the single digit `0`.
pub open spec fn spec_u64_string(n: int) -> Seq<u8> {
    if n == 0 {
        seq![0x30u8]
    } else {
        spec_decimal(n)
    }
}

/// Every digit byte lies in the ASCII digit range.
pub proof fn lemma_decimal_ascii(n: int)
    ensures
        forall|i: int|
            0 <= i < spec_decimal(n).len() ==> 0x30 <= #[trigger] spec_decimal(n)[i] <= 0x39,
    decreases n,
{
    if n > 0 {
        lemma_decimal_ascii(n / 10);
        assert forall|i: int| 0 <= i < spec_decimal(n).len() implies 0x30 <= #[trigger] spec_decimal(
            n,
        )[i] <= 0x39 by {
            let prev = spec_decimal(n / 10);
            if i < prev.len() {
                assert(spec_decimal(n)[i] == prev[i]);
            } else {
                assert(spec_decimal(n)[i] == (0x30 + n % 10) as u8);
            }
        }
    }
}

/// Every byte of the rendering of `n` is an ASCII digit.
pub proof fn lemma_u64_string_ascii(n: int)
    ensures
        forall|i: int|
            0 <= i < spec_u64_string(n).len() ==> 0x30 <= #[trigger] spec_u64_string(n)[i] <= 0x39,
{
    if n != 0 {
        lemma_decimal_ascii(n);
    }
}

/// Appends the decimal rendering of `n`.
pub fn push_decimal(out: &mut Vec<u8>, n: u64)
    ensures
        final(out)@ == old(out)@ + spec_u64_string(n as int),
{
    if n == 0 {
        out.push(0x30);
        proof {
            assert(out@ =~= old(out)@ + spec_u64_string(0));
        }
        return ;
    }
    let mut digits: Vec<u8> = Vec::new();
    let mut m: u64 = n;
    while m > 0
        invariant
            spec_decimal(n as int) == spec_decimal(m as int) + digits@.reverse(),
        decreases m,
    {
        let d: u8 = (m % 10) as u8;
        digits.push(0x30 + d);
        proof {
            let prev = digits@.drop_last();
            assert(prev.push((0x30 + d) as u8).reverse() =~= seq![(0x30 + d) as u8]
                + prev.reverse());
            assert(spec_decimal(m as int) == spec_decimal(m as int / 10).push(
                (0x30 + (m as int) % 10) as u8,
            ));
            assert(spec_decimal(m as int / 10) + digits@.reverse() =~= spec_decimal(m as int)
                + prev.reverse());
        }
        m = m / 10;
    }
    proof {
        assert(spec_decimal(n as int) =~= digits@.reverse());
    }
    let k = digits.len();
    let mut i: usize = 0;
    while i < k
        invariant
            k == digits@.len(),
            i <= k,
            out@ == old(out)@ + digits@.reverse().take(i as int),
        decreases k - i,
    {
        out.push(digits[k - 1 - i]);
        i = i + 1;
        proof {
            assert(digits@.reverse()[i as int - 1] == digits@[k as int - i]);
            assert(digits@.reverse().take(i as int) =~= digits@.reverse().take(i as int - 1).push(
                digits@.reverse()[i as int - 1],
            ));
        }
    }
    proof {
        assert(digits@.reverse().take(k as int) =~= digits@.reverse());
        assert(out@ == old(out)@ + spec_u64_string(n as int));
    }
}

} // verus!
