//! Output-path resolution. The decision is pure string logic over
//! `/`-separated paths; whether the input base names a file (a filesystem
//! question) is answered by the caller and passed in as a flag.

use vstd::prelude::*;
use vstd::string::StrSliceExecFns;
use vstd::string::StringExecFns;

verus! {

/// Whether `i` is the position of the last `/` of `s`.
pub open spec fn is_last_slash(s: Seq<char>, i: int) -> bool {
    &&& 0 <= i < s.len()
    &&& s[i] == '/'
    &&& forall|j: int| i < j < s.len() ==> s[j] != '/'
}

/// The final path component: everything after the last `/`, or the whole
/// string when there is none.
pub open spec fn spec_file_name(s: Seq<char>) -> Seq<char> {
    if exists|i: int| is_last_slash(s, i) {
        s.subrange((choose|i: int| is_last_slash(s, i)) + 1, s.len() as int)
    } else {
        s
    }
}

/// Whether `d` is the dot introducing the path's extension: the last dot,
/// inside the final component, with a non-empty stem before it.
pub open spec fn is_extension_dot_chars(s: Seq<char>, d: int) -> bool {
    &&& 0 < d < s.len()
    &&& s[d] == '.'
    &&& s[d - 1] != '/'
    &&& forall|j: int| d < j < s.len() ==> s[j] != '.' && s[j] != '/'
}

/// Whether the path's final component carries an extension.
pub open spec fn spec_has_extension(s: Seq<char>) -> bool {
    exists|d: int| is_extension_dot_chars(s, d)
}

/// Joining two paths with a single separator between them.
pub open spec fn spec_join(a: Seq<char>, b: Seq<char>) -> Seq<char> {
    if a.len() == 0 {
        b
    } else if a[a.len() - 1] == '/' {
        a + b
    } else {
        a + seq!['/'] + b
    }
}

/// The remainder of `f` after removing the leading directory `base`, or `f`
/// unchanged when `base` is not a leading directory of it.
pub open spec fn spec_strip_prefix(f: Seq<char>, base: Seq<char>) -> Seq<char> {
    if base.len() == 0 {
        f
    } else if f == base {
        Seq::empty()
    } else if f.len() > base.len() && f.subrange(0, base.len() as int) == base && f[base.len() as int]
        == '/' {
        f.subrange(base.len() as int + 1, f.len() as int)
    } else {
        f
    }
}

/// The view of an optional path argument.
pub open spec fn spec_opt_chars(o: Option<&str>) -> Option<Seq<char>> {
    match o {
        Some(s) => Some(s@),
        None => None,
    }
}

/// Where the processed copy of `f` goes. With no output base the input is
/// overwritten in place. With one, a single input file maps to the output
/// path itself when that path carries an extension, else into it as a
/// directory; a directory input mirrors its relative structure below the
/// output base.
pub open spec fn spec_resolve_output(
    f: Seq<char>,
    base: Seq<char>,
    out: Option<Seq<char>>,
    base_is_file: bool,
) -> Seq<char> {
    match out {
        None => f,
        Some(o) => if base_is_file {
            if spec_has_extension(o) {
                o
            } else {
                spec_join(o, spec_file_name(f))
            }
        } else {
            spec_join(o, spec_strip_prefix(f, base))
        },
    }
}

/// Finds the last `/` of `s`, if there is one.
fn find_last_slash(s: &str) -> (r: Option<usize>)
    ensures
        match r {
            Some(i) => is_last_slash(s@, i as int),
            None => forall|i: int| !is_last_slash(s@, i),
        },
{
    let n = s.unicode_len();
    let mut i: usize = n;
    while i > 0
        invariant
            i <= n == s@.len(),
            forall|j: int| i <= j < n ==> s@[j] != '/',
        decreases i,
    {
        i = i - 1;
        if s.get_char(i) == '/' {
            return Some(i);
        }
    }
    proof {
        assert forall|i2: int| !is_last_slash(s@, i2) by {
            if is_last_slash(s@, i2) {
                assert(s@[i2] == '/');
            }
        }
    }
    None
}

/// Whether the path's final component carries an extension.
fn has_extension(s: &str) -> (r: bool)
    ensures
        r == spec_has_extension(s@),
{
    let n = s.unicode_len();
    let mut i: usize = n;
    while i > 0
        invariant
            i <= n == s@.len(),
            forall|j: int| i <= j < n ==> s@[j] != '.' && s@[j] != '/',
        decreases i,
    {
        i = i - 1;
        let c = s.get_char(i);
        if c == '/' {
            proof {
                assert forall|d: int| !is_extension_dot_chars(s@, d) by {
                    if is_extension_dot_chars(s@, d) {
                        assert(s@[d] == '.');
                        assert(d <= i as int);
                        if d < i as int {
                            assert(s@[i as int] != '/');
                        }
                    }
                }
            }
            return false;
        }
        if c == '.' {
            if i > 0 && s.get_char(i - 1) != '/' {
                proof {
                    assert(is_extension_dot_chars(s@, i as int));
                }
                return true;
            } else {
                proof {
                    assert forall|d: int| !is_extension_dot_chars(s@, d) by {
                        if is_extension_dot_chars(s@, d) {
                            assert(s@[d] == '.');
                            assert(d <= i as int);
                            if d < i as int {
                                assert(s@[i as int] != '.');
                            }
                        }
                    }
                }
                return false;
            }
        }
    }
    proof {
        assert forall|d: int| !is_extension_dot_chars(s@, d) by {
            if is_extension_dot_chars(s@, d) {
                assert(s@[d] == '.');
            }
        }
    }
    false
}

/// Joins two paths with exactly one separator between them.
fn join_path(a: &str, b: &str) -> (r: String)
    ensures
        r@ == spec_join(a@, b@),
{
    let n = a.unicode_len();
    if n == 0 {
        return b.to_owned();
    }
    let last = a.get_char(n - 1);
    let mut s = a.to_owned();
    if last != '/' {
        s.append("/");
        proof {
            reveal_strlit("/");
            assert(a@ + "/"@ =~= a@ + seq!['/']);
        }
    }
    s.append(b);
    proof {
        if last == '/' {
            assert(s@ == a@ + b@);
        } else {
            assert((a@ + seq!['/']) + b@ =~= a@ + seq!['/'] + b@);
        }
    }
    s
}

/// The final path component of `f`.
fn file_name_of<'a>(f: &'a str) -> (r: &'a str)
    ensures
        r@ == spec_file_name(f@),
{
    match find_last_slash(f) {
        None => f,
        Some(i) => {
            proof {
                let ii = choose|ii: int| is_last_slash(f@, ii);
                assert(is_last_slash(f@, ii));
                assert(is_last_slash(f@, i as int));
                if ii < i as int {
                    assert(f@[i as int] != '/');
                }
                if (i as int) < ii {
                    assert(f@[ii] != '/');
                }
                assert(ii == i as int);
            }
            let n = f.unicode_len();
            proof {
                assert(i < n);
            }
            f.substring_char(i + 1, n)
        },
    }
}

/// The remainder of `f` below the directory `base`, or `f` unchanged.
fn strip_prefix_str<'a>(f: &'a str, base: &str) -> (r: &'a str)
    ensures
        r@ == spec_strip_prefix(f@, base@),
{
    let nf = f.unicode_len();
    let nb = base.unicode_len();
    if nb == 0 {
        return f;
    }
    if nf < nb {
        proof {
            assert(f@ != base@);
        }
        return f;
    }
    let mut i: usize = 0;
    while i < nb
        invariant
            nb <= nf,
            nf == f@.len(),
            nb == base@.len(),
            i <= nb,
            forall|j: int| 0 <= j < i ==> f@[j] == base@[j],
        decreases nb - i,
    {
        if f.get_char(i) != base.get_char(i) {
            proof {
                assert(f@ != base@);
                assert(f@.subrange(0, base@.len() as int)[i as int] != base@[i as int]);
            }
            return f;
        }
        i = i + 1;
    }
    proof {
        assert(f@.subrange(0, nb as int) =~= base@);
    }
    if nf == nb {
        proof {
            assert(f@ =~= base@);
        }
        let r = f.substring_char(nf, nf);
        proof {
            assert(r@ =~= Seq::<char>::empty());
        }
        return r;
    }
    if f.get_char(nb) == '/' {
        return f.substring_char(nb + 1, nf);
    }
    proof {
        assert(f@ != base@);
    }
    f
}

/// Resolves where the processed copy of `input_file` should be written.
///
/// `input_base` is the file or directory the user named; `input_base_is_file`
/// says which of the two it is. With no `output_base` the input path is
/// returned, to be overwritten in place.
pub fn resolve_output(
    input_file: &str,
    input_base: &str,
    output_base: Option<&str>,
    input_base_is_file: bool,
) -> (r: String)
    ensures
        r@ == spec_resolve_output(
            input_file@,
            input_base@,
            spec_opt_chars(output_base),
            input_base_is_file,
        ),
{
    match output_base {
        None => input_file.to_owned(),
        Some(out) => {
            if input_base_is_file {
                if has_extension(out) {
                    out.to_owned()
                } else {
                    join_path(out, file_name_of(input_file))
                }
            } else {
                join_path(out, strip_prefix_str(input_file, input_base))
            }
        },
    }
}

} // verus!
