//! Where a file reference points: paths are `/`-separated, and a relative
//! reference is taken from the directory of the document that holds it.

use vstd::prelude::*;
use crate::text::{chars_of, string_of};

verus! {

/// `s` with each escaped space `\ ` replaced by a space.
pub open spec fn unescape(s: Seq<char>) -> Seq<char>
    decreases s.len(),
{
    if s.len() == 0 {
        s
    } else if s.len() >= 2 && s[0] == '\\' && s[1] == ' ' {
        seq![' '] + unescape(s.subrange(2, s.len() as int))
    } else {
        seq![s[0]] + unescape(s.subrange(1, s.len() as int))
    }
}

/// Index of the last `/` in `s`, or -1.
pub open spec fn last_slash(s: Seq<char>) -> int
    decreases s.len(),
{
    if s.len() == 0 {
        -1
    } else if s[s.len() - 1] == '/' {
        s.len() - 1
    } else {
        last_slash(s.subrange(0, s.len() - 1))
    }
}

/// `path` without its trailing `/` characters.
pub open spec fn strip_slashes(path: Seq<char>) -> Seq<char>
    decreases path.len(),
{
    if path.len() > 0 && path[path.len() - 1] == '/' {
        strip_slashes(path.subrange(0, path.len() - 1))
    } else {
        path
    }
}

/// The directory of the file at `path`, with its final `/`, as
/// `Path::parent` gives it: trailing slashes are ignored, and a bare file
/// name, the root or an empty path has no directory (empty).
pub open spec fn directory_of(path: Seq<char>) -> Seq<char> {
    let s = strip_slashes(path);
    s.subrange(0, last_slash(s) + 1)
}

/// The path that `reference` names from a document at `current`.
pub open spec fn resolve(reference: Seq<char>, current: Seq<char>) -> Seq<char> {
    let u = unescape(reference);
    if u.len() > 0 && u[0] == '/' {
        u
    } else {
        directory_of(current) + u
    }
}

pub proof fn lemma_last_slash_bounds(s: Seq<char>)
    ensures
        -1 <= last_slash(s) < s.len(),
    decreases s.len(),
{
    if s.len() > 0 {
        lemma_last_slash_bounds(s.subrange(0, s.len() - 1));
    }
}

pub fn unescape_spaces(s: &[char]) -> (r: Vec<char>)
    ensures
        r@ == unescape(s@),
{
    let n = s.len();
    let mut r: Vec<char> = Vec::new();
    let mut i: usize = 0;
    assert(s@.subrange(0, n as int) =~= s@);
    while i < n
        invariant
            i <= n,
            n == s@.len(),
            r@ + unescape(s@.subrange(i as int, n as int)) == unescape(s@),
        decreases n - i,
    {
        let ghost t = s@.subrange(i as int, n as int);
        if s[i] == '\\' && i + 1 < n && s[i + 1] == ' ' {
            assert(t.subrange(2, t.len() as int) =~= s@.subrange(i + 2, n as int));
            r.push(' ');
            assert(r@ + unescape(s@.subrange(i + 2, n as int)) =~= r@.drop_last() + unescape(t));
            i = i + 2;
        } else {
            assert(t.subrange(1, t.len() as int) =~= s@.subrange(i + 1, n as int));
            r.push(s[i]);
            assert(r@ + unescape(s@.subrange(i + 1, n as int)) =~= r@.drop_last() + unescape(t));
            i = i + 1;
        }
    }
    assert(r@ + unescape(s@.subrange(i as int, n as int)) =~= r@);
    r
}

/// The length of the directory part of `s`.
fn directory_len(s: &[char]) -> (r: usize)
    ensures
        r == last_slash(s@) + 1,
{
    let mut j: usize = s.len();
    assert(s@.subrange(0, j as int) =~= s@);
    while j > 0 && s[j - 1] != '/'
        invariant
            j <= s@.len(),
            last_slash(s@.subrange(0, j as int)) == last_slash(s@),
        decreases j,
    {
        assert(s@.subrange(0, j as int).subrange(0, j - 1) =~= s@.subrange(0, j - 1));
        j = j - 1;
    }
    j
}

/// The path that the reference `file_path` names from the document at
/// `current_file_path`: escaped spaces become spaces; an absolute path is
/// kept, a relative one is put after the document's directory, if it has
/// one.
pub fn resolve_referenced_path(file_path: &str, current_file_path: &str) -> (r: String)
    ensures
        r@ == resolve(file_path@, current_file_path@),
{
    let reference = chars_of(file_path);
    let current = chars_of(current_file_path);
    let u = unescape_spaces(reference.as_slice());
    if u.len() > 0 && u[0] == '/' {
        string_of(u.as_slice())
    } else {
        let mut e: usize = current.len();
        assert(current@.subrange(0, e as int) =~= current@);
        while e > 0 && current[e - 1] == '/'
            invariant
                e <= current@.len(),
                strip_slashes(current@.subrange(0, e as int)) == strip_slashes(current@),
            decreases e,
        {
            assert(current@.subrange(0, e as int).subrange(0, e - 1) =~= current@.subrange(
                0,
                e - 1,
            ));
            e = e - 1;
        }
        let stripped = &current.as_slice()[0..e];
        assert(stripped@ == strip_slashes(current@));
        let d = directory_len(stripped);
        proof {
            lemma_last_slash_bounds(stripped@);
        }
        let mut out = Vec::new();
        let mut i: usize = 0;
        while i < d
            invariant
                d <= stripped@.len(),
                i <= d,
                out@ == stripped@.subrange(0, i as int),
            decreases d - i,
        {
            out.push(stripped[i]);
            assert(out@ =~= stripped@.subrange(0, i + 1));
            i = i + 1;
        }
        crate::text::push_all(&mut out, u.as_slice());
        string_of(out.as_slice())
    }
}

} // verus!
