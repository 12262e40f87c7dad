//! Structural checks of a chat document. They read the raw text on their
//! own terms, independently of the parser: every template key must be
//! present with a value, and after the last `---` the turns must start
//! with `user:`, alternate, end with `user:`, and every `[[path]]` inside
//! a user turn must name an existing file.

use vstd::prelude::*;
use crate::messages::{turn_start, Role};
use crate::paths::{resolve, resolve_referenced_path};
use crate::template::{keys, template_keys};
use crate::text::{
    chars_of, copy_of, count_newlines, decimal, has_prefix, is_space, is_space_char, lines, lines_of, push_all, push_decimal, starts_with,
    string_of, trim, trimmed, views,
};

verus! {

pub open spec fn occurs_at(s: Seq<char>, p: Seq<char>, i: int) -> bool {
    0 <= i && i + p.len() <= s.len() && s.subrange(i, i + p.len()) == p
}

/// Whether a non-whitespace character stands in `s` at or after `q` and
/// before the end of that line.
pub open spec fn text_on_line(s: Seq<char>, q: int) -> bool
    decreases s.len() - q,
{
    if q < 0 || q >= s.len() || s[q] == '\n' {
        false
    } else if !is_space(s[q]) {
        true
    } else {
        text_on_line(s, q + 1)
    }
}

/// `key:` occurs in `content` with a non-whitespace character after it on
/// the same line. A field left empty, such as the `summary: ` of a new
/// document, does not count.
pub open spec fn key_present(content: Seq<char>, key: Seq<char>) -> bool {
    exists|i: int|
        #[trigger] occurs_at(content, key.push(':'), i) && text_on_line(content, i + key.len() + 1)
}

/// The keys of `ks` that `content` lacks, in order.
pub open spec fn missing_keys_of(content: Seq<char>, ks: Seq<Seq<char>>) -> Seq<Seq<char>>
    decreases ks.len(),
{
    if ks.len() == 0 {
        Seq::empty()
    } else {
        let m = missing_keys_of(content, ks.drop_last());
        if key_present(content, ks.last()) {
            m
        } else {
            m.push(ks.last())
        }
    }
}

/// Start of the last occurrence of `p` that begins at or before `i`, or -1.
pub open spec fn occurrence_at_or_before(s: Seq<char>, p: Seq<char>, i: int) -> int
    decreases i + 1,
{
    if i < 0 {
        -1
    } else if occurs_at(s, p, i) {
        i
    } else {
        occurrence_at_or_before(s, p, i - 1)
    }
}

/// Start of the last occurrence of `p` in `s`, or -1.
pub open spec fn last_occurrence(s: Seq<char>, p: Seq<char>) -> int {
    occurrence_at_or_before(s, p, s.len() - p.len())
}

/// End of the run of characters other than `]` and newline that starts
/// at `j`.
pub open spec fn span_end(s: Seq<char>, j: int) -> int
    decreases s.len() - j,
{
    if j < 0 || j >= s.len() || s[j] == ']' || s[j] == '\n' {
        j
    } else {
        span_end(s, j + 1)
    }
}

/// Whether a reference `[[...]]` starts at `i`: `[[`, one or more
/// characters other than `]` and newline, `]]`.
pub open spec fn token_at(s: Seq<char>, i: int) -> bool {
    0 <= i && i + 1 < s.len() && s[i] == '[' && s[i + 1] == '[' && span_end(s, i + 2) > i + 2
        && span_end(s, i + 2) + 1 < s.len() && s[span_end(s, i + 2)] == ']' && s[span_end(
        s,
        i + 2,
    ) + 1] == ']'
}

/// The references in `s` from index `i` on, leftmost first, without
/// overlap; each is the text between the brackets.
pub open spec fn tokens_from(s: Seq<char>, i: int) -> Seq<Seq<char>>
    decreases s.len() - i,
{
    if i < 0 || i >= s.len() {
        Seq::empty()
    } else if token_at(s, i) {
        let e = span_end(s, i + 2);
        if e + 2 > i {
            seq![s.subrange(i + 2, e)] + tokens_from(s, e + 2)
        } else {
            Seq::empty()
        }
    } else {
        tokens_from(s, i + 1)
    }
}

/// What the checks have seen of the lines so far.
pub struct Scan {
    /// Whether the first non-empty line, trimmed, starts with `user:`.
    pub first_user: Option<bool>,
    /// Whether the last non-empty line, trimmed, starts with `user:`.
    pub last_user: Option<bool>,
    pub expect_user: bool,
    pub started: bool,
    /// The first line that breaks the alternation.
    pub bad: Option<int>,
    /// The roles of the lines that start turns.
    pub roles: Seq<Role>,
    /// The role of the turn in progress.
    pub role: Option<Role>,
    /// The references met inside user turns.
    pub refs: Seq<Seq<char>>,
}

pub open spec fn initial_scan() -> Scan {
    Scan {
        first_user: None,
        last_user: None,
        expect_user: true,
        started: false,
        bad: None,
        roles: Seq::empty(),
        role: None,
        refs: Seq::empty(),
    }
}

/// Line `k` of the chat region. Lines are read trimmed: a line is empty
/// when it trims to nothing, and a turn starts with a line that, trimmed,
/// begins with `user:` or `assistant:`. (The parser, unlike these checks,
/// takes a turn start only in the first column.) The alternation check
/// reads the first non-empty line and then only lines that start turns.
pub open spec fn scan_step(st: Scan, line: Seq<char>, k: int) -> Scan {
    let t = trimmed(line);
    let r = turn_start(t);
    let is_user = has_prefix(t, "user:"@);
    let checked = st.bad is None && ((!st.started && t.len() > 0) || (st.started && r is Some));
    let role = if r is Some {
        r
    } else {
        st.role
    };
    Scan {
        first_user: if st.first_user is None && t.len() > 0 {
            Some(is_user)
        } else {
            st.first_user
        },
        last_user: if t.len() > 0 {
            Some(is_user)
        } else {
            st.last_user
        },
        expect_user: if checked {
            !st.expect_user
        } else {
            st.expect_user
        },
        started: st.started || checked,
        bad: if checked && !((st.expect_user && r == Some(Role::User)) || (!st.expect_user && r
            == Some(Role::Assistant))) {
            Some(k)
        } else {
            st.bad
        },
        roles: match r {
            Some(x) => st.roles.push(x),
            None => st.roles,
        },
        role: role,
        refs: if role == Some(Role::User) {
            st.refs + tokens_from(t, 0)
        } else {
            st.refs
        },
    }
}

pub open spec fn run_scan(lines: Seq<Seq<char>>) -> Scan
    decreases lines.len(),
{
    if lines.len() == 0 {
        initial_scan()
    } else {
        scan_step(run_scan(lines.drop_last()), lines.last(), lines.len() - 1)
    }
}

/// A finding of the checks.
pub enum Issue {
    MissingKey(Seq<char>),
    NoFrontmatterEnd,
    EmptyBody,
    FirstNotUser,
    NotAlternating(int),
    LastNotUser,
    MissingReference(Seq<char>),
    Unreadable(Seq<char>),
}

/// The references of `refs` whose file does not exist; `exists[i]` tells
/// whether the file of `refs[i]` exists.
pub open spec fn missing_references(refs: Seq<Seq<char>>, exists: Seq<bool>) -> Seq<Issue>
    decreases refs.len(),
{
    if refs.len() == 0 {
        Seq::empty()
    } else {
        let i = refs.len() - 1;
        let m = missing_references(refs.drop_last(), exists);
        if i < exists.len() && exists[i] {
            m
        } else {
            m.push(Issue::MissingReference(refs[i]))
        }
    }
}

/// The chat region: what follows the last `---`.
pub open spec fn chat_region(content: Seq<char>) -> Seq<char> {
    content.subrange(last_occurrence(content, "---"@) + 3, content.len() as int)
}

/// The findings of the structural checks on `content`, in order; the
/// first failing check stops them, but every missing reference is listed.
pub open spec fn structure_issues(content: Seq<char>, exists: Seq<bool>) -> Seq<Issue> {
    let d = last_occurrence(content, "---"@);
    if d < 0 {
        seq![Issue::NoFrontmatterEnd]
    } else {
        let body = chat_region(content);
        let st = run_scan(lines_of(body));
        if trimmed(body).len() == 0 {
            seq![Issue::EmptyBody]
        } else if st.first_user != Some(true) {
            seq![Issue::FirstNotUser]
        } else if st.bad is Some {
            seq![
                Issue::NotAlternating(
                    count_newlines(content.subrange(0, d + 3)) + st.bad->0 + 1,
                ),
            ]
        } else if st.last_user != Some(true) {
            seq![Issue::LastNotUser]
        } else {
            missing_references(st.refs, exists)
        }
    }
}

/// All findings on `content`: the missing template keys, all of them, or
/// else the structural findings. Empty when the document is valid.
pub open spec fn issues_of(content: Seq<char>, exists: Seq<bool>) -> Seq<Issue> {
    let missing = missing_keys_of(content, keys());
    if missing.len() > 0 {
        missing.map_values(|k: Seq<char>| Issue::MissingKey(k))
    } else {
        structure_issues(content, exists)
    }
}

/// The references that the last check looks up, with their paths as
/// written: those inside user turns of the chat region.
pub open spec fn lint_references_of(content: Seq<char>) -> Seq<Seq<char>> {
    if last_occurrence(content, "---"@) < 0 {
        Seq::empty()
    } else {
        run_scan(lines_of(chat_region(content))).refs
    }
}


/// A finding of the checks on a document.
pub enum LintError {
    /// A template key is missing or has no value.
    MissingKey(String),
    /// The document holds no `---`.
    NoFrontmatterEnd,
    /// Nothing but whitespace follows the last `---`.
    EmptyBody,
    /// The first non-empty line after the frontmatter does not start with `user:`.
    FirstNotUser,
    /// The turn that starts on this line (counted from 1) breaks the
    /// alternation of `user:` and `assistant:`.
    NotAlternating(usize),
    /// The last non-empty line does not start with `user:`.
    LastNotUser,
    /// The file that this reference (as written) names does not exist.
    MissingReference(String),
    /// The document could not be read, for this reason.
    Unreadable(String),
}

impl View for LintError {
    type V = Issue;

    open spec fn view(&self) -> Issue {
        match self {
            LintError::MissingKey(k) => Issue::MissingKey(k@),
            LintError::NoFrontmatterEnd => Issue::NoFrontmatterEnd,
            LintError::EmptyBody => Issue::EmptyBody,
            LintError::FirstNotUser => Issue::FirstNotUser,
            LintError::NotAlternating(n) => Issue::NotAlternating(*n as int),
            LintError::LastNotUser => Issue::LastNotUser,
            LintError::MissingReference(p) => Issue::MissingReference(p@),
            LintError::Unreadable(e) => Issue::Unreadable(e@),
        }
    }
}

pub open spec fn issue_views(v: Seq<LintError>) -> Seq<Issue> {
    v.map_values(|e: LintError| e@)
}

pub open spec fn char_views(v: Seq<Vec<char>>) -> Seq<Seq<char>> {
    v.map_values(|x: Vec<char>| x@)
}

/// Whether text stands at or after `q` on its line.
fn text_on_line_from(s: &[char], q: usize) -> (r: bool)
    requires
        q <= s@.len(),
    ensures
        r == text_on_line(s@, q as int),
{
    let mut k = q;
    while k < s.len() && s[k] != '\n' && is_space_char(s[k])
        invariant
            q <= k <= s@.len(),
            text_on_line(s@, k as int) == text_on_line(s@, q as int),
        decreases s.len() - k,
    {
        k = k + 1;
    }
    k < s.len() && s[k] != '\n'
}

/// Whether `key:` occurs in `content` with text after it on its line.
pub fn has_key(content: &[char], key: &[char]) -> (r: bool)
    ensures
        r == key_present(content@, key@),
{
    let mut pat = copy_of(key);
    pat.push(':');
    assert(pat@ == key@.push(':'));
    let n = content.len();
    let plen = pat.len();
    let mut i: usize = 0;
    while i < n && plen <= n - i
        invariant
            n == content@.len(),
            plen == pat@.len(),
            pat@ == key@.push(':'),
            forall|k: int|
                0 <= k < i ==> !(#[trigger] occurs_at(content@, pat@, k) && text_on_line(
                    content@,
                    k + plen,
                )),
        decreases n - i,
    {
        let found = starts_with(&content[i..n], pat.as_slice());
        assert(content@.subrange(i as int, n as int).subrange(0, plen as int) =~= content@.subrange(
            i as int,
            i + plen,
        ));
        assert(found == occurs_at(content@, pat@, i as int));
        if found && text_on_line_from(content, i + plen) {
            return true;
        }
        i = i + 1;
    }
    assert forall|a: int| #[trigger] occurs_at(content@, pat@, a) implies !text_on_line(
        content@,
        a + plen,
    ) by {
        if a >= i {
            assert(a + plen > n);
        }
    }
    false
}

/// The template keys that `content` lacks, in order.
pub fn missing_keys(content: &[char]) -> (r: Vec<String>)
    ensures
        r@.map_values(|k: String| k@) == missing_keys_of(content@, keys()),
{
    let ks = template_keys();
    let ghost kv = keys();
    let mut out: Vec<String> = Vec::new();
    let mut i: usize = 0;
    while i < ks.len()
        invariant
            i <= ks@.len(),
            ks@.map_values(|k: String| k@) == kv,
            kv.len() == ks@.len(),
            out@.map_values(|k: String| k@) == missing_keys_of(content@, kv.subrange(0, i as int)),
        decreases ks.len() - i,
    {
        let k = chars_of(ks[i].as_str());
        assert(kv.subrange(0, i + 1).drop_last() =~= kv.subrange(0, i as int));
        assert(k@ == kv[i as int]);
        if !has_key(content, k.as_slice()) {
            let ghost before = out@;
            out.push(ks[i].clone());
            assert(out@.map_values(|k: String| k@) =~= before.map_values(|k: String| k@).push(
                kv[i as int],
            ));
        }
        i = i + 1;
    }
    assert(kv.subrange(0, i as int) =~= kv);
    out
}

/// Start of the last occurrence of `---` in `s`.
fn last_delimiter(s: &[char]) -> (r: Option<usize>)
    ensures
        match r {
            Some(d) => d == last_occurrence(s@, "---"@),
            None => last_occurrence(s@, "---"@) < 0,
        },
{
    proof {
        reveal_strlit("---");
        assert("---"@ =~= seq!['-', '-', '-']);
    }
    let n = s.len();
    if n < 3 {
        assert(occurrence_at_or_before(s@, "---"@, n - 3) == -1);
        return None;
    }
    let mut i: usize = n - 3 + 1;
    while i > 0
        invariant
            i <= n - 2,
            n == s@.len(),
            n >= 3,
            "---"@ == seq!['-', '-', '-'],
            occurrence_at_or_before(s@, "---"@, i - 1) == last_occurrence(s@, "---"@),
        decreases i,
    {
        let j = i - 1;
        if s[j] == '-' && s[j + 1] == '-' && s[j + 2] == '-' {
            assert(s@.subrange(j as int, j + 3) =~= "---"@);
            return Some(j);
        }
        assert(!occurs_at(s@, "---"@, j as int)) by {
            if occurs_at(s@, "---"@, j as int) {
                assert(s@.subrange(j as int, j + 3)[0] == s@[j as int]);
                assert(s@.subrange(j as int, j + 3)[1] == s@[j + 1]);
                assert(s@.subrange(j as int, j + 3)[2] == s@[j + 2]);
            }
        }
        i = j;
    }
    None
}

fn newline_count(s: &[char]) -> (r: usize)
    ensures
        r == count_newlines(s@),
{
    let mut c: usize = 0;
    let mut i: usize = 0;
    while i < s.len()
        invariant
            i <= s@.len(),
            c == count_newlines(s@.subrange(0, i as int)),
            c <= i,
        decreases s.len() - i,
    {
        assert(s@.subrange(0, i + 1).drop_last() =~= s@.subrange(0, i as int));
        if s[i] == '\n' {
            c = c + 1;
        }
        i = i + 1;
    }
    assert(s@.subrange(0, i as int) =~= s@);
    c
}

fn bracket_run_end(s: &[char], j: usize) -> (r: usize)
    requires
        j <= s@.len(),
    ensures
        r == span_end(s@, j as int),
        j <= r <= s@.len(),
{
    let mut k = j;
    while k < s.len() && s[k] != ']' && s[k] != '\n'
        invariant
            j <= k <= s@.len(),
            span_end(s@, k as int) == span_end(s@, j as int),
        decreases s.len() - k,
    {
        k = k + 1;
    }
    k
}

/// The references `[[...]]` in `s`, leftmost first, each as the text
/// between its brackets.
pub fn tokens(s: &[char]) -> (r: Vec<Vec<char>>)
    ensures
        char_views(r@) == tokens_from(s@, 0),
{
    let n = s.len();
    let mut out: Vec<Vec<char>> = Vec::new();
    let mut i: usize = 0;
    while i < n
        invariant
            i <= n,
            n == s@.len(),
            char_views(out@) + tokens_from(s@, i as int) == tokens_from(s@, 0),
        decreases n - i,
    {
        let mut next = i + 1;
        if i + 1 < n && s[i] == '[' && s[i + 1] == '[' {
            let e = bracket_run_end(s, i + 2);
            if e > i + 2 && e < n - 1 && s[e] == ']' && s[e + 1] == ']' {
                let ghost before = out@;
                out.push(copy_of(&s[i + 2..e]));
                assert(char_views(out@) =~= char_views(before).push(s@.subrange(i + 2, e as int)));
                next = e + 2;
            }
        }
        assert(char_views(out@) + tokens_from(s@, next as int) =~= tokens_from(s@, 0));
        i = next;
    }
    assert(char_views(out@) =~= char_views(out@) + tokens_from(s@, i as int));
    out
}


struct Scanner {
    first_user: Option<bool>,
    last_user: Option<bool>,
    expect_user: bool,
    started: bool,
    bad: Option<usize>,
    roles: Ghost<Seq<Role>>,
    role: Option<Role>,
    refs: Vec<Vec<char>>,
}

impl Scanner {
    spec fn state(&self) -> Scan {
        Scan {
            first_user: self.first_user,
            last_user: self.last_user,
            expect_user: self.expect_user,
            started: self.started,
            bad: match self.bad {
                Some(b) => Some(b as int),
                None => None,
            },
            roles: self.roles@,
            role: self.role,
            refs: char_views(self.refs@),
        }
    }

    fn step(&mut self, line: &[char], k: usize)
        ensures
            final(self).state() == scan_step(old(self).state(), line@, k as int),
    {
        let t = trim(line);
        let r = crate::messages::message_role(t);
        let is_user = starts_with(t, chars_of("user:").as_slice());
        let nonempty = t.len() > 0;
        let is_start = r.is_some();
        let checked = self.bad.is_none() && ((!self.started && nonempty) || (self.started
            && is_start));
        if self.first_user.is_none() && nonempty {
            self.first_user = Some(is_user);
        }
        if nonempty {
            self.last_user = Some(is_user);
        }
        if checked {
            let ok = match r {
                Some(Role::User) => self.expect_user,
                Some(Role::Assistant) => !self.expect_user,
                None => false,
            };
            if !ok {
                self.bad = Some(k);
            }
            self.expect_user = !self.expect_user;
            self.started = true;
        }
        match r {
            Some(x) => {
                self.roles = Ghost(self.roles@.push(x));
                self.role = Some(x);
            },
            None => {},
        }
        let in_user = match self.role {
            Some(Role::User) => true,
            _ => false,
        };
        if in_user {
            let mut found = tokens(t);
            let ghost before = self.refs@;
            let ghost added = found@;
            self.refs.append(&mut found);
            assert(char_views(self.refs@) =~= char_views(before) + char_views(added));
        }
    }
}

/// What the checks see in `lines`.
fn scan(lines: &Vec<&[char]>) -> (r: Scanner)
    ensures
        r.state() == run_scan(views(lines@)),
{
    let ghost ls = views(lines@);
    let mut sc = Scanner {
        first_user: None,
        last_user: None,
        expect_user: true,
        started: false,
        bad: None,
        roles: Ghost(Seq::empty()),
        role: None,
        refs: Vec::new(),
    };
    assert(char_views(sc.refs@) =~= Seq::<Seq<char>>::empty());
    let mut i: usize = 0;
    while i < lines.len()
        invariant
            i <= ls.len(),
            ls == views(lines@),
            sc.state() == run_scan(ls.subrange(0, i as int)),
        decreases lines.len() - i,
    {
        assert(ls.subrange(0, i + 1).drop_last() =~= ls.subrange(0, i as int));
        sc.step(lines[i], i);
        i = i + 1;
    }
    assert(ls.subrange(0, i as int) =~= ls);
    sc
}

/// Whether the first non-empty line of the chat region `content` starts
/// with `user:` once trimmed.
pub fn is_first_entry_user(content: &str) -> (r: bool)
    ensures
        r == (run_scan(lines_of(content@)).first_user == Some(true)),
{
    let cs = chars_of(content);
    let ls = lines(cs.as_slice());
    let sc = scan(&ls);
    match sc.first_user {
        Some(b) => b,
        None => false,
    }
}

/// Whether the turns of the chat region `content` alternate, starting
/// with `user:`.
pub fn validate_alternating_entries(content: &str) -> (r: bool)
    ensures
        r == (run_scan(lines_of(content@)).bad is None),
{
    let cs = chars_of(content);
    let ls = lines(cs.as_slice());
    let sc = scan(&ls);
    sc.bad.is_none()
}

/// Whether the last non-empty line of the chat region `content` starts
/// with `user:` once trimmed.
pub fn is_last_entry_user(content: &str) -> (r: bool)
    ensures
        r == (run_scan(lines_of(content@)).last_user == Some(true)),
{
    let cs = chars_of(content);
    let ls = lines(cs.as_slice());
    let sc = scan(&ls);
    match sc.last_user {
        Some(b) => b,
        None => false,
    }
}

/// The chat region of `content` and the length of what precedes it.
fn split_chat_region(content: &[char]) -> (r: Option<(usize, &[char])>)
    ensures
        match r {
            Some((d, body)) => d == last_occurrence(content@, "---"@) + 3 && body@ == chat_region(
                content@,
            ) && d <= content@.len() && last_occurrence(content@, "---"@) >= 0,
            None => last_occurrence(content@, "---"@) < 0,
        },
{
    let n = content.len();
    match last_delimiter(content) {
        Some(d) => {
            proof {
                reveal_strlit("---");
                assert(occurrence_at_or_before(content@, "---"@, content@.len() - 3) == d);
                lemma_occurrence_found(content@, "---"@, content@.len() - 3);
                assert("---"@.len() == 3);
                assert(d + 3 <= content@.len());
            }
            Some((d + 3, &content[d + 3..n]))
        },
        None => None,
    }
}

pub proof fn lemma_occurrence_found(s: Seq<char>, p: Seq<char>, i: int)
    ensures
        occurrence_at_or_before(s, p, i) >= 0 ==> occurs_at(s, p, occurrence_at_or_before(s, p, i)),
    decreases i + 1,
{
    if i >= 0 && !occurs_at(s, p, i) {
        lemma_occurrence_found(s, p, i - 1);
    }
}

fn unresolved_references(refs: &Vec<Vec<char>>, exists: &Vec<bool>) -> (r: Vec<LintError>)
    ensures
        issue_views(r@) == missing_references(char_views(refs@), exists@),
{
    let ghost rv = char_views(refs@);
    let mut out: Vec<LintError> = Vec::new();
    let mut i: usize = 0;
    assert(issue_views(out@) =~= Seq::<Issue>::empty());
    while i < refs.len()
        invariant
            i <= refs@.len(),
            rv == char_views(refs@),
            issue_views(out@) == missing_references(rv.subrange(0, i as int), exists@),
        decreases refs.len() - i,
    {
        assert(rv.subrange(0, i + 1).drop_last() =~= rv.subrange(0, i as int));
        assert(rv.subrange(0, i + 1)[i as int] == refs@[i as int]@);
        if !(i < exists.len() && exists[i]) {
            let ghost before = out@;
            out.push(LintError::MissingReference(string_of(refs[i].as_slice())));
            assert(issue_views(out@) =~= issue_views(before).push(
                Issue::MissingReference(refs@[i as int]@),
            ));
        }
        i = i + 1;
    }
    assert(rv.subrange(0, i as int) =~= rv);
    out
}

/// The structural findings on `content`; empty when its structure is valid.
pub fn validate_chat_structure(content: &str, exists: &Vec<bool>) -> (r: Vec<LintError>)
    ensures
        issue_views(r@) == structure_issues(content@, exists@),
{
    let cs = chars_of(content);
    match split_chat_region(cs.as_slice()) {
        None => {
            let r = vec![LintError::NoFrontmatterEnd];
            assert(issue_views(r@) =~= seq![Issue::NoFrontmatterEnd]);
            r
        },
        Some((d, body)) => {
            let ls = lines(body);
            let sc = scan(&ls);
            let r = if trim(body).len() == 0 {
                vec![LintError::EmptyBody]
            } else if sc.first_user != Some(true) {
                vec![LintError::FirstNotUser]
            } else if sc.bad.is_some() {
                let before = newline_count(&cs[0..d]);
                let b = sc.bad.unwrap();
                proof {
                    lemma_count_newlines_bound(cs@.subrange(0, d as int));
                    lemma_scan_bad_bound(views(ls@));
                    crate::text::lemma_lines_count(body@);
                }
                assert(b < ls@.len());
                vec![LintError::NotAlternating(before + b + 1)]
            } else if sc.last_user != Some(true) {
                vec![LintError::LastNotUser]
            } else {
                unresolved_references(&sc.refs, exists)
            };
            assert(issue_views(r@) =~= structure_issues(content@, exists@));
            r
        },
    }
}

pub proof fn lemma_scan_bad_bound(lines: Seq<Seq<char>>)
    ensures
        run_scan(lines).bad matches Some(b) ==> 0 <= b < lines.len(),
    decreases lines.len(),
{
    if lines.len() > 0 {
        lemma_scan_bad_bound(lines.drop_last());
    }
}

pub proof fn lemma_count_newlines_bound(s: Seq<char>)
    ensures
        0 <= count_newlines(s) <= s.len(),
    decreases s.len(),
{
    if s.len() > 0 {
        lemma_count_newlines_bound(s.drop_last());
    }
}

/// All findings on `content`, where `exists[i]` tells whether the file of
/// the `i`-th entry of [`lint_reference_paths`] exists. Empty when the
/// document is valid.
pub fn validate_chat_content(content: &str, exists: &Vec<bool>) -> (r: Vec<LintError>)
    ensures
        issue_views(r@) == issues_of(content@, exists@),
{
    let cs = chars_of(content);
    let missing = missing_keys(cs.as_slice());
    if missing.len() > 0 {
        let mut out: Vec<LintError> = Vec::new();
        let mut i: usize = 0;
        let ghost mv = missing@.map_values(|k: String| k@);
        while i < missing.len()
            invariant
                i <= missing@.len(),
                mv == missing@.map_values(|k: String| k@),
                out@.len() == i,
                forall|j: int|
                    0 <= j < i ==> #[trigger] out@[j]@ == Issue::MissingKey(mv[j]),
            decreases missing.len() - i,
        {
            out.push(LintError::MissingKey(missing[i].clone()));
            i = i + 1;
        }
        assert(issue_views(out@) =~= mv.map_values(|k: Seq<char>| Issue::MissingKey(k)));
        out
    } else {
        validate_chat_structure(content, exists)
    }
}

/// The paths of the files that the reference check looks up, in order,
/// for a document at `current_file_path`.
pub fn lint_reference_paths(content: &str, current_file_path: &str) -> (r: Vec<String>)
    ensures
        r@.map_values(|p: String| p@) == lint_references_of(content@).map_values(
            |p: Seq<char>| resolve(p, current_file_path@),
        ),
{
    let cs = chars_of(content);
    let refs: Vec<Vec<char>> = match split_chat_region(cs.as_slice()) {
        None => {
            let v: Vec<Vec<char>> = Vec::new();
            assert(char_views(v@) =~= lint_references_of(content@));
            v
        },
        Some((_d, body)) => {
            let ls = lines(body);
            let sc = scan(&ls);
            assert(char_views(sc.refs@) == lint_references_of(content@));
            sc.refs
        },
    };
    let ghost want = lint_references_of(content@).map_values(
        |p: Seq<char>| resolve(p, current_file_path@),
    );
    assert(char_views(refs@) == lint_references_of(content@));
    let mut out: Vec<String> = Vec::new();
    let mut i: usize = 0;
    while i < refs.len()
        invariant
            i <= refs@.len(),
            want.len() == refs@.len(),
            want == char_views(refs@).map_values(|p: Seq<char>| resolve(p, current_file_path@)),
            out@.len() == i,
            forall|k: int| 0 <= k < i ==> #[trigger] out@[k]@ == want[k],
        decreases refs.len() - i,
    {
        let p = string_of(refs[i].as_slice());
        let resolved = resolve_referenced_path(p.as_str(), current_file_path);
        assert(resolved@ == want[i as int]);
        out.push(resolved);
        i = i + 1;
    }
    assert(out@.map_values(|p: String| p@) =~= want);
    out
}


/// The text that reports `i`.
pub open spec fn message_of(i: Issue) -> Seq<char> {
    match i {
        Issue::MissingKey(k) => "Frontmatter error: '"@ + k + "' is missing or has incorrect format."@,
        Issue::NoFrontmatterEnd => "Missing frontmatter end delimiter '---'."@,
        Issue::EmptyBody => "Chat structure error: No content after frontmatter."@,
        Issue::FirstNotUser => "Chat structure error: First entry after frontmatter must start with 'user:'."@,
        Issue::NotAlternating(n) => "Chat structure error: Entries must alternate between 'user:' and 'assistant:' (line "@
            + decimal(n as nat) + ")."@,
        Issue::LastNotUser => "Chat structure error: Last entry must start with 'user:'."@,
        Issue::MissingReference(p) => "File reference error: '"@ + p + "' not found."@,
        Issue::Unreadable(e) => "Failed to read the file: "@ + e,
    }
}

impl LintError {
    /// The text that reports this finding.
    pub fn message(&self) -> (r: String)
        ensures
            r@ == message_of(self@),
    {
        let mut v: Vec<char> = Vec::new();
        match self {
            LintError::MissingKey(k) => {
                push_all(&mut v, chars_of("Frontmatter error: '").as_slice());
                push_all(&mut v, chars_of(k.as_str()).as_slice());
                push_all(&mut v, chars_of("' is missing or has incorrect format.").as_slice());
            },
            LintError::NoFrontmatterEnd => {
                push_all(&mut v, chars_of("Missing frontmatter end delimiter '---'.").as_slice());
            },
            LintError::EmptyBody => {
                push_all(
                    &mut v,
                    chars_of("Chat structure error: No content after frontmatter.").as_slice(),
                );
            },
            LintError::FirstNotUser => {
                push_all(
                    &mut v,
                    chars_of(
                        "Chat structure error: First entry after frontmatter must start with 'user:'.",
                    ).as_slice(),
                );
            },
            LintError::NotAlternating(n) => {
                push_all(
                    &mut v,
                    chars_of(
                        "Chat structure error: Entries must alternate between 'user:' and 'assistant:' (line ",
                    ).as_slice(),
                );
                push_decimal(&mut v, *n as u64);
                push_all(&mut v, chars_of(").").as_slice());
            },
            LintError::LastNotUser => {
                push_all(
                    &mut v,
                    chars_of("Chat structure error: Last entry must start with 'user:'.").as_slice(),
                );
            },
            LintError::MissingReference(p) => {
                push_all(&mut v, chars_of("File reference error: '").as_slice());
                push_all(&mut v, chars_of(p.as_str()).as_slice());
                push_all(&mut v, chars_of("' not found.").as_slice());
            },
            LintError::Unreadable(e) => {
                push_all(&mut v, chars_of("Failed to read the file: ").as_slice());
                push_all(&mut v, chars_of(e.as_str()).as_slice());
            },
        }
        assert(v@ =~= message_of(self@));
        string_of(v.as_slice())
    }
}

/// A finding on one file.
pub struct Diagnostic {
    pub file_path: String,
    pub error: LintError,
}

/// `ds` reports `issues`, in order, on the file at `file_path`.
pub open spec fn reports(ds: Seq<Diagnostic>, file_path: Seq<char>, issues: Seq<Issue>) -> bool {
    &&& ds.len() == issues.len()
    &&& forall|i: int|
        0 <= i < ds.len() ==> #[trigger] ds[i].error@ == issues[i] && ds[i].file_path@
            == file_path
}

/// Checks the document `content` read from `file_path`; `exists[i]` tells
/// whether the file of the `i`-th entry of [`lint_reference_paths`] exists.
pub fn validate_chat_file(file_path: &str, content: &str, exists: &Vec<bool>) -> (r: Result<
    (),
    Vec<Diagnostic>,
>)
    ensures
        match r {
            Ok(()) => issues_of(content@, exists@).len() == 0,
            Err(ds) => ds@.len() > 0 && reports(ds@, file_path@, issues_of(content@, exists@)),
        },
{
    let mut errors = validate_chat_content(content, exists);
    if errors.len() == 0 {
        return Ok(());
    }
    let ghost iv = issue_views(errors@);
    let mut out: Vec<Diagnostic> = Vec::new();
    let n = errors.len();
    while errors.len() > 0
        invariant
            iv == issues_of(content@, exists@),
            iv.len() == n,
            errors@.len() + out@.len() == n,
            forall|i: int| 0 <= i < errors@.len() ==> #[trigger] errors@[i]@ == iv[out@.len() + i],
            forall|i: int| 0 <= i < out@.len() ==> #[trigger] out@[i].error@ == iv[i],
            forall|i: int| 0 <= i < out@.len() ==> #[trigger] out@[i].file_path@ == file_path@,
        decreases errors.len(),
    {
        let e = errors.remove(0);
        let d = Diagnostic { file_path: file_path.to_string(), error: e };
        let ghost before = out@;
        out.push(d);
        assert(out@ == before.push(d));
    }
    assert forall|i: int| 0 <= i < out@.len() implies #[trigger] out@[i].error@ == iv[i]
        && out@[i].file_path@ == file_path@ by {
        assert(out@[i].error@ == iv[i]);
        assert(out@[i].file_path@ == file_path@);
    }
    assert(out@.len() == iv.len());
    assert(reports(out@, file_path@, iv));
    Err(out)
}


/// The roles of the turns of `content` as the checks see them: one per
/// line of the chat region that, trimmed, starts with `user:` or
/// `assistant:`.
pub open spec fn turn_roles(content: Seq<char>) -> Seq<Role> {
    run_scan(lines_of(chat_region(content))).roles
}

/// `roles` is `user`, `assistant`, `user`, ...
pub open spec fn alternating(roles: Seq<Role>) -> bool {
    forall|i: int|
        0 <= i < roles.len() ==> #[trigger] roles[i] == if i % 2 == 0 {
            Role::User
        } else {
            Role::Assistant
        }
}

spec fn scan_ok(st: Scan) -> bool {
    &&& st.last_user == Some(true) ==> st.roles.len() > 0 && st.roles.last() == Role::User
    &&& st.bad is None ==> {
        &&& !st.started ==> st.roles.len() == 0 && st.expect_user
        &&& st.started ==> st.roles.len() > 0 && alternating(st.roles) && st.expect_user == (
        st.roles.len() % 2 == 0)
    }
}

proof fn lemma_scan_step_ok(st: Scan, line: Seq<char>, k: int)
    requires
        scan_ok(st),
    ensures
        scan_ok(scan_step(st, line, k)),
{
    reveal_strlit("user:");
    reveal_strlit("assistant:");
    let t = trimmed(line);
    let st2 = scan_step(st, line, k);
    if has_prefix(t, "user:"@) {
        assert(t.len() > 0);
        assert(turn_start(t) == Some(Role::User));
    }
    match turn_start(t) {
        Some(x) => {
            assert(has_prefix(t, "user:"@) || has_prefix(t, "assistant:"@));
            assert(t.len() > 0);
            assert(st2.roles == st.roles.push(x));
            if st2.bad is None {
                assert(st.bad is None);
                if st.started {
                    assert forall|i: int| 0 <= i < st2.roles.len() implies #[trigger] st2.roles[i]
                        == if i % 2 == 0 {
                        Role::User
                    } else {
                        Role::Assistant
                    } by {
                        if i < st.roles.len() {
                            assert(st2.roles[i] == st.roles[i]);
                        }
                    }
                } else {
                    assert(st2.roles =~= seq![Role::User]);
                }
            }
        },
        None => {
            assert(st2.roles == st.roles);
        },
    }
}

proof fn lemma_scan_invariant(lines: Seq<Seq<char>>)
    ensures
        scan_ok(run_scan(lines)),
    decreases lines.len(),
{
    if lines.len() > 0 {
        lemma_scan_invariant(lines.drop_last());
        lemma_scan_step_ok(run_scan(lines.drop_last()), lines.last(), lines.len() - 1);
    }
}

/// The turns of a document that passes every check alternate: there is at
/// least one, the first and the last are user turns, and no two
/// neighbouring turns have the same role.
pub proof fn lemma_accepted_turns_alternate(content: Seq<char>, exists: Seq<bool>)
    requires
        issues_of(content, exists).len() == 0,
    ensures
        turn_roles(content).len() > 0,
        turn_roles(content)[0] == Role::User,
        turn_roles(content).last() == Role::User,
        forall|i: int|
            0 <= i < turn_roles(content).len() - 1 ==> #[trigger] turn_roles(content)[i]
                != turn_roles(content)[i + 1],
{
    let missing = missing_keys_of(content, keys());
    if missing.len() > 0 {
        assert(missing.map_values(|k: Seq<char>| Issue::MissingKey(k)).len() > 0);
    }
    let st = run_scan(lines_of(chat_region(content)));
    lemma_scan_invariant(lines_of(chat_region(content)));
    assert(last_occurrence(content, "---"@) >= 0);
    assert(trimmed(chat_region(content)).len() > 0);
    assert(st.first_user == Some(true));
    assert(st.bad is None);
    assert(st.last_user == Some(true));
    assert(st.started) by {
        if !st.started {
            assert(st.roles.len() == 0);
        }
    }
    let roles = st.roles;
    assert(roles[0] == Role::User);
    assert forall|i: int| 0 <= i < roles.len() - 1 implies #[trigger] roles[i] != roles[i + 1] by {
        assert(roles[i] == if i % 2 == 0 {
            Role::User
        } else {
            Role::Assistant
        });
        assert(roles[i + 1] == if (i + 1) % 2 == 0 {
            Role::User
        } else {
            Role::Assistant
        });
    }
}


/// Whether `exists` says the file of the `i`-th reference exists.
pub open spec fn present(exists: Seq<bool>, i: int) -> bool {
    0 <= i < exists.len() && exists[i]
}

/// How many of the first `n` references have no file.
pub open spec fn count_missing(exists: Seq<bool>, n: int) -> int
    decreases n,
{
    if n <= 0 {
        0
    } else {
        count_missing(exists, n - 1) + if present(exists, n - 1) {
            0int
        } else {
            1int
        }
    }
}

proof fn lemma_count_missing_grows(exists: Seq<bool>, a: int, b: int)
    requires
        0 <= a <= b,
    ensures
        count_missing(exists, a) <= count_missing(exists, b),
    decreases b - a,
{
    if a < b {
        lemma_count_missing_grows(exists, a, b - 1);
    }
}

/// The reference check is fail-soft: each reference whose file does not
/// exist is named exactly once, in the order of the references, and the
/// check finds nothing when every file exists.
pub proof fn lemma_every_missing_reference_named(refs: Seq<Seq<char>>, exists: Seq<bool>)
    ensures
        missing_references(refs, exists).len() == count_missing(exists, refs.len() as int),
        forall|i: int|
            0 <= i < refs.len() && !present(exists, i) ==> missing_references(refs, exists)[
                count_missing(exists, i)] == Issue::MissingReference(#[trigger] refs[i]),
        (forall|i: int| 0 <= i < refs.len() ==> #[trigger] present(exists, i))
            ==> missing_references(refs, exists).len() == 0,
    decreases refs.len(),
{
    if refs.len() > 0 {
        let n = refs.len() - 1;
        let front = refs.drop_last();
        lemma_every_missing_reference_named(front, exists);
        let m = missing_references(front, exists);
        let whole = missing_references(refs, exists);
        assert(whole == if present(exists, n) {
            m
        } else {
            m.push(Issue::MissingReference(refs[n]))
        });
        assert forall|i: int|
            0 <= i < refs.len() && !present(exists, i) implies missing_references(refs, exists)[
                count_missing(exists, i)] == Issue::MissingReference(#[trigger] refs[i]) by {
            if i < n {
                assert(front[i] == refs[i]);
                lemma_count_missing_grows(exists, i + 1, n);
                lemma_count_missing_grows(exists, 0, i);
                assert(count_missing(exists, i + 1) == count_missing(exists, i) + 1);
                assert(count_missing(exists, i) < m.len());
                assert(m[count_missing(exists, i)] == Issue::MissingReference(front[i]));
                assert(whole[count_missing(exists, i)] == m[count_missing(exists, i)]);
            } else {
                assert(i == n);
                assert(whole[m.len() as int] == Issue::MissingReference(refs[n]));
            }
        }
        if forall|i: int| 0 <= i < refs.len() ==> #[trigger] present(exists, i) {
            assert forall|i: int| 0 <= i < front.len() implies #[trigger] present(exists, i) by {
                assert(present(exists, i));
            }
            assert(present(exists, n));
        }
    }
}

/// The findings of the reference check alone, on the chat region `region`
/// (what follows the frontmatter): one per reference inside a user turn
/// whose file does not exist, in order. `exists[i]` tells whether the file
/// of the `i`-th entry of [`region_reference_paths`] exists.
pub fn validate_file_references(region: &str, exists: &Vec<bool>) -> (r: Vec<LintError>)
    ensures
        issue_views(r@) == missing_references(run_scan(lines_of(region@)).refs, exists@),
{
    let cs = chars_of(region);
    let ls = lines(cs.as_slice());
    let sc = scan(&ls);
    unresolved_references(&sc.refs, exists)
}

/// The paths of the files that the references inside user turns of the
/// chat region `region` name, in order, for a document at
/// `current_file_path`.
pub fn region_reference_paths(region: &str, current_file_path: &str) -> (r: Vec<String>)
    ensures
        r@.map_values(|p: String| p@) == run_scan(lines_of(region@)).refs.map_values(
            |p: Seq<char>| resolve(p, current_file_path@),
        ),
{
    let cs = chars_of(region);
    let ls = lines(cs.as_slice());
    let refs = scan(&ls).refs;
    let ghost want = run_scan(lines_of(region@)).refs.map_values(
        |p: Seq<char>| resolve(p, current_file_path@),
    );
    let mut out: Vec<String> = Vec::new();
    let mut i: usize = 0;
    while i < refs.len()
        invariant
            i <= refs@.len(),
            want.len() == refs@.len(),
            want == char_views(refs@).map_values(|p: Seq<char>| resolve(p, current_file_path@)),
            out@.len() == i,
            forall|k: int| 0 <= k < i ==> #[trigger] out@[k]@ == want[k],
        decreases refs.len() - i,
    {
        let p = string_of(refs[i].as_slice());
        let resolved = resolve_referenced_path(p.as_str(), current_file_path);
        assert(resolved@ == want[i as int]);
        out.push(resolved);
        i = i + 1;
    }
    assert(out@.map_values(|p: String| p@) =~= want);
    out
}

pub open spec fn diagnostic_views(ds: Seq<Diagnostic>) -> Seq<(Seq<char>, Issue)> {
    ds.map_values(|d: Diagnostic| (d.file_path@, d.error@))
}

pub open spec fn result_diagnostics(r: Result<(), Vec<Diagnostic>>) -> Seq<(Seq<char>, Issue)> {
    match r {
        Ok(()) => Seq::empty(),
        Err(ds) => diagnostic_views(ds@),
    }
}

/// The findings of all `results`, in order.
pub open spec fn all_diagnostics(results: Seq<Result<(), Vec<Diagnostic>>>) -> Seq<
    (Seq<char>, Issue),
>
    decreases results.len(),
{
    if results.len() == 0 {
        Seq::empty()
    } else {
        result_diagnostics(results[0]) + all_diagnostics(results.skip(1))
    }
}

/// The verdict on a directory from the verdicts on its files: every
/// finding, in order; `Ok` when no file has any. One invalid file does not
/// hide the findings on the others.
pub fn combine_results(results: Vec<Result<(), Vec<Diagnostic>>>) -> (r: Result<(), Vec<Diagnostic>>)
    ensures
        match r {
            Ok(()) => all_diagnostics(results@).len() == 0,
            Err(ds) => ds@.len() > 0 && diagnostic_views(ds@) == all_diagnostics(results@),
        },
{
    let ghost all = all_diagnostics(results@);
    let mut rest = results;
    let mut out: Vec<Diagnostic> = Vec::new();
    assert(diagnostic_views(out@) =~= Seq::<(Seq<char>, Issue)>::empty());
    assert(diagnostic_views(out@) + all_diagnostics(rest@) =~= all);
    while rest.len() > 0
        invariant
            diagnostic_views(out@) + all_diagnostics(rest@) == all,
        decreases rest.len(),
    {
        let ghost before = rest@;
        let first = rest.remove(0);
        assert(rest@ =~= before.skip(1));
        match first {
            Ok(()) => {},
            Err(ds) => {
                let ghost o = out@;
                let mut ds = ds;
                let ghost dv = ds@;
                out.append(&mut ds);
                assert(diagnostic_views(out@) =~= diagnostic_views(o) + diagnostic_views(dv));
            },
        }
        assert(diagnostic_views(out@) + all_diagnostics(rest@) =~= all);
    }
    assert(all_diagnostics(rest@) =~= Seq::<(Seq<char>, Issue)>::empty());
    assert(diagnostic_views(out@) =~= all);
    if out.len() == 0 {
        Ok(())
    } else {
        Err(out)
    }
}

/// Validating the same file twice reports the same findings: they depend
/// on its text and on which referenced files exist, nothing else.
pub proof fn lemma_validation_repeatable(
    file_path: Seq<char>,
    content: Seq<char>,
    exists: Seq<bool>,
    first: Seq<Diagnostic>,
    second: Seq<Diagnostic>,
)
    requires
        reports(first, file_path, issues_of(content, exists)),
        reports(second, file_path, issues_of(content, exists)),
    ensures
        first.len() == second.len(),
        forall|i: int|
            0 <= i < first.len() ==> #[trigger] first[i].error@ == second[i].error@
                && first[i].file_path@ == second[i].file_path@,
{
}

} // verus!
