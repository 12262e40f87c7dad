//! The frontmatter block: `key: value` fields between two `---` lines.

use vstd::prelude::*;
use crate::text::{
    copy_of, count_newlines, find_char, first_index, is_space, lemma_first_index_bound, lemma_trimmed_avoids,
    lemma_trimmed_fixed, lemma_trimmed_shape, string_of, trim, trimmed, views, push_all,
};

verus! {

/// Fields as `(key, value)` pairs, keys unique, in order of first appearance.
pub type Entries = Seq<(Seq<char>, Seq<char>)>;

/// `fields` with `key` set to `value`: the first pair with that key is
/// replaced, or the pair is added at the end.
pub open spec fn set_field(fields: Entries, key: Seq<char>, value: Seq<char>) -> Entries
    decreases fields.len(),
{
    if fields.len() == 0 {
        seq![(key, value)]
    } else if fields[0].0 == key {
        fields.update(0, (key, value))
    } else {
        seq![fields[0]] + set_field(fields.subrange(1, fields.len() as int), key, value)
    }
}

/// The value of the first pair with `key`.
pub open spec fn lookup(fields: Entries, key: Seq<char>) -> Option<Seq<char>>
    decreases fields.len(),
{
    if fields.len() == 0 {
        None
    } else if fields[0].0 == key {
        Some(fields[0].1)
    } else {
        lookup(fields.subrange(1, fields.len() as int), key)
    }
}

pub open spec fn delimiter() -> Seq<char> {
    seq!['-', '-', '-']
}

/// A line that trims to exactly `---`.
pub open spec fn is_delimiter(line: Seq<char>) -> bool {
    trimmed(line) == delimiter()
}

/// Index of the first delimiter line at or after `i`, or `lines.len()`.
pub open spec fn next_delimiter(lines: Seq<Seq<char>>, i: int) -> int
    decreases lines.len() - i,
{
    if i < 0 || i >= lines.len() {
        lines.len() as int
    } else if is_delimiter(lines[i]) {
        i
    } else {
        next_delimiter(lines, i + 1)
    }
}

/// Index of the line that opens the frontmatter, or `lines.len()`.
pub open spec fn open_index(lines: Seq<Seq<char>>) -> int {
    next_delimiter(lines, 0)
}

/// Index of the line that closes the frontmatter, or `lines.len()`.
pub open spec fn close_index(lines: Seq<Seq<char>>) -> int {
    if open_index(lines) < lines.len() {
        next_delimiter(lines, open_index(lines) + 1)
    } else {
        lines.len() as int
    }
}

/// Index of the first line after the frontmatter. Without a closing
/// delimiter every line belongs to the frontmatter.
pub open spec fn body_start(lines: Seq<Seq<char>>) -> int {
    if close_index(lines) < lines.len() {
        close_index(lines) + 1
    } else {
        lines.len() as int
    }
}

/// The lines strictly between the two delimiters.
pub open spec fn field_lines(lines: Seq<Seq<char>>) -> Seq<Seq<char>> {
    if open_index(lines) < lines.len() {
        lines.subrange(open_index(lines) + 1, close_index(lines))
    } else {
        Seq::empty()
    }
}

/// The parser's state: the fields saved so far, the key being read and
/// its value so far.
pub type FieldState = (Entries, Seq<char>, Seq<char>);

/// Saves the pending field, unless no key is pending.
pub open spec fn save(st: FieldState) -> Entries {
    if st.1.len() == 0 {
        st.0
    } else {
        set_field(st.0, st.1, trimmed(st.2))
    }
}

/// One line of the frontmatter: a line with a colon starts a new field
/// (key before the first colon, value after it, both trimmed); any other
/// line continues the pending value after a newline.
pub open spec fn step(st: FieldState, line: Seq<char>) -> FieldState {
    let c = first_index(line, ':');
    if c < line.len() {
        (
            save(st),
            trimmed(line.subrange(0, c as int)),
            trimmed(line.subrange(c + 1int, line.len() as int)),
        )
    } else {
        (st.0, st.1, st.2 + seq!['\n'] + trimmed(line))
    }
}

pub open spec fn run(lines: Seq<Seq<char>>) -> FieldState
    decreases lines.len(),
{
    if lines.len() == 0 {
        (Seq::empty(), Seq::empty(), Seq::empty())
    } else {
        step(run(lines.drop_last()), lines.last())
    }
}

/// The fields that the frontmatter of `lines` declares.
pub open spec fn fields_of(lines: Seq<Seq<char>>) -> Entries {
    save(run(field_lines(lines)))
}

/// One frontmatter field.
pub struct Field {
    pub key: String,
    pub value: String,
}

/// The fields of a frontmatter block, keys unique, in order of first
/// appearance.
pub struct FrontmatterFields {
    fields: Vec<Field>,
}

impl View for FrontmatterFields {
    type V = Entries;

    closed spec fn view(&self) -> Entries {
        self.fields@.map_values(|f: Field| (f.key@, f.value@))
    }
}

pub proof fn lemma_next_delimiter_bounds(lines: Seq<Seq<char>>, i: int)
    requires
        0 <= i,
    ensures
        0 <= next_delimiter(lines, i) <= lines.len(),
    decreases lines.len() - i,
{
    if i < lines.len() && !is_delimiter(lines[i]) {
        lemma_next_delimiter_bounds(lines, i + 1);
    }
}

pub proof fn lemma_body_start_bounds(lines: Seq<Seq<char>>)
    ensures
        0 <= body_start(lines) <= lines.len(),
{
    lemma_next_delimiter_bounds(lines, 0);
    if open_index(lines) < lines.len() {
        lemma_next_delimiter_bounds(lines, open_index(lines) + 1);
    }
}

pub proof fn lemma_set_field_at(fields: Entries, key: Seq<char>, value: Seq<char>, i: int)
    requires
        0 <= i < fields.len(),
        fields[i].0 == key,
        forall|j: int| 0 <= j < i ==> fields[j].0 != key,
    ensures
        set_field(fields, key, value) == fields.update(i, (key, value)),
    decreases i,
{
    if i > 0 {
        let rest = fields.subrange(1, fields.len() as int);
        lemma_set_field_at(rest, key, value, i - 1);
        assert(seq![fields[0]] + rest.update(i - 1, (key, value)) =~= fields.update(
            i,
            (key, value),
        ));
    }
}

pub proof fn lemma_set_field_new(fields: Entries, key: Seq<char>, value: Seq<char>)
    requires
        forall|j: int| 0 <= j < fields.len() ==> fields[j].0 != key,
    ensures
        set_field(fields, key, value) == fields.push((key, value)),
    decreases fields.len(),
{
    if fields.len() > 0 {
        let rest = fields.subrange(1, fields.len() as int);
        lemma_set_field_new(rest, key, value);
        assert(seq![fields[0]] + rest.push((key, value)) =~= fields.push((key, value)));
    }
}

pub proof fn lemma_lookup_at(fields: Entries, key: Seq<char>, i: int)
    requires
        0 <= i <= fields.len(),
        forall|j: int| 0 <= j < i ==> fields[j].0 != key,
        i == fields.len() || fields[i].0 == key,
    ensures
        lookup(fields, key) == if i < fields.len() {
            Some(fields[i].1)
        } else {
            None
        },
    decreases i,
{
    if i > 0 {
        lemma_lookup_at(fields.subrange(1, fields.len() as int), key, i - 1);
    }
}

impl FrontmatterFields {
    pub fn new() -> (r: FrontmatterFields)
        ensures
            r@ == Entries::empty(),
    {
        let r = FrontmatterFields { fields: Vec::new() };
        assert(r@ =~= Entries::empty());
        r
    }

    pub fn len(&self) -> (r: usize)
        ensures
            r == self@.len(),
    {
        self.fields.len()
    }

    /// The key and value of the `i`-th field.
    pub fn entry(&self, i: usize) -> (r: (&String, &String))
        requires
            i < self@.len(),
        ensures
            (r.0@, r.1@) == self@[i as int],
    {
        (&self.fields[i].key, &self.fields[i].value)
    }

    /// The value of `key`, if the block declares it.
    pub fn get(&self, key: &str) -> (r: Option<String>)
        ensures
            r matches Some(v) ==> lookup(self@, key@) == Some(v@),
            r is None ==> lookup(self@, key@) is None,
    {
        let k = key.to_string();
        let i = self.position(&k);
        proof {
            lemma_lookup_at(self@, k@, i as int);
        }
        if i < self.fields.len() {
            Some(self.fields[i].value.clone())
        } else {
            None
        }
    }

    /// Index of the first field with `key`, or the number of fields.
    fn position(&self, key: &String) -> (r: usize)
        ensures
            r <= self@.len(),
            forall|j: int| 0 <= j < r ==> self@[j].0 != key@,
            r < self@.len() ==> self@[r as int].0 == key@,
    {
        let mut i: usize = 0;
        while i < self.fields.len()
            invariant
                i <= self@.len(),
                forall|j: int| 0 <= j < i ==> self@[j].0 != key@,
            decreases self.fields.len() - i,
        {
            if self.fields[i].key == *key {
                return i;
            }
            i = i + 1;
        }
        i
    }

    /// Sets `key` to `value`.
    pub fn set(&mut self, key: String, value: String)
        ensures
            final(self)@ == set_field(old(self)@, key@, value@),
    {
        let i = self.position(&key);
        proof {
            if i < old(self)@.len() {
                lemma_set_field_at(old(self)@, key@, value@, i as int);
            } else {
                lemma_set_field_new(old(self)@, key@, value@);
            }
        }
        let ghost kv = key@;
        let ghost vv = value@;
        if i < self.fields.len() {
            self.fields.set(i, Field { key, value });
            assert(self@ =~= old(self)@.update(i as int, (kv, vv)));
        } else {
            self.fields.push(Field { key, value });
            assert(self@ =~= old(self)@.push((kv, vv)));
        }
    }
}

pub fn is_delimiter_line(line: &[char]) -> (r: bool)
    ensures
        r == is_delimiter(line@),
{
    let t = trim(line);
    let r = t.len() == 3 && t[0] == '-' && t[1] == '-' && t[2] == '-';
    assert(r ==> t@ =~= delimiter());
    r
}

/// Saves the pending field of the parser into `fields`.
fn save_pending(fields: &mut FrontmatterFields, key: &Vec<char>, value: &Vec<char>)
    ensures
        final(fields)@ == save((old(fields)@, key@, value@)),
{
    if key.len() > 0 {
        let k = string_of(key.as_slice());
        let v = string_of(trim(value.as_slice()));
        fields.set(k, v);
    }
}

/// Reads the frontmatter of `lines`: the fields it declares, and the index
/// of the first line after it.
pub fn parse_frontmatter(lines: &Vec<&[char]>) -> (r: (FrontmatterFields, usize))
    ensures
        r.0@ == fields_of(views(lines@)),
        r.1 == body_start(views(lines@)),
{
    let ghost ls = views(lines@);
    let n = lines.len();
    let mut i: usize = 0;
    while i < n && !is_delimiter_line(lines[i])
        invariant
            i <= n,
            n == ls.len(),
            ls == views(lines@),
            next_delimiter(ls, i as int) == open_index(ls),
        decreases n - i,
    {
        i = i + 1;
    }
    let mut fields = FrontmatterFields::new();
    if i == n {
        assert(field_lines(ls) =~= Seq::<Seq<char>>::empty());
        return (fields, n);
    }
    let open = i;
    i = i + 1;
    let mut key: Vec<char> = Vec::new();
    let mut value: Vec<char> = Vec::new();
    assert(ls.subrange(open + 1, i as int) =~= Seq::<Seq<char>>::empty());
    while i < n && !is_delimiter_line(lines[i])
        invariant
            open < i <= n,
            n == ls.len(),
            ls == views(lines@),
            open == open_index(ls),
            next_delimiter(ls, i as int) == close_index(ls),
            (fields@, key@, value@) == run(ls.subrange(open + 1, i as int)),
        decreases n - i,
    {
        let line = lines[i];
        assert(ls.subrange(open + 1, i + 1).drop_last() =~= ls.subrange(open + 1, i as int));
        assert(line@ == ls[i as int]);
        let c = find_char(line, ':');
        if c < line.len() {
            save_pending(&mut fields, &key, &value);
            key = copy_of(trim(&line[0..c]));
            value = copy_of(trim(&line[c + 1..line.len()]));
        } else {
            value.push('\n');
            push_all(&mut value, trim(line));
        }
        i = i + 1;
    }
    save_pending(&mut fields, &key, &value);
    let start = if i < n {
        i + 1
    } else {
        n
    };
    (fields, start)
}


/// The value that a field with first value `first` has after the
/// continuation lines `rest`, before the final trim.
pub open spec fn continued(first: Seq<char>, rest: Seq<Seq<char>>) -> Seq<char>
    decreases rest.len(),
{
    if rest.len() == 0 {
        first
    } else {
        continued(first, rest.drop_last()) + seq!['\n'] + trimmed(rest.last())
    }
}

pub open spec fn has_colon(line: Seq<char>) -> bool {
    first_index(line, ':') < line.len()
}

proof fn lemma_run_continued(pre: Seq<Seq<char>>, key_line: Seq<char>, rest: Seq<Seq<char>>)
    requires
        has_colon(key_line),
        forall|i: int| 0 <= i < rest.len() ==> !has_colon(#[trigger] rest[i]),
    ensures
        run(pre + seq![key_line] + rest) == (
            save(run(pre)),
            trimmed(key_line.subrange(0, first_index(key_line, ':') as int)),
            continued(
                trimmed(key_line.subrange(first_index(key_line, ':') + 1int, key_line.len() as int)),
                rest,
            ),
        ),
    decreases rest.len(),
{
    let ls = pre + seq![key_line] + rest;
    if rest.len() == 0 {
        assert(ls.drop_last() =~= pre);
    } else {
        lemma_run_continued(pre, key_line, rest.drop_last());
        assert(ls.drop_last() =~= pre + seq![key_line] + rest.drop_last());
        assert(!has_colon(rest.last()));
    }
}

pub proof fn lemma_lookup_set(fields: Entries, key: Seq<char>, value: Seq<char>, k: Seq<char>)
    ensures
        lookup(set_field(fields, key, value), k) == if key == k {
            Some(value)
        } else {
            lookup(fields, k)
        },
    decreases fields.len(),
{
    let s = set_field(fields, key, value);
    if fields.len() == 0 {
        assert(s == seq![(key, value)]);
        assert(s.subrange(1, s.len() as int) =~= Entries::empty());
        assert(lookup(Entries::empty(), k) is None);
    } else if fields[0].0 != key {
        let rest = fields.subrange(1, fields.len() as int);
        lemma_lookup_set(rest, key, value, k);
        assert(s[0] == fields[0]);
        assert(s.subrange(1, s.len() as int) =~= set_field(rest, key, value));
    } else {
        assert(s[0] == (key, value));
        assert(s.subrange(1, s.len() as int) =~= fields.subrange(1, fields.len() as int));
    }
}

/// The key that a line with a colon starts.
pub open spec fn key_of(line: Seq<char>) -> Seq<char> {
    trimmed(line.subrange(0, first_index(line, ':') as int))
}

proof fn lemma_run_after(
    base: Seq<Seq<char>>,
    post: Seq<Seq<char>>,
    key: Seq<char>,
    val: Seq<char>,
    m: int,
)
    requires
        0 <= m <= post.len(),
        lookup(save(run(base)), key) == Some(val),
        post.len() == 0 || has_colon(post[0]),
        forall|i: int| 0 <= i < post.len() && has_colon(#[trigger] post[i]) ==> key_of(post[i]) != key,
    ensures
        m == 0 ==> lookup(save(run(base + post.take(m))), key) == Some(val),
        m > 0 ==> run(base + post.take(m)).1 != key && lookup(run(base + post.take(m)).0, key)
            == Some(val),
    decreases m,
{
    if m == 0 {
        assert(base + post.take(0) =~= base);
    } else {
        lemma_run_after(base, post, key, val, m - 1);
        let ls = base + post.take(m);
        assert(ls.drop_last() =~= base + post.take(m - 1));
        assert(ls.last() == post[m - 1]);
        let st = run(base + post.take(m - 1));
        if m > 1 && has_colon(post[m - 1]) && st.1.len() > 0 {
            lemma_lookup_set(st.0, st.1, trimmed(st.2), key);
        }
    }
}

proof fn lemma_continued_shape(first: Seq<char>, rest: Seq<Seq<char>>)
    requires
        first.len() > 0,
        !is_space(first[0]),
        forall|j: int| 0 <= j < first.len() ==> first[j] != '\n',
        forall|i: int, j: int|
            0 <= i < rest.len() && 0 <= j < rest[i].len() ==> #[trigger] rest[i][j] != '\n',
    ensures
        continued(first, rest).len() > 0,
        continued(first, rest)[0] == first[0],
        count_newlines(continued(first, rest)) == count_newlines(first) + rest.len(),
    decreases rest.len(),
{
    if rest.len() > 0 {
        let prev = continued(first, rest.drop_last());
        let last = rest.last();
        lemma_continued_shape(first, rest.drop_last());
        assert forall|j: int| 0 <= j < last.len() implies last[j] != '\n' by {
            assert(rest[rest.len() - 1][j] != '\n');
        }
        lemma_trimmed_avoids(last, '\n');
        lemma_count_newlines_free(trimmed(last));
        lemma_count_newlines_concat(prev + seq!['\n'], trimmed(last));
        lemma_count_newlines_concat(prev, seq!['\n']);
        assert(count_newlines(seq!['\n']) == 1) by {
            assert(seq!['\n'].drop_last() =~= Seq::<char>::empty());
            assert(count_newlines(Seq::<char>::empty()) == 0);
            assert(seq!['\n'].last() == '\n');
        }
    }
}

pub proof fn lemma_count_newlines_free(s: Seq<char>)
    requires
        forall|j: int| 0 <= j < s.len() ==> s[j] != '\n',
    ensures
        count_newlines(s) == 0,
    decreases s.len(),
{
    if s.len() > 0 {
        lemma_count_newlines_free(s.drop_last());
    }
}

pub proof fn lemma_count_newlines_concat(a: Seq<char>, b: Seq<char>)
    ensures
        count_newlines(a + b) == count_newlines(a) + count_newlines(b),
    decreases b.len(),
{
    if b.len() > 0 {
        lemma_count_newlines_concat(a, b.drop_last());
        assert((a + b).drop_last() =~= a + b.drop_last());
    } else {
        assert(a + b =~= a);
    }
}

/// A field whose value goes on over continuation lines (lines without a
/// colon) keeps one value, with a line break for each continuation line:
/// a value over `n` lines holds `n - 1` line breaks. The field may stand
/// anywhere in the block, after and before other fields, as long as no
/// later line sets the same key. The first part of the value and the last
/// continuation line must not be blank, for trimming would drop them.
pub proof fn lemma_continuation_lines(
    lines: Seq<Seq<char>>,
    pre: Seq<Seq<char>>,
    key_line: Seq<char>,
    rest: Seq<Seq<char>>,
    post: Seq<Seq<char>>,
)
    requires
        field_lines(lines) == pre + seq![key_line] + rest + post,
        has_colon(key_line),
        key_of(key_line).len() > 0,
        trimmed(key_line.subrange(first_index(key_line, ':') + 1int, key_line.len() as int)).len()
            > 0,
        rest.len() > 0 ==> trimmed(rest.last()).len() > 0,
        forall|j: int| 0 <= j < key_line.len() ==> key_line[j] != '\n',
        forall|i: int, j: int|
            0 <= i < rest.len() && 0 <= j < rest[i].len() ==> #[trigger] rest[i][j] != '\n',
        forall|i: int| 0 <= i < rest.len() ==> !has_colon(#[trigger] rest[i]),
        post.len() == 0 || has_colon(post[0]),
        forall|i: int|
            0 <= i < post.len() && has_colon(#[trigger] post[i]) ==> key_of(post[i]) != key_of(
                key_line,
            ),
    ensures
        ({
            let c = first_index(key_line, ':') as int;
            let v = trimmed(key_line.subrange(c + 1, key_line.len() as int));
            &&& lookup(fields_of(lines), key_of(key_line)) == Some(continued(v, rest))
            &&& count_newlines(continued(v, rest)) == rest.len()
        }),
{
    let c = first_index(key_line, ':') as int;
    lemma_first_index_bound(key_line, ':');
    let key = key_of(key_line);
    let after = key_line.subrange(c + 1, key_line.len() as int);
    let v = trimmed(after);
    let base = pre + seq![key_line] + rest;
    lemma_run_continued(pre, key_line, rest);
    // shape of the value
    assert forall|j: int| 0 <= j < after.len() implies after[j] != '\n' by {
        assert(after[j] == key_line[c + 1 + j]);
    }
    lemma_trimmed_avoids(after, '\n');
    lemma_trimmed_shape(after);
    lemma_continued_shape(v, rest);
    lemma_count_newlines_free(v);
    let full = continued(v, rest);
    if rest.len() == 0 {
        lemma_trimmed_fixed(v);
    } else {
        let last = rest.last();
        lemma_trimmed_shape(last);
        assert(full == continued(v, rest.drop_last()) + seq!['\n'] + trimmed(last));
        assert(full[full.len() - 1] == trimmed(last)[trimmed(last).len() - 1]);
        lemma_trimmed_fixed(full);
    }
    lemma_lookup_set(save(run(pre)), key, trimmed(full), key);
    lemma_run_after(base, post, key, full, post.len() as int);
    assert(post.take(post.len() as int) =~= post);
    assert(base + post =~= field_lines(lines));
    let st = run(base + post);
    if post.len() > 0 && st.1.len() > 0 {
        lemma_lookup_set(st.0, st.1, trimmed(st.2), key);
    }
}

pub proof fn lemma_next_delimiter_skip(lines: Seq<Seq<char>>, i: int, d: int)
    requires
        0 <= i <= d < lines.len(),
        is_delimiter(lines[d]),
        forall|k: int| i <= k < d ==> !is_delimiter(#[trigger] lines[k]),
    ensures
        next_delimiter(lines, i) == d,
    decreases d - i,
{
    if i < d {
        lemma_next_delimiter_skip(lines, i + 1, d);
    }
}

} // verus!
