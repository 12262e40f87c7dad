//! The frontmatter template that new documents start from. It is a list of
//! keys; a document's block is `---`, one `key: value` line per key, `---`.

use vstd::prelude::*;
use crate::frontmatter::{
    close_index, delimiter, field_lines, fields_of, is_delimiter, lemma_lookup_at,
    lemma_next_delimiter_skip,
    lemma_set_field_new, lookup, next_delimiter, open_index, run, save, Entries,
};
use crate::text::{
    chars_of, first_index, is_space, lemma_first_index, lemma_trim_end_shape, lemma_trimmed_fixed,
    lines_of, push_all, string_of, strip_cr, trim_end, trim_start, trimmed,
};

verus! {

/// The keys of the template, in order.
pub open spec fn keys() -> Seq<Seq<char>> {
    seq![
        "title"@,
        "system"@,
        "model"@,
        "api_endpoint"@,
        "created_at"@,
        "updated_at"@,
        "tags"@,
        "summary"@,
    ]
}

/// The line of the block that holds `key` and `value`.
pub open spec fn field_line(key: Seq<char>, value: Seq<char>) -> Seq<char> {
    key + seq![':', ' '] + value
}

/// The field lines of the block, each ended by a newline.
pub open spec fn field_text(ks: Seq<Seq<char>>, vs: Seq<Seq<char>>) -> Seq<char>
    decreases ks.len(),
{
    if ks.len() == 0 || vs.len() == 0 {
        Seq::empty()
    } else {
        field_line(ks[0], vs[0]) + seq!['\n'] + field_text(ks.skip(1), vs.skip(1))
    }
}

/// The frontmatter block with `vs[i]` as the value of `ks[i]`.
pub open spec fn render(ks: Seq<Seq<char>>, vs: Seq<Seq<char>>) -> Seq<char> {
    delimiter() + seq!['\n'] + field_text(ks, vs) + delimiter()
}

/// The keys of the template, in order.
pub fn template_keys() -> (r: Vec<String>)
    ensures
        r@.map_values(|k: String| k@) == keys(),
{
    let r = vec![
        "title".to_string(),
        "system".to_string(),
        "model".to_string(),
        "api_endpoint".to_string(),
        "created_at".to_string(),
        "updated_at".to_string(),
        "tags".to_string(),
        "summary".to_string(),
    ];
    assert(r@.map_values(|k: String| k@) =~= keys());
    r
}

proof fn lemma_field_text_push(ks: Seq<Seq<char>>, vs: Seq<Seq<char>>, k: Seq<char>, v: Seq<char>)
    requires
        ks.len() == vs.len(),
    ensures
        field_text(ks.push(k), vs.push(v)) == field_text(ks, vs) + field_line(k, v) + seq!['\n'],
    decreases ks.len(),
{
    if ks.len() == 0 {
        assert(ks.push(k).skip(1) =~= Seq::<Seq<char>>::empty());
        assert(vs.push(v).skip(1) =~= Seq::<Seq<char>>::empty());
        assert(field_text(Seq::<Seq<char>>::empty(), Seq::<Seq<char>>::empty()) =~= Seq::<
            char,
        >::empty());
        assert(ks.push(k)[0] == k);
        assert(vs.push(v)[0] == v);
        assert(field_text(ks.push(k), vs.push(v)) =~= field_line(k, v) + seq!['\n']);
        assert(field_text(ks, vs) =~= Seq::<char>::empty());
    } else {
        lemma_field_text_push(ks.skip(1), vs.skip(1), k, v);
        assert(ks.push(k).skip(1) =~= ks.skip(1).push(k));
        assert(vs.push(v).skip(1) =~= vs.skip(1).push(v));
        assert(field_text(ks.push(k), vs.push(v)) =~= field_text(ks, vs) + field_line(k, v) + seq![
            '\n',
        ]);
    }
}

/// The frontmatter block with `values[i]` as the value of the `i`-th
/// template key.
pub fn render_frontmatter(values: &Vec<String>) -> (r: String)
    requires
        values@.len() == keys().len(),
    ensures
        r@ == render(keys(), values@.map_values(|v: String| v@)),
{
    let ks = template_keys();
    let ghost kv = keys();
    let ghost vv = values@.map_values(|v: String| v@);
    let mut out: Vec<char> = Vec::new();
    push_all(&mut out, chars_of("---\n").as_slice());
    proof {
        reveal_strlit("---\n");
        reveal_strlit("---");
        assert(out@ =~= delimiter() + seq!['\n'] + field_text(kv.subrange(0, 0), vv.subrange(0, 0)));
    }
    let mut i: usize = 0;
    while i < ks.len()
        invariant
            i <= ks@.len(),
            ks@.len() == values@.len(),
            ks@.map_values(|k: String| k@) == kv,
            kv.len() == ks@.len(),
            vv == values@.map_values(|v: String| v@),
            out@ == delimiter() + seq!['\n'] + field_text(kv.subrange(0, i as int), vv.subrange(0, i as int)),
        decreases ks.len() - i,
    {
        proof {
            lemma_field_text_push(kv.subrange(0, i as int), vv.subrange(0, i as int), kv[i as int], vv[i as int]);
            assert(kv.subrange(0, i as int).push(kv[i as int]) =~= kv.subrange(0, i + 1));
            assert(vv.subrange(0, i as int).push(vv[i as int]) =~= vv.subrange(0, i + 1));
        }
        push_all(&mut out, chars_of(ks[i].as_str()).as_slice());
        out.push(':');
        out.push(' ');
        push_all(&mut out, chars_of(values[i].as_str()).as_slice());
        out.push('\n');
        assert(out@ =~= delimiter() + seq!['\n'] + field_text(kv.subrange(0, i + 1), vv.subrange(0, i + 1)));
        i = i + 1;
    }
    push_all(&mut out, chars_of("---").as_slice());
    proof {
        reveal_strlit("---");
        assert(kv.subrange(0, i as int) =~= kv);
        assert(vv.subrange(0, i as int) =~= vv);
        assert(out@ =~= render(kv, vv));
    }
    string_of(out.as_slice())
}


/// A key that a block line can hold: not blank at either end, not
/// starting with `-`, without colon or newline.
pub open spec fn good_key(k: Seq<char>) -> bool {
    &&& k.len() > 0
    &&& !is_space(k[0])
    &&& k[0] != '-'
    &&& !is_space(k[k.len() - 1])
    &&& forall|j: int| 0 <= j < k.len() ==> k[j] != ':' && k[j] != '\n'
}

/// A value that survives trimming and stays on its line.
pub open spec fn good_value(v: Seq<char>) -> bool {
    &&& trimmed(v) == v
    &&& forall|j: int| 0 <= j < v.len() ==> v[j] != '\n'
}

pub open spec fn pairs(ks: Seq<Seq<char>>, vs: Seq<Seq<char>>) -> Entries {
    Seq::new(ks.len(), |i: int| (ks[i], vs[i]))
}

pub open spec fn block_lines(ks: Seq<Seq<char>>, vs: Seq<Seq<char>>) -> Seq<Seq<char>> {
    Seq::new(ks.len(), |i: int| field_line(ks[i], vs[i]))
}

proof fn lemma_field_line_facts(k: Seq<char>, v: Seq<char>)
    requires
        good_key(k),
        good_value(v),
    ensures
        forall|j: int| 0 <= j < field_line(k, v).len() ==> field_line(k, v)[j] != '\n',
        strip_cr(field_line(k, v)) == field_line(k, v),
        !is_delimiter(field_line(k, v)),
        first_index(field_line(k, v), ':') == k.len(),
        trimmed(field_line(k, v).subrange(0, k.len() as int)) == k,
        trimmed(field_line(k, v).subrange(k.len() + 1int, field_line(k, v).len() as int)) == v,
{
    let l = field_line(k, v);
    crate::text::lemma_trimmed_shape(v);
    assert(l[k.len() as int] == ':');
    lemma_first_index(l, ':', k.len() as int);
    assert(l.subrange(0, k.len() as int) =~= k);
    lemma_trimmed_fixed(k);
    let after = l.subrange(k.len() + 1int, l.len() as int);
    assert(after =~= seq![' '] + v);
    assert(after.subrange(1, after.len() as int) =~= v);
    assert(trim_start(v) == v);
    assert(trim_start(after) == v);
    assert(trimmed(v) == trim_end(v));
    // not a delimiter: its trim starts with the key's first character
    assert(trim_start(l) == l);
    lemma_trim_end_shape(l);
    if trimmed(l).len() > 0 {
        assert(trimmed(l)[0] == l[0]);
    }
    assert(trimmed(l) != delimiter());
    if v.len() > 0 {
        assert(l[l.len() - 1] == v[v.len() - 1]);
    }
}

proof fn lemma_block_lines(ks: Seq<Seq<char>>, vs: Seq<Seq<char>>)
    requires
        ks.len() == vs.len(),
        forall|i: int| 0 <= i < ks.len() ==> good_key(#[trigger] ks[i]),
        forall|i: int| 0 <= i < vs.len() ==> good_value(#[trigger] vs[i]),
    ensures
        lines_of(field_text(ks, vs) + delimiter()) == block_lines(ks, vs) + seq![delimiter()],
    decreases ks.len(),
{
    if ks.len() == 0 {
        assert(field_text(ks, vs) + delimiter() =~= delimiter());
        crate::text::lemma_lines_single(delimiter());
        assert(block_lines(ks, vs) + seq![delimiter()] =~= seq![delimiter()]);
    } else {
        let (k, v) = (ks[0], vs[0]);
        lemma_block_lines(ks.skip(1), vs.skip(1));
        lemma_field_line_facts(k, v);
        let rest = field_text(ks.skip(1), vs.skip(1)) + delimiter();
        assert(field_text(ks, vs) + delimiter() =~= field_line(k, v) + seq!['\n'] + rest);
        crate::text::lemma_lines_cons(field_line(k, v), rest);
        assert(block_lines(ks, vs) + seq![delimiter()] =~= seq![field_line(k, v)] + (block_lines(
            ks.skip(1),
            vs.skip(1),
        ) + seq![delimiter()]));
    }
}

pub open spec fn distinct(ks: Seq<Seq<char>>) -> bool {
    forall|i: int, j: int| 0 <= i < ks.len() && 0 <= j < ks.len() && i != j ==> ks[i] != ks[j]
}

proof fn lemma_run_block(ks: Seq<Seq<char>>, vs: Seq<Seq<char>>, i: int)
    requires
        ks.len() == vs.len(),
        1 <= i <= ks.len(),
        distinct(ks),
        forall|m: int| 0 <= m < ks.len() ==> good_key(#[trigger] ks[m]),
        forall|m: int| 0 <= m < vs.len() ==> good_value(#[trigger] vs[m]),
    ensures
        run(block_lines(ks, vs).take(i)) == (pairs(ks, vs).take(i - 1), ks[i - 1], vs[i - 1]),
    decreases i,
{
    let ls = block_lines(ks, vs);
    lemma_field_line_facts(ks[i - 1], vs[i - 1]);
    assert(ls.take(i).drop_last() =~= ls.take(i - 1));
    assert(ls.take(i).last() == field_line(ks[i - 1], vs[i - 1]));
    if i == 1 {
        assert(ls.take(0) =~= Seq::<Seq<char>>::empty());
        assert(save(run(ls.take(0))) =~= Entries::empty());
        assert(pairs(ks, vs).take(0) =~= Entries::empty());
    } else {
        lemma_run_block(ks, vs, i - 1);
        let prev = pairs(ks, vs).take(i - 2);
        assert forall|j: int| 0 <= j < prev.len() implies prev[j].0 != ks[i - 2] by {
            assert(prev[j].0 == ks[j]);
        }
        lemma_set_field_new(prev, ks[i - 2], vs[i - 2]);
        assert(prev.push((ks[i - 2], vs[i - 2])) =~= pairs(ks, vs).take(i - 1));
    }
}

/// Rendering values into the template, parsing the block back and
/// rendering the values found there gives the block again, and the values
/// found are the values rendered. The keys must be distinct and fit on a
/// line; the values must be trimmed and without newline.
pub proof fn lemma_render_parse_round_trip(ks: Seq<Seq<char>>, vs: Seq<Seq<char>>)
    requires
        ks.len() == vs.len(),
        ks.len() > 0,
        distinct(ks),
        forall|i: int| 0 <= i < ks.len() ==> good_key(#[trigger] ks[i]),
        forall|i: int| 0 <= i < vs.len() ==> good_value(#[trigger] vs[i]),
    ensures
        fields_of(lines_of(render(ks, vs))) == pairs(ks, vs),
        forall|i: int|
            0 <= i < ks.len() ==> lookup(fields_of(lines_of(render(ks, vs))), #[trigger] ks[i])
                == Some(vs[i]),
        render(
            ks,
            Seq::new(ks.len(), |i: int| lookup(fields_of(lines_of(render(ks, vs))), ks[i])->0),
        ) == render(ks, vs),
{
    let text = render(ks, vs);
    let ls = block_lines(ks, vs);
    let n = ks.len() as int;
    lemma_block_lines(ks, vs);
    assert(forall|j: int| 0 <= j < delimiter().len() ==> delimiter()[j] != '\n');
    assert(text =~= delimiter() + seq!['\n'] + (field_text(ks, vs) + delimiter()));
    crate::text::lemma_lines_cons(delimiter(), field_text(ks, vs) + delimiter());
    assert(strip_cr(delimiter()) == delimiter());
    let lines = lines_of(text);
    assert(lines =~= seq![delimiter()] + ls + seq![delimiter()]);
    assert(is_delimiter(delimiter()));
    assert(open_index(lines) == 0);
    assert forall|i: int| 1 <= i < lines.len() - 1 implies !is_delimiter(#[trigger] lines[i]) by {
        assert(lines[i] == ls[i - 1]);
        lemma_field_line_facts(ks[i - 1], vs[i - 1]);
    }
    assert forall|i: int| 1 <= i <= lines.len() - 1 implies next_delimiter(lines, i) == lines.len()
        - 1 by {
        lemma_next_delimiter_skip(lines, i, lines.len() - 1);
    }
    assert(close_index(lines) == lines.len() - 1);
    assert(field_lines(lines) =~= ls);
    lemma_run_block(ks, vs, n);
    assert(ls.take(n) =~= ls);
    let fs = fields_of(lines);
    let prev = pairs(ks, vs).take(n - 1);
    assert forall|j: int| 0 <= j < prev.len() implies prev[j].0 != ks[n - 1] by {
        assert(prev[j].0 == ks[j]);
    }
    lemma_set_field_new(prev, ks[n - 1], vs[n - 1]);
    assert(trimmed(vs[n - 1]) == vs[n - 1]);
    assert(prev.push((ks[n - 1], vs[n - 1])) =~= pairs(ks, vs));
    assert(fs == pairs(ks, vs));
    assert forall|i: int| 0 <= i < ks.len() implies lookup(fs, #[trigger] ks[i]) == Some(vs[i]) by {
        assert forall|j: int| 0 <= j < i implies fs[j].0 != ks[i] by {
            assert(fs[j].0 == ks[j]);
        }
        lemma_lookup_at(fs, ks[i], i);
    }
    let found = Seq::new(ks.len(), |i: int| lookup(fs, ks[i])->0);
    assert(found =~= vs);
}

/// The template's keys are distinct and each fits on a block line.
pub proof fn lemma_template_keys_good()
    ensures
        distinct(keys()),
        forall|i: int| 0 <= i < keys().len() ==> good_key(#[trigger] keys()[i]),
{
    reveal_strlit("title");
    reveal_strlit("system");
    reveal_strlit("model");
    reveal_strlit("api_endpoint");
    reveal_strlit("created_at");
    reveal_strlit("updated_at");
    reveal_strlit("tags");
    reveal_strlit("summary");
    let ks = keys();
    assert(ks[0] =~= seq!['t', 'i', 't', 'l', 'e']);
    assert(ks[1] =~= seq!['s', 'y', 's', 't', 'e', 'm']);
    assert(ks[2] =~= seq!['m', 'o', 'd', 'e', 'l']);
    assert(ks[3] =~= seq!['a', 'p', 'i', '_', 'e', 'n', 'd', 'p', 'o', 'i', 'n', 't']);
    assert(ks[4] =~= seq!['c', 'r', 'e', 'a', 't', 'e', 'd', '_', 'a', 't']);
    assert(ks[5] =~= seq!['u', 'p', 'd', 'a', 't', 'e', 'd', '_', 'a', 't']);
    assert(ks[6] =~= seq!['t', 'a', 'g', 's']);
    assert(ks[7] =~= seq!['s', 'u', 'm', 'm', 'a', 'r', 'y']);
    assert forall|i: int, j: int| 0 <= i < ks.len() && 0 <= j < ks.len() && i != j implies ks[i]
        != ks[j] by {
        if ks[i] == ks[j] {
            assert(ks[i].len() == ks[j].len());
            assert(ks[i][0] == ks[j][0]);
            assert(ks[i][1] == ks[j][1]);
        }
    }
}

/// A block rendered from the template parses back to the values it was
/// rendered from, and rendering those values again gives the same block.
pub proof fn lemma_template_round_trip(vs: Seq<Seq<char>>)
    requires
        vs.len() == keys().len(),
        forall|i: int| 0 <= i < vs.len() ==> good_value(#[trigger] vs[i]),
    ensures
        fields_of(lines_of(render(keys(), vs))) == pairs(keys(), vs),
        render(
            keys(),
            Seq::new(
                keys().len(),
                |i: int| lookup(fields_of(lines_of(render(keys(), vs))), keys()[i])->0,
            ),
        ) == render(keys(), vs),
{
    lemma_template_keys_good();
    lemma_render_parse_round_trip(keys(), vs);
}

} // verus!
