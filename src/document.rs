//! A whole chat document: its frontmatter fields and its turns.

use vstd::prelude::*;
use crate::frontmatter::{body_start, fields_of, lookup, parse_frontmatter, Entries, FrontmatterFields};
use crate::messages::{
    messages_of, parse_messages, read_views, references, references_of, turn_views, Role, Turn,
};
use crate::paths::{resolve, resolve_referenced_path};
use crate::text::{chars_of, lines, lines_of, string_of, views};

verus! {

/// The lines of the message region: those after the frontmatter.
pub open spec fn body_lines(ls: Seq<Seq<char>>) -> Seq<Seq<char>> {
    ls.subrange(body_start(ls), ls.len() as int)
}

/// The fields and turns of `text`, or the first file reference (as written)
/// whose file could not be read. `reads[i]` is the text of the file that
/// the `i`-th reference names.
pub open spec fn document_of(text: Seq<char>, reads: Seq<Option<Seq<char>>>) -> Result<
    (Entries, Seq<(Role, Seq<char>)>),
    Seq<char>,
> {
    let ls = lines_of(text);
    match messages_of(body_lines(ls), reads) {
        Ok(t) => Ok((fields_of(ls), t)),
        Err(p) => Err(p),
    }
}

/// The paths of the files that the references of `text` name, in order,
/// for a document at `current`.
pub open spec fn document_references(text: Seq<char>, current: Seq<char>) -> Seq<Seq<char>> {
    references_of(body_lines(lines_of(text))).map_values(|p: Seq<char>| resolve(p, current))
}

/// The `(role, content)` pairs of an API request: the system prompt (empty
/// when the frontmatter declares none) and then every turn.
pub open spec fn request_of(fields: Entries, turns: Seq<(Role, Seq<char>)>) -> Seq<
    (Seq<char>, Seq<char>),
> {
    let system = match lookup(fields, "system"@) {
        Some(v) => v,
        None => Seq::empty(),
    };
    api_messages_of(system, turns)
}

pub open spec fn pair_views(v: Seq<(String, String)>) -> Seq<(Seq<char>, Seq<char>)> {
    v.map_values(|m: (String, String)| (m.0@, m.1@))
}

pub enum ParseError {
    /// The file that this reference (as written) names could not be read.
    FileReadFailed(String),
}

pub struct ChatDocument {
    pub frontmatter: FrontmatterFields,
    pub turns: Vec<Turn>,
}

fn body_of<'a, 'b>(ls: &'b Vec<&'a [char]>, start: usize) -> (r: &'b [&'a [char]])
    requires
        start <= ls@.len(),
    ensures
        views(r@) == views(ls@).subrange(start as int, ls@.len() as int),
{
    let r = &ls[start..ls.len()];
    assert(views(r@) =~= views(ls@).subrange(start as int, ls@.len() as int));
    r
}

/// Parses `text`. `reads[i]` is the text of the file that the `i`-th entry
/// of [`reference_paths`] names, or `None` where it could not be read.
pub fn parse_document(text: &str, reads: &Vec<Option<String>>) -> (r: Result<
    ChatDocument,
    ParseError,
>)
    ensures
        match (r, document_of(text@, read_views(reads@))) {
            (Ok(d), Ok((f, t))) => d.frontmatter@ == f && turn_views(d.turns@) == t,
            (Err(ParseError::FileReadFailed(e)), Err(p)) => e@ == p,
            _ => false,
        },
{
    let cs = chars_of(text);
    let ls = lines(cs.as_slice());
    let (frontmatter, start) = parse_frontmatter(&ls);
    proof {
        crate::frontmatter::lemma_body_start_bounds(views(ls@));
    }
    let body = body_of(&ls, start);
    match parse_messages(body, reads) {
        Ok(turns) => Ok(ChatDocument { frontmatter, turns }),
        Err(e) => Err(ParseError::FileReadFailed(e)),
    }
}

/// The paths of the files that the references of `text` name, in order,
/// for a document at `current_file_path`.
pub fn reference_paths(text: &str, current_file_path: &str) -> (r: Vec<String>)
    ensures
        r@.map_values(|p: String| p@) == document_references(text@, current_file_path@),
{
    let cs = chars_of(text);
    let ls = lines(cs.as_slice());
    let (_fields, start) = parse_frontmatter(&ls);
    proof {
        crate::frontmatter::lemma_body_start_bounds(views(ls@));
    }
    let body = body_of(&ls, start);
    let refs = references(body);
    let ghost want = document_references(text@, current_file_path@);
    let mut out: Vec<String> = Vec::new();
    let mut i: usize = 0;
    while i < refs.len()
        invariant
            i <= refs@.len(),
            want.len() == refs@.len(),
            want == refs@.map_values(|p: Vec<char>| p@).map_values(
                |p: Seq<char>| resolve(p, current_file_path@),
            ),
            out@.len() == i,
            forall|k: int| 0 <= k < i ==> #[trigger] out@[k]@ == want[k],
        decreases refs.len() - i,
    {
        let p = string_of(refs[i].as_slice());
        let resolved = resolve_referenced_path(p.as_str(), current_file_path);
        assert(want[i as int] == resolve(refs@[i as int]@, current_file_path@));
        assert(resolved@ == want[i as int]);
        let ghost before = out@;
        out.push(resolved);
        assert(out@ == before.push(resolved));
        i = i + 1;
    }
    assert(out@.map_values(|p: String| p@) =~= want);
    out
}

impl ChatDocument {
    /// The value of the frontmatter field `key`, or `default` when the
    /// document does not declare it.
    pub fn setting(&self, key: &str, default: &str) -> (r: String)
        ensures
            r@ == match lookup(self.frontmatter@, key@) {
                Some(v) => v,
                None => default@,
            },
    {
        match self.frontmatter.get(key) {
            Some(v) => v,
            None => default.to_string(),
        }
    }

    /// The messages of an API request for this document.
    pub fn api_messages(&self) -> (r: Vec<(String, String)>)
        ensures
            pair_views(r@) == request_of(
                self.frontmatter@,
                turn_views(self.turns@),
            ),
    {
        let system = self.setting("system", "");
        proof {
            reveal_strlit("");
            assert(""@ =~= Seq::<char>::empty());
        }
        assert(system@ == match lookup(self.frontmatter@, "system"@) {
            Some(v) => v,
            None => Seq::<char>::empty(),
        });
        prepare_api_messages(system.as_str(), &self.turns)
    }
}

/// The `(role, content)` pairs of an API request: the system prompt, then
/// every turn.
pub open spec fn api_messages_of(system_prompt: Seq<char>, turns: Seq<(Role, Seq<char>)>) -> Seq<
    (Seq<char>, Seq<char>),
> {
    seq![("system"@, system_prompt)] + turns.map_values(|t: (Role, Seq<char>)| (t.0.name_of(), t.1))
}

pub fn prepare_api_messages(system_prompt: &str, turns: &Vec<Turn>) -> (r: Vec<(String, String)>)
    ensures
        pair_views(r@) == api_messages_of(
            system_prompt@,
            turn_views(turns@),
        ),
{
    let ghost want = api_messages_of(system_prompt@, turn_views(turns@));
    let mut out: Vec<(String, String)> = Vec::new();
    let label = "system".to_string();
    out.push((label, system_prompt.to_string()));
    let mut i: usize = 0;
    while i < turns.len()
        invariant
            i <= turns@.len(),
            want.len() == turns@.len() + 1,
            want == api_messages_of(system_prompt@, turn_views(turns@)),
            out@.len() == i + 1,
            forall|k: int| 0 <= k <= i ==> (#[trigger] out@[k].0@, out@[k].1@) == want[k],
        decreases turns.len() - i,
    {
        let t = &turns[i];
        let m = (t.role.name(), t.content.clone());
        assert(want[i + 1] == (m.0@, m.1@));
        let ghost before = out@;
        out.push(m);
        assert(out@ == before.push(m));
        i = i + 1;
    }
    assert(pair_views(out@) =~= want);
    out
}

} // verus!
