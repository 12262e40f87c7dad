//! The turns of a chat document: `user:` and `assistant:` blocks after the
//! frontmatter, with file references expanded in user turns and metadata
//! comments dropped from assistant turns.

use vstd::prelude::*;
use crate::text::{
    chars_of, copy_of, find_char, has_prefix, has_suffix, push_all, starts_with, ends_with, string_of, trim,
    trimmed, views,
};

verus! {

#[derive(PartialEq, Eq, Structural, Clone, Copy, Debug)]
pub enum Role {
    User,
    Assistant,
}

impl Role {
    pub open spec fn name_of(self) -> Seq<char> {
        match self {
            Role::User => "user"@,
            Role::Assistant => "assistant"@,
        }
    }

    /// The role's name, as an API request spells it.
    pub fn name(&self) -> (r: String)
        ensures
            r@ == self.name_of(),
    {
        match self {
            Role::User => "user".to_string(),
            Role::Assistant => "assistant".to_string(),
        }
    }
}

/// One message of the conversation.
pub struct Turn {
    pub role: Role,
    pub content: String,
}

impl View for Turn {
    type V = (Role, Seq<char>);

    open spec fn view(&self) -> (Role, Seq<char>) {
        (self.role, self.content@)
    }
}

pub open spec fn turn_views(v: Seq<Turn>) -> Seq<(Role, Seq<char>)> {
    v.map_values(|t: Turn| t@)
}

/// The role that a line starting a turn names: the line begins, in its
/// first column, with `user:` or `assistant:`.
pub open spec fn turn_start(line: Seq<char>) -> Option<Role> {
    if has_prefix(line, "user:"@) {
        Some(Role::User)
    } else if has_prefix(line, "assistant:"@) {
        Some(Role::Assistant)
    } else {
        None
    }
}

pub open spec fn prefix_of(r: Role) -> Seq<char> {
    match r {
        Role::User => "user:"@,
        Role::Assistant => "assistant:"@,
    }
}

/// A trimmed line `[[path]]`, without line break, that names a file whose
/// text replaces it.
pub open spec fn is_reference(t: Seq<char>) -> bool {
    &&& has_prefix(t, "[["@)
    &&& has_suffix(t, "]]"@)
    &&& forall|j: int| 0 <= j < t.len() ==> t[j] != '\n'
}

/// The path inside a reference, as written.
pub open spec fn reference_path(t: Seq<char>) -> Seq<char> {
    t.subrange(2, t.len() - 2)
}

/// A trimmed assistant line that is a one-line `<!-- ... -->` comment.
pub open spec fn is_metadata(t: Seq<char>) -> bool {
    has_prefix(t, "<!--"@) && has_suffix(t, "-->"@)
}

/// A trimmed user line that is an annotation, not content.
pub open spec fn is_annotation(t: Seq<char>) -> bool {
    has_prefix(t, "<c>"@)
}

/// `content` with the trimmed `line` added on a line of its own.
pub open spec fn append_line(content: Seq<char>, line: Seq<char>) -> Seq<char> {
    if content.len() == 0 {
        trimmed(line)
    } else {
        content + seq!['\n'] + trimmed(line)
    }
}

/// The text that stands for a reference whose file was read.
pub open spec fn expansion(path: Seq<char>, file_text: Seq<char>) -> Seq<char> {
    "\n\n[["@ + path + "]]\n\n"@ + file_text + "\n\n"@
}

/// The text that stands for a reference whose file could not be read.
pub open spec fn failure_note(path: Seq<char>) -> Seq<char> {
    "\n\nFailed to read file: "@ + path + "\n\n"@
}

/// The message parser's state.
pub struct MessageState {
    pub turns: Seq<(Role, Seq<char>)>,
    pub role: Option<Role>,
    pub content: Seq<char>,
    /// The paths of the references met so far, as written.
    pub refs: Seq<Seq<char>>,
    /// The first reference that could not be read.
    pub failed: Option<Seq<char>>,
}

pub open spec fn initial_state() -> MessageState {
    MessageState {
        turns: Seq::empty(),
        role: None,
        content: Seq::empty(),
        refs: Seq::empty(),
        failed: None,
    }
}

/// Ends the turn in progress, if any.
pub open spec fn finish(st: MessageState) -> MessageState {
    match st.role {
        Some(r) => MessageState {
            turns: st.turns.push((r, trimmed(st.content))),
            content: Seq::empty(),
            ..st
        },
        None => st,
    }
}

/// The result of reading the `i`-th referenced file; `None` when it could
/// not be read.
pub open spec fn read_result(reads: Seq<Option<Seq<char>>>, i: int) -> Option<Seq<char>> {
    if 0 <= i < reads.len() {
        reads[i]
    } else {
        None
    }
}

/// A reference line in a user turn.
pub open spec fn expand(st: MessageState, t: Seq<char>, reads: Seq<Option<Seq<char>>>) -> MessageState {
    let path = reference_path(t);
    match read_result(reads, st.refs.len() as int) {
        Some(file_text) => MessageState {
            content: st.content + expansion(path, file_text),
            refs: st.refs.push(path),
            ..st
        },
        None => MessageState {
            content: st.content + failure_note(path),
            refs: st.refs.push(path),
            failed: if st.failed is None {
                Some(path)
            } else {
                st.failed
            },
            ..st
        },
    }
}

/// One line of the message region.
pub open spec fn message_step(
    st: MessageState,
    line: Seq<char>,
    reads: Seq<Option<Seq<char>>>,
) -> MessageState {
    match turn_start(line) {
        Some(r) => {
            let f = finish(st);
            MessageState {
                role: Some(r),
                content: trimmed(line.subrange(prefix_of(r).len() as int, line.len() as int)),
                ..f
            }
        },
        None => {
            if line.len() == 0 {
                st
            } else {
                let t = trimmed(line);
                match st.role {
                    Some(Role::User) => {
                        if is_reference(t) {
                            expand(st, t, reads)
                        } else if is_annotation(t) {
                            st
                        } else {
                            MessageState { content: append_line(st.content, line), ..st }
                        }
                    },
                    Some(Role::Assistant) => {
                        if is_metadata(t) {
                            st
                        } else {
                            MessageState { content: append_line(st.content, line), ..st }
                        }
                    },
                    None => st,
                }
            }
        },
    }
}

pub open spec fn run_messages(lines: Seq<Seq<char>>, reads: Seq<Option<Seq<char>>>) -> MessageState
    decreases lines.len(),
{
    if lines.len() == 0 {
        initial_state()
    } else {
        message_step(run_messages(lines.drop_last(), reads), lines.last(), reads)
    }
}

/// The turns of the message region `lines`, or the first reference whose
/// file could not be read.
pub open spec fn messages_of(lines: Seq<Seq<char>>, reads: Seq<Option<Seq<char>>>) -> Result<
    Seq<(Role, Seq<char>)>,
    Seq<char>,
> {
    let st = run_messages(lines, reads);
    match st.failed {
        Some(p) => Err(p),
        None => Ok(finish(st).turns),
    }
}

/// The references of the message region `lines`, in order, as written.
pub open spec fn references_of(lines: Seq<Seq<char>>) -> Seq<Seq<char>> {
    run_messages(lines, Seq::empty()).refs
}

pub fn message_role(line: &[char]) -> (r: Option<Role>)
    ensures
        r == turn_start(line@),
{
    if starts_with(line, chars_of("user:").as_slice()) {
        Some(Role::User)
    } else if starts_with(line, chars_of("assistant:").as_slice()) {
        Some(Role::Assistant)
    } else {
        None
    }
}

pub fn is_file_reference(t: &[char]) -> (r: bool)
    ensures
        r == is_reference(t@),
{
    proof {
        crate::text::lemma_first_index_found(t@, '\n');
    }
    starts_with(t, chars_of("[[").as_slice()) && ends_with(t, chars_of("]]").as_slice())
        && find_char(t, '\n') == t.len()
}

/// The parser's state while it reads the message region.
struct Parser {
    turns: Vec<Turn>,
    role: Option<Role>,
    content: Vec<char>,
    refs: Vec<Vec<char>>,
    failed: Option<Vec<char>>,
}

impl Parser {
    spec fn state(&self) -> MessageState {
        MessageState {
            turns: turn_views(self.turns@),
            role: self.role,
            content: self.content@,
            refs: self.refs@.map_values(|p: Vec<char>| p@),
            failed: match self.failed {
                Some(p) => Some(p@),
                None => None,
            },
        }
    }

    fn finish_current_message(&mut self)
        ensures
            final(self).state() == finish(old(self).state()),
    {
        match self.role {
            Some(r) => {
                let c = string_of(trim(self.content.as_slice()));
                self.turns.push(Turn { role: r, content: c });
                self.content = Vec::new();
                assert(turn_views(self.turns@) =~= turn_views(old(self).turns@).push(
                    (r, trimmed(old(self).content@)),
                ));
                assert(self.state().content =~= Seq::<char>::empty());
            },
            None => {},
        }
    }

    fn append_line(&mut self, line: &[char])
        ensures
            final(self).content@ == append_line(old(self).content@, line@),
            final(self).turns == old(self).turns,
            final(self).role == old(self).role,
            final(self).refs == old(self).refs,
            final(self).failed == old(self).failed,
    {
        if self.content.len() > 0 {
            self.content.push('\n');
        }
        push_all(&mut self.content, trim(line));
        assert(self.content@ =~= append_line(old(self).content@, line@));
    }

    fn expand_file_reference(&mut self, t: &[char], reads: &Vec<Option<String>>)
        requires
            is_reference(t@),
        ensures
            final(self).state() == expand(old(self).state(), t@, read_views(reads@)),
    {
        proof {
            reveal_strlit("[[");
            reveal_strlit("]]");
            assert(t@.subrange(0, 2)[1] == '[');
            assert(t@.subrange(t@.len() - 2, t@.len() as int)[0] == ']');
        }
        let path = &t[2..t.len() - 2];
        assert(path@ == reference_path(t@));
        let read: Option<&str> = if self.refs.len() < reads.len() {
            match &reads[self.refs.len()] {
                Some(text) => Some(text.as_str()),
                None => None,
            }
        } else {
            None
        };
        let token = string_of(t);
        match expand_reference(token.as_str(), read) {
            Ok(e) => {
                push_all(&mut self.content, chars_of(e.as_str()).as_slice());
            },
            Err(e) => {
                push_all(&mut self.content, chars_of(e.as_str()).as_slice());
                if self.failed.is_none() {
                    self.failed = Some(copy_of(path));
                }
            },
        }
        self.refs.push(copy_of(path));
        assert(self.refs@.map_values(|p: Vec<char>| p@) =~= old(self).refs@.map_values(
            |p: Vec<char>| p@,
        ).push(path@));
    }

    fn process_line(&mut self, line: &[char], reads: &Vec<Option<String>>)
        ensures
            final(self).state() == message_step(old(self).state(), line@, read_views(reads@)),
    {
        match message_role(line) {
            Some(r) => {
                self.finish_current_message();
                let p = match r {
                    Role::User => 5,
                    Role::Assistant => 10,
                };
                proof {
                    reveal_strlit("user:");
                    reveal_strlit("assistant:");
                }
                assert(p == prefix_of(r).len());
                self.content = copy_of(trim(&line[p..line.len()]));
                self.role = Some(r);
            },
            None => {
                if line.len() > 0 {
                    let t = trim(line);
                    match self.role {
                        Some(Role::User) => {
                            if is_file_reference(t) {
                                self.expand_file_reference(t, reads);
                            } else if !starts_with(t, chars_of("<c>").as_slice()) {
                                self.append_line(line);
                            }
                        },
                        Some(Role::Assistant) => {
                            if !(starts_with(t, chars_of("<!--").as_slice()) && ends_with(
                                t,
                                chars_of("-->").as_slice(),
                            )) {
                                self.append_line(line);
                            }
                        },
                        None => {},
                    }
                }
            },
        }
    }
}

pub open spec fn read_views(reads: Seq<Option<String>>) -> Seq<Option<Seq<char>>> {
    reads.map_values(
        |r: Option<String>|
            match r {
                Some(s) => Some(s@),
                None => None,
            },
    )
}

/// Reads the message region `lines` into turns. `reads[i]` is the text of
/// the file that the `i`-th reference names (see [`references`]), or
/// `None` where it could not be read. The first reference that could not
/// be read is returned as the error.
pub fn parse_messages(lines: &[&[char]], reads: &Vec<Option<String>>) -> (r: Result<
    Vec<Turn>,
    String,
>)
    ensures
        match (r, messages_of(views(lines@), read_views(reads@))) {
            (Ok(t), Ok(s)) => turn_views(t@) == s,
            (Err(e), Err(p)) => e@ == p,
            _ => false,
        },
{
    let p = run_parser(lines, reads);
    match p.failed {
        Some(f) => Err(string_of(f.as_slice())),
        None => {
            let mut p = p;
            p.finish_current_message();
            Ok(p.turns)
        },
    }
}

/// The references of the message region `lines`, in order, with their
/// paths as written.
pub fn references(lines: &[&[char]]) -> (r: Vec<Vec<char>>)
    ensures
        r@.map_values(|p: Vec<char>| p@) == references_of(views(lines@)),
{
    let none: Vec<Option<String>> = Vec::new();
    assert(read_views(none@) =~= Seq::<Option<Seq<char>>>::empty());
    run_parser(lines, &none).refs
}

fn run_parser(lines: &[&[char]], reads: &Vec<Option<String>>) -> (p: Parser)
    ensures
        p.state() == run_messages(views(lines@), read_views(reads@)),
{
    let ghost ls = views(lines@);
    let mut p = Parser {
        turns: Vec::new(),
        role: None,
        content: Vec::new(),
        refs: Vec::new(),
        failed: None,
    };
    assert(turn_views(p.turns@) =~= Seq::<(Role, Seq<char>)>::empty());
    assert(p.content@ =~= Seq::<char>::empty());
    assert(p.refs@.map_values(|p: Vec<char>| p@) =~= Seq::<Seq<char>>::empty());
    assert(p.state() == initial_state());
    let mut i: usize = 0;
    while i < lines.len()
        invariant
            i <= ls.len(),
            ls == views(lines@),
            p.state() == run_messages(ls.subrange(0, i as int), read_views(reads@)),
        decreases lines.len() - i,
    {
        assert(ls.subrange(0, i + 1).drop_last() =~= ls.subrange(0, i as int));
        p.process_line(lines[i], reads);
        i = i + 1;
    }
    assert(ls.subrange(0, i as int) =~= ls);
    p
}


/// The references that the parser meets do not depend on what the files
/// hold: with any read results, the `i`-th file read goes with the `i`-th
/// entry of `references_of(lines)`.
pub proof fn lemma_references_line_up(lines: Seq<Seq<char>>, reads: Seq<Option<Seq<char>>>)
    ensures
        run_messages(lines, reads).refs == references_of(lines),
        run_messages(lines, reads).role == run_messages(lines, Seq::empty()).role,
    decreases lines.len(),
{
    if lines.len() > 0 {
        lemma_references_line_up(lines.drop_last(), reads);
    }
}


/// The text that stands for the reference `token` (a trimmed `[[path]]`
/// line): with the referenced file's text, the path and the text; without
/// it, the failure note, as the error.
pub fn expand_reference(token: &str, file_text: Option<&str>) -> (r: Result<String, String>)
    requires
        is_reference(token@),
    ensures
        match (r, file_text) {
            (Ok(e), Some(t)) => e@ == expansion(reference_path(token@), t@),
            (Err(e), None) => e@ == failure_note(reference_path(token@)),
            _ => false,
        },
{
    let t = chars_of(token);
    proof {
        reveal_strlit("[[");
        reveal_strlit("]]");
        assert(t@.subrange(0, 2)[1] == '[');
        assert(t@.subrange(t@.len() - 2, t@.len() as int)[0] == ']');
    }
    let path = &t.as_slice()[2..t.len() - 2];
    let mut out: Vec<char> = Vec::new();
    match file_text {
        Some(text) => {
            push_all(&mut out, chars_of("\n\n[[").as_slice());
            push_all(&mut out, path);
            push_all(&mut out, chars_of("]]\n\n").as_slice());
            push_all(&mut out, chars_of(text).as_slice());
            push_all(&mut out, chars_of("\n\n").as_slice());
            assert(out@ =~= expansion(reference_path(token@), text@));
            Ok(string_of(out.as_slice()))
        },
        None => {
            push_all(&mut out, chars_of("\n\nFailed to read file: ").as_slice());
            push_all(&mut out, path);
            push_all(&mut out, chars_of("\n\n").as_slice());
            assert(out@ =~= failure_note(reference_path(token@)));
            Err(string_of(out.as_slice()))
        },
    }
}

} // verus!
