//! The text that is appended to a chat document after a model answers,
//! and the frontmatter of a new document.

use vstd::prelude::*;
use crate::config::AppConfig;
use crate::template::{keys, render, render_frontmatter};
use crate::text::{chars_of, push_all, push_signed_decimal, signed_decimal, string_of};

verus! {

/// What is recorded about one answer of the model.
pub struct ResponseMetadata {
    pub model: String,
    pub id: String,
    pub created_formatted: String,
    pub total_tokens: i64,
}

/// One `<!-- label: value -->` line.
pub open spec fn comment_line(label: Seq<char>, value: Seq<char>) -> Seq<char> {
    "<!-- "@ + label + ": "@ + value + " -->\n"@
}

pub open spec fn metadata_text_of(m: ResponseMetadata) -> Seq<char> {
    comment_line("model"@, m.model@) + comment_line("id"@, m.id@) + comment_line(
        "created"@,
        m.created_formatted@,
    ) + comment_line("total_tokens"@, signed_decimal(m.total_tokens as int))
}

fn push_comment(out: &mut Vec<char>, label: &str, value: &[char])
    ensures
        final(out)@ == old(out)@ + comment_line(label@, value@),
{
    push_all(out, chars_of("<!-- ").as_slice());
    push_all(out, chars_of(label).as_slice());
    push_all(out, chars_of(": ").as_slice());
    push_all(out, value);
    push_all(out, chars_of(" -->\n").as_slice());
    assert(out@ =~= old(out)@ + comment_line(label@, value@));
}

impl ResponseMetadata {
    /// The metadata as comment lines, which the parser leaves out of the
    /// assistant turn they follow.
    pub fn metadata_text(&self) -> (r: String)
        ensures
            r@ == metadata_text_of(*self),
    {
        let mut out: Vec<char> = Vec::new();
        push_comment(&mut out, "model", chars_of(self.model.as_str()).as_slice());
        push_comment(&mut out, "id", chars_of(self.id.as_str()).as_slice());
        push_comment(&mut out, "created", chars_of(self.created_formatted.as_str()).as_slice());
        let mut n: Vec<char> = Vec::new();
        push_signed_decimal(&mut n, self.total_tokens);
        assert(n@ =~= signed_decimal(self.total_tokens as int));
        push_comment(&mut out, "total_tokens", n.as_slice());
        assert(out@ =~= metadata_text_of(*self));
        string_of(out.as_slice())
    }
}

/// The text appended to a document after an answer: the question as a user
/// turn when there is one, the answer as an assistant turn, the metadata,
/// and, when the question came from the document itself, an empty user
/// turn for the next question.
pub open spec fn response_record_of(
    question: Option<Seq<char>>,
    answer: Seq<char>,
    m: ResponseMetadata,
) -> Seq<char> {
    let asked = match question {
        Some(q) => "\nuser:\n"@ + q + "\n\n"@,
        None => Seq::empty(),
    };
    let next = match question {
        Some(_) => Seq::empty(),
        None => "\nuser:\n"@,
    };
    asked + "assistant:\n"@ + answer + "\n\n"@ + metadata_text_of(m) + next
}

pub fn response_record(question: Option<&str>, answer: &str, metadata: &ResponseMetadata) -> (r:
    String)
    ensures
        r@ == response_record_of(
            match question {
                Some(q) => Some(q@),
                None => None,
            },
            answer@,
            *metadata,
        ),
{
    let mut out: Vec<char> = Vec::new();
    match question {
        Some(q) => {
            push_all(&mut out, chars_of("\nuser:\n").as_slice());
            push_all(&mut out, chars_of(q).as_slice());
            push_all(&mut out, chars_of("\n\n").as_slice());
        },
        None => {},
    }
    push_all(&mut out, chars_of("assistant:\n").as_slice());
    push_all(&mut out, chars_of(answer).as_slice());
    push_all(&mut out, chars_of("\n\n").as_slice());
    let m = metadata.metadata_text();
    push_all(&mut out, chars_of(m.as_str()).as_slice());
    match question {
        Some(_) => {},
        None => {
            push_all(&mut out, chars_of("\nuser:\n").as_slice());
        },
    }
    assert(out@ =~= response_record_of(
        match question {
            Some(q) => Some(q@),
            None => None,
        },
        answer@,
        *metadata,
    ));
    string_of(out.as_slice())
}

/// The conversation that a quick question leaves in a new document.
pub open spec fn conversation_record_of(
    question: Seq<char>,
    answer: Seq<char>,
    id: Seq<char>,
    total_tokens: int,
) -> Seq<char> {
    "\nuser:\n"@ + question + "\n\n"@ + "assistant:\n"@ + answer + "\n\n"@ + comment_line(
        "id"@,
        id,
    ) + comment_line("total_tokens"@, signed_decimal(total_tokens))
}

pub fn conversation_record(question: &str, answer: &str, id: &str, total_tokens: i64) -> (r: String)
    ensures
        r@ == conversation_record_of(question@, answer@, id@, total_tokens as int),
{
    let mut out: Vec<char> = Vec::new();
    push_all(&mut out, chars_of("\nuser:\n").as_slice());
    push_all(&mut out, chars_of(question).as_slice());
    push_all(&mut out, chars_of("\n\n").as_slice());
    push_all(&mut out, chars_of("assistant:\n").as_slice());
    push_all(&mut out, chars_of(answer).as_slice());
    push_all(&mut out, chars_of("\n\n").as_slice());
    push_comment(&mut out, "id", chars_of(id).as_slice());
    let mut n: Vec<char> = Vec::new();
    push_signed_decimal(&mut n, total_tokens);
    assert(n@ =~= signed_decimal(total_tokens as int));
    push_comment(&mut out, "total_tokens", n.as_slice());
    assert(out@ =~= conversation_record_of(question@, answer@, id@, total_tokens as int));
    string_of(out.as_slice())
}

/// The values that a new document's frontmatter gives the template keys.
pub open spec fn new_document_values(
    title: Seq<char>,
    created_at: Seq<char>,
    updated_at: Seq<char>,
    config: AppConfig,
) -> Seq<Seq<char>> {
    seq![
        title,
        config.system_prompt@,
        config.model@,
        config.api_endpoint@,
        created_at,
        updated_at,
        "[]"@,
        ""@,
    ]
}

/// The frontmatter of a new document: its title and times, the defaults of
/// `config`, no tags and an empty summary. An empty field counts as
/// missing to the linter, so the linter reports `summary` until it is
/// filled in.
pub fn get_frontmatter_from_config(
    title: &str,
    created_at: &str,
    updated_at: &str,
    config: &AppConfig,
) -> (r: String)
    ensures
        r@ == render(keys(), new_document_values(title@, created_at@, updated_at@, *config)),
{
    let values = vec![
        title.to_string(),
        config.system_prompt.clone(),
        config.model.clone(),
        config.api_endpoint.clone(),
        created_at.to_string(),
        updated_at.to_string(),
        "[]".to_string(),
        "".to_string(),
    ];
    assert(values@.map_values(|v: String| v@) =~= new_document_values(
        title@,
        created_at@,
        updated_at@,
        *config,
    ));
    render_frontmatter(&values)
}

} // verus!
