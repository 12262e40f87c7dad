//! The lines that the `greeting` and `goodbye` commands print.

use vstd::prelude::*;
use crate::text::{chars_of, push_all, string_of};

verus! {

/// What `str::to_uppercase` makes of `s`.
pub uninterp spec fn upper_of(s: Seq<char>) -> Seq<char>;

/// Relies on `str::to_uppercase`: the upper-case form of a text, which
/// depends on its characters alone; an empty text stays empty.
#[verifier::external_body]
fn to_upper(s: &str) -> (r: String)
    ensures
        r@ == upper_of(s@),
        s@.len() == 0 ==> r@.len() == 0,
{
    s.to_uppercase()
}

/// `name`, followed by the surname when there is one.
pub open spec fn full_name_of(name: Seq<char>, surname: Option<Seq<char>>) -> Seq<char> {
    match surname {
        Some(s) => name + seq![' '] + s,
        None => name,
    }
}

pub open spec fn opt_str(o: Option<&str>) -> Option<Seq<char>> {
    match o {
        Some(s) => Some(s@),
        None => None,
    }
}

pub fn full_name(name: &str, surname: Option<&str>) -> (r: String)
    ensures
        r@ == full_name_of(name@, opt_str(surname)),
{
    match surname {
        Some(s) => {
            let mut v = chars_of(name);
            v.push(' ');
            push_all(&mut v, chars_of(s).as_slice());
            assert(v@ =~= full_name_of(name@, opt_str(surname)));
            string_of(v.as_slice())
        },
        None => name.to_string(),
    }
}

/// The name as it is shown: upper case when `caps` is set.
pub open spec fn shown_name(name: Seq<char>, surname: Option<Seq<char>>, caps: bool) -> Seq<char> {
    if caps {
        upper_of(full_name_of(name, surname))
    } else {
        full_name_of(name, surname)
    }
}

fn shown(name: &str, surname: Option<&str>, caps: bool) -> (r: String)
    ensures
        r@ == shown_name(name@, opt_str(surname), caps),
{
    let n = full_name(name, surname);
    if caps {
        to_upper(n.as_str())
    } else {
        n
    }
}

pub open spec fn greeting_of(shown: Seq<char>) -> Seq<char> {
    "Hello, "@ + shown + "!"@
}

/// The greeting for a name as shown.
pub fn greeting_for(shown: &str) -> (r: String)
    ensures
        r@ == greeting_of(shown@),
{
    let mut v = chars_of("Hello, ");
    push_all(&mut v, chars_of(shown).as_slice());
    push_all(&mut v, chars_of("!").as_slice());
    assert(v@ =~= greeting_of(shown@));
    string_of(v.as_slice())
}

/// One greeting per name, or a greeting to the world when there is none.
pub fn generate_greetings(names: &Vec<String>, caps: bool, surname: Option<&str>) -> (r: Vec<String>)
    ensures
        names@.len() == 0 ==> r@.len() == 1 && r@[0]@ == "Hello, world!"@,
        names@.len() > 0 ==> r@.len() == names@.len() && forall|i: int|
            0 <= i < names@.len() ==> #[trigger] r@[i]@ == greeting_of(
                shown_name(names@[i]@, opt_str(surname), caps),
            ),
{
    let mut out: Vec<String> = Vec::new();
    if names.len() == 0 {
        out.push("Hello, world!".to_string());
        return out;
    }
    let mut i: usize = 0;
    while i < names.len()
        invariant
            i <= names@.len(),
            out@.len() == i,
            forall|k: int|
                0 <= k < i ==> #[trigger] out@[k]@ == greeting_of(
                    shown_name(names@[k]@, opt_str(surname), caps),
                ),
        decreases names.len() - i,
    {
        let s = shown(names[i].as_str(), surname, caps);
        out.push(greeting_for(s.as_str()));
        i = i + 1;
    }
    out
}

/// A date written `yyyy-mm-dd` in ASCII digits.
pub open spec fn is_date(d: Seq<char>) -> bool {
    &&& d.len() == 10
    &&& forall|i: int|
        0 <= i < 10 ==> if i == 4 || i == 7 {
            d[i] == '-'
        } else {
            '0' <= #[trigger] d[i] <= '9'
        }
}

pub fn validate_date_format(date: &str) -> (r: bool)
    ensures
        r == is_date(date@),
{
    let d = chars_of(date);
    if d.len() != 10 {
        return false;
    }
    let mut i: usize = 0;
    while i < 10
        invariant
            d@ == date@,
            d@.len() == 10,
            i <= 10,
            forall|k: int|
                0 <= k < i ==> if k == 4 || k == 7 {
                    d@[k] == '-'
                } else {
                    '0' <= #[trigger] d@[k] <= '9'
                },
        decreases 10 - i,
    {
        let ok = if i == 4 || i == 7 {
            d[i] == '-'
        } else {
            '0' <= d[i] && d[i] <= '9'
        };
        if !ok {
            return false;
        }
        i = i + 1;
    }
    true
}

pub open spec fn goodbye_of(shown: Seq<char>, date_after: Option<Seq<char>>) -> Seq<char> {
    match date_after {
        Some(d) => "Goodbye, "@ + shown + "!"@ + ", see you after "@ + d + "."@,
        None => "Goodbye, "@ + shown + "!"@,
    }
}

/// The farewell for a name as shown, with the date after which to meet
/// again when there is one.
pub fn goodbye_for(shown: &str, date_after: Option<&str>) -> (r: String)
    ensures
        r@ == goodbye_of(shown@, opt_str(date_after)),
{
    let mut v = chars_of("Goodbye, ");
    push_all(&mut v, chars_of(shown).as_slice());
    push_all(&mut v, chars_of("!").as_slice());
    match date_after {
        Some(d) => {
            push_all(&mut v, chars_of(", see you after ").as_slice());
            push_all(&mut v, chars_of(d).as_slice());
            push_all(&mut v, chars_of(".").as_slice());
        },
        None => {},
    }
    assert(v@ =~= goodbye_of(shown@, opt_str(date_after)));
    string_of(v.as_slice())
}

/// One farewell per name, or a farewell to the world when there is none.
pub fn generate_goodbyes(
    names: &Vec<String>,
    caps: bool,
    surname: Option<&str>,
    date_after: Option<&str>,
) -> (r: Vec<String>)
    ensures
        names@.len() == 0 ==> r@.len() == 1 && r@[0]@ == "Goodbye, world!"@,
        names@.len() > 0 ==> r@.len() == names@.len() && forall|i: int|
            0 <= i < names@.len() ==> #[trigger] r@[i]@ == goodbye_of(
                shown_name(names@[i]@, opt_str(surname), caps),
                opt_str(date_after),
            ),
{
    let mut out: Vec<String> = Vec::new();
    if names.len() == 0 {
        out.push("Goodbye, world!".to_string());
        return out;
    }
    let mut i: usize = 0;
    while i < names.len()
        invariant
            i <= names@.len(),
            out@.len() == i,
            forall|k: int|
                0 <= k < i ==> #[trigger] out@[k]@ == goodbye_of(
                    shown_name(names@[k]@, opt_str(surname), caps),
                    opt_str(date_after),
                ),
        decreases names.len() - i,
    {
        let s = shown(names[i].as_str(), surname, caps);
        out.push(goodbye_for(s.as_str(), date_after));
        i = i + 1;
    }
    out
}

} // verus!
