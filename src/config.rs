//! Settings that come from outside the document: the configuration file's
//! defaults, where the `.env` file lives, and which API key wins.

use vstd::prelude::*;
use crate::text::{
    chars_of, find_char, has_prefix, lines, lines_of, push_all, starts_with, string_of, trim,
    trimmed, first_index,
};

verus! {

/// The defaults that the configuration file gives.
pub struct AppConfig {
    pub system_prompt: String,
    pub model: String,
    pub api_endpoint: String,
}

pub enum ConfigError {
    /// The configuration file does not set this key.
    MissingField(String),
}

/// The configuration made of the values that the configuration file gives
/// for its keys; the first key it lacks, in the order `system_prompt`,
/// `model`, `api_endpoint`, is the error.
pub fn load_config(
    system_prompt: Option<String>,
    model: Option<String>,
    api_endpoint: Option<String>,
) -> (r: Result<AppConfig, ConfigError>)
    ensures
        match r {
            Ok(c) => system_prompt == Some(c.system_prompt) && model == Some(c.model)
                && api_endpoint == Some(c.api_endpoint),
            Err(ConfigError::MissingField(k)) => if system_prompt is None {
                k@ == "system_prompt"@
            } else if model is None {
                k@ == "model"@
            } else {
                api_endpoint is None && k@ == "api_endpoint"@
            },
        },
{
    match (system_prompt, model, api_endpoint) {
        (Some(system_prompt), Some(model), Some(api_endpoint)) => Ok(
            AppConfig { system_prompt, model, api_endpoint },
        ),
        (None, _, _) => Err(ConfigError::MissingField("system_prompt".to_string())),
        (Some(_), None, _) => Err(ConfigError::MissingField("model".to_string())),
        (Some(_), Some(_), None) => Err(ConfigError::MissingField("api_endpoint".to_string())),
    }
}

/// `name` inside the directory `dir`.
pub open spec fn join_path(dir: Seq<char>, name: Seq<char>) -> Seq<char> {
    if dir.len() == 0 {
        name
    } else if dir[dir.len() - 1] == '/' {
        dir + name
    } else {
        dir + seq!['/'] + name
    }
}

/// The `.env` file to use: the one in the working directory when it
/// exists, else the one in the configuration directory.
pub fn get_env_file_path(local_env_exists: bool, config_dir: &str) -> (r: String)
    ensures
        r@ == if local_env_exists {
            ".env"@
        } else {
            join_path(config_dir@, ".env"@)
        },
{
    if local_env_exists {
        return ".env".to_string();
    }
    let d = chars_of(config_dir);
    let mut out: Vec<char> = Vec::new();
    push_all(&mut out, d.as_slice());
    if d.len() > 0 && d[d.len() - 1] != '/' {
        out.push('/');
    }
    push_all(&mut out, chars_of(".env").as_slice());
    assert(out@ =~= join_path(config_dir@, ".env"@));
    string_of(out.as_slice())
}

/// The first line of `ls` that starts with `p`.
pub open spec fn first_line_with(ls: Seq<Seq<char>>, p: Seq<char>) -> Option<Seq<char>>
    decreases ls.len(),
{
    if ls.len() == 0 {
        None
    } else if has_prefix(ls[0], p) {
        Some(ls[0])
    } else {
        first_line_with(ls.skip(1), p)
    }
}

/// The API key that an `.env` text sets: the value after the first `=` of
/// its first `OPENAI_API_KEY=` line, trimmed; none when that is empty.
pub open spec fn env_file_key(text: Seq<char>) -> Option<Seq<char>> {
    match first_line_with(lines_of(text), "OPENAI_API_KEY="@) {
        Some(l) => {
            let v = trimmed(l.subrange(first_index(l, '=') + 1int, l.len() as int));
            if v.len() > 0 {
                Some(v)
            } else {
                None
            }
        },
        None => None,
    }
}

pub fn key_from_env_file(text: &str) -> (r: Option<String>)
    ensures
        match r {
            Some(k) => env_file_key(text@) == Some(k@),
            None => env_file_key(text@) is None,
        },
{
    let cs = chars_of(text);
    let ls = lines(cs.as_slice());
    let p = chars_of("OPENAI_API_KEY=");
    let ghost lv = lines_of(text@);
    assert(lv.skip(0) =~= lv);
    let mut i: usize = 0;
    while i < ls.len()
        invariant
            i <= ls@.len(),
            crate::text::views(ls@) == lv,
            lv == lines_of(text@),
            p@ == "OPENAI_API_KEY="@,
            first_line_with(lv.skip(i as int), p@) == first_line_with(lv, p@),
        decreases ls.len() - i,
    {
        let l = ls[i];
        assert(lv.skip(i as int)[0] == l@);
        if starts_with(l, p.as_slice()) {
            assert(first_line_with(lv.skip(i as int), p@) == Some(l@));
            let e = find_char(l, '=');
            proof {
                reveal_strlit("OPENAI_API_KEY=");
                assert(l@[14] == p@[14]);
                crate::text::lemma_first_index_at_most(l@, '=', 14);
            }
            let v = trim(&l[e + 1..l.len()]);
            if v.len() > 0 {
                return Some(string_of(v));
            }
            return None;
        }
        assert(lv.skip(i as int).skip(1) =~= lv.skip(i + 1));
        i = i + 1;
    }
    None
}

pub open spec fn opt_view(o: Option<String>) -> Option<Seq<char>> {
    match o {
        Some(s) => Some(s@),
        None => None,
    }
}

/// The API key, by precedence: the one given on the command line, then
/// the one that the `.env` text sets, then the environment's.
pub open spec fn api_key_of(
    cli_key: Option<Seq<char>>,
    env_file: Option<Seq<char>>,
    env_var: Option<Seq<char>>,
) -> Option<Seq<char>> {
    let from_file = match env_file {
        Some(t) => env_file_key(t),
        None => None,
    };
    match cli_key {
        Some(k) => Some(k),
        None => match from_file {
            Some(k) => Some(k),
            None => env_var,
        },
    }
}

/// The API key, by precedence: the one given on the command line, then
/// the one that the `.env` file's text `env_file` sets, then the value of
/// the environment variable.
pub fn get_api_key(cli_key: Option<String>, env_file: Option<String>, env_var: Option<String>) -> (r:
    Option<String>)
    ensures
        opt_view(r) == api_key_of(opt_view(cli_key), opt_view(env_file), opt_view(env_var)),
{
    match cli_key {
        Some(k) => Some(k),
        None => {
            let from_file = match &env_file {
                Some(t) => key_from_env_file(t.as_str()),
                None => None,
            };
            match from_file {
                Some(k) => Some(k),
                None => env_var,
            }
        },
    }
}

} // verus!
