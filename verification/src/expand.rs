use vstd::prelude::*;

use crate::env::{env_context, var_result, EnvView, VarError};
use crate::paths::{absolutized, make_absolute, PathStyle};

verus! {

/// What tilde expansion gives on Unix: a leading `~` that stands alone or before a
/// `/` becomes the home directory, when one is known; any other text is unchanged.
pub open spec fn tilde_unix(input: Seq<char>, home: Option<Seq<char>>) -> Seq<char> {
    if input.len() > 0 && input[0] == '~' && (input.len() == 1 || input[1] == '/') {
        match home {
            Some(h) => h + input.skip(1),
            None => input,
        }
    } else {
        input
    }
}

/// What tilde expansion gives on Windows, where `~` followed by `\` is replaced too.
pub open spec fn tilde_windows(input: Seq<char>, home: Option<Seq<char>>) -> Seq<char> {
    if input.len() > 1 && input[0] == '~' && input[1] == '\\' {
        match home {
            Some(h) => h + input.skip(1),
            None => input,
        }
    } else {
        tilde_unix(input, home)
    }
}

/// Whether `s` holds a `$`, which starts a variable reference.
pub open spec fn has_dollar(s: Seq<char>) -> bool {
    s.contains('$')
}

/// What `shellexpand::tilde_with_context` gives for `input` with the home directory
/// `home` on a platform that writes paths as `style` does: the Windows form on
/// Windows (where that function checks `cfg!(windows)`), the Unix form elsewhere.
pub open spec fn tilde_expanded(style: PathStyle, input: Seq<char>, home: Option<Seq<char>>) -> Seq<char> {
    if style == PathStyle::Windows {
        tilde_windows(input, home)
    } else {
        tilde_unix(input, home)
    }
}

/// Tilde expansion as `shellexpand::tilde_with_context` does it on the platform whose
/// paths `style` describes: a leading `~` that stands alone or comes before `/`
/// (on Windows also before `\`) becomes the home directory, when one is known.
fn expand_tilde(style: PathStyle, input: &str, home: Option<String>) -> (r: String)
    ensures
        r@ == tilde_expanded(style, input@, home.deep_view()),
{
    let len = input.unicode_len();
    let expands = len > 0 && input.get_char(0) == '~' && (len == 1 || input.get_char(1) == '/'
        || (style == PathStyle::Windows && input.get_char(1) == '\\'));
    if !expands {
        return input.to_owned();
    }
    match home {
        Some(h) => {
            let mut r = h;
            r.append(input.substring_char(1, len));
            assert(r@ =~= tilde_expanded(style, input@, Some(h@)));
            r
        },
        None => input.to_owned(),
    }
}

/// A failed variable lookup during expansion: the variable's name and why it
/// could not be read.
#[derive(Debug)]
pub struct LookupFailure {
    pub var_name: String,
    pub cause: VarError,
}

/// What `shellexpand::env_with_context` gives for `input` when it looks variables up
/// in `env`: the expanded text, or the name of the variable that failed with the
/// reason.
pub uninterp spec fn env_expanded(input: Seq<char>, env: EnvView) -> Result<Seq<char>, (Seq<char>, VarError)>;

/// Calls `shellexpand::env_with_context` on `input`, looking each variable up in the
/// snapshot `env` through `env_context`. Its contract names the result; the source
/// shows two facts that are stated as well: a text without `$` comes back as it
/// is, and a failure carries the name of a variable together with the error the
/// lookup gave for it.
#[verifier::external_body]
fn expand_env(input: &str, env: &Vec<(String, Option<String>)>) -> (r: Result<String, LookupFailure>)
    ensures
        (match r {
            Ok(s) => env_expanded(input@, env.deep_view()) matches Ok(t) && t == s@,
            Err(f) => env_expanded(input@, env.deep_view()) matches Err(pair) && pair.0 == f.var_name@
                && pair.1 == f.cause,
        }),
        !has_dollar(input@) ==> (r is Ok && r->Ok_0@ == input@),
        r matches Err(f) ==> var_result(env.deep_view(), f.var_name@) matches Err(c) && c == f.cause,
{
    match shellexpand::env_with_context(input, |name: &str| env_context(env, name)) {
        Ok(s) => Ok(s.into_owned()),
        Err(e) => Err(LookupFailure { var_name: e.var_name, cause: e.cause }),
    }
}

/// `path` with every `/` written as `\`.
pub open spec fn backslashed(path: Seq<char>) -> Seq<char> {
    path.map_values(|c: char| if c == '/' { '\\' } else { c })
}

/// The configured path as the platform writes it: on Windows, `/` becomes `\`.
pub open spec fn styled(style: PathStyle, path: Seq<char>) -> Seq<char> {
    if style == PathStyle::Windows {
        backslashed(path)
    } else {
        path
    }
}

/// `path` with every `/` written as `\`.
fn to_backslashes(path: &str) -> (r: String)
    ensures
        r@ == backslashed(path@),
{
    let len = path.unicode_len();
    let mut r = String::new();
    let mut i: usize = 0;
    proof {
        reveal_strlit("\\");
    }
    while i < len
        invariant
            i <= len,
            len == path@.len(),
            "\\"@ == seq!['\\'],
            r@ == backslashed(path@.take(i as int)),
        decreases len - i,
    {
        if path.get_char(i) == '/' {
            r.append("\\");
        } else {
            r.append(path.substring_char(i, i + 1));
        }
        i = i + 1;
        assert(r@ =~= backslashed(path@.take(i as int)));
    }
    assert(path@.take(len as int) =~= path@);
    r
}

/// What variable expansion gives for `t`: `t` itself when it holds no `$`,
/// otherwise the result of `env_with_context`, with only the reason of a failure.
pub open spec fn expansion(t: Seq<char>, env: EnvView) -> Result<Seq<char>, VarError> {
    if !has_dollar(t) {
        Ok(t)
    } else {
        match env_expanded(t, env) {
            Ok(s) => Ok(s),
            Err((_, cause)) => Err(cause),
        }
    }
}

/// What parsing gives once tilde expansion produced `t`: the variables expanded,
/// then the path made absolute against the working directory `cwd`.
pub open spec fn parsed_from(style: PathStyle, t: Seq<char>, env: EnvView, cwd: Seq<char>) -> Result<Seq<char>, VarError> {
    match expansion(t, env) {
        Ok(s) => Ok(absolutized(style, cwd, s)),
        Err(e) => Err(e),
    }
}

/// What parsing the configured path `path` gives: the path written as the platform
/// writes it, tilde expansion, variable expansion, and the path made absolute
/// against `cwd`.
pub open spec fn parsed(
    style: PathStyle,
    path: Seq<char>,
    home: Option<Seq<char>>,
    env: EnvView,
    cwd: Seq<char>,
) -> Result<Seq<char>, VarError> {
    parsed_from(style, tilde_expanded(style, styled(style, path), home), env, cwd)
}

/// The text of a path result.
pub open spec fn result_view(r: Result<String, VarError>) -> Result<Seq<char>, VarError> {
    match r {
        Ok(s) => Ok(s@),
        Err(e) => Err(e),
    }
}

/// The absolute path that a configured path names: on Windows `/` is first written
/// as `\`; a leading `~` becomes the home directory `home`; `$VAR` and `${VAR}`
/// references become the values of the variables in `env`; a path that is still
/// relative is taken from the working directory `cwd`. Fails with the reason when
/// a referenced variable cannot be read.
pub fn parse(
    style: PathStyle,
    path: &str,
    home: Option<String>,
    env: &Vec<(String, Option<String>)>,
    cwd: &str,
) -> (r: Result<String, VarError>)
    ensures
        result_view(r) == parsed(style, path@, home.deep_view(), env.deep_view(), cwd@),
{
    let p = match style {
        PathStyle::Windows => to_backslashes(path),
        PathStyle::Unix => path.to_owned(),
    };
    let t = expand_tilde(style, p.as_str(), home);
    match expand_env(t.as_str(), env) {
        Ok(s) => Ok(make_absolute(style, cwd, s.as_str())),
        Err(f) => Err(f.cause),
    }
}

} // verus!
