use vstd::prelude::*;

verus! {

/// Why an environment variable could not be read.
#[derive(Debug, Clone, Copy, PartialEq, Eq, Structural)]
pub enum VarError {
    /// No variable of that name is set.
    NotPresent,
    /// The variable is set, but its value is not valid Unicode.
    NotUnicode,
}

/// A snapshot of the environment: each variable's name and its value, where `None`
/// stands for a value that is not valid Unicode.
pub type EnvView = Seq<(Seq<char>, Option<Seq<char>>)>;

/// The value of the first variable named `name` in `env`, if there is one.
pub open spec fn env_lookup(env: EnvView, name: Seq<char>) -> Option<Option<Seq<char>>>
    decreases env.len(),
{
    if env.len() == 0 {
        None
    } else if env[0].0 == name {
        Some(env[0].1)
    } else {
        env_lookup(env.drop_first(), name)
    }
}

/// What reading the variable `name` from `env` gives (as `std::env::var` does).
pub open spec fn var_result(env: EnvView, name: Seq<char>) -> Result<Seq<char>, VarError> {
    match env_lookup(env, name) {
        Some(Some(v)) => Ok(v),
        Some(None) => Err(VarError::NotUnicode),
        None => Err(VarError::NotPresent),
    }
}

/// Reads the variable `name` from the environment snapshot `env`, as a lookup for
/// variable expansion: its value, or why it cannot be read.
pub fn env_context(env: &Vec<(String, Option<String>)>, name: &str) -> (r: Result<Option<String>, VarError>)
    ensures
        (match var_result(env.deep_view(), name@) {
            Ok(v) => r matches Ok(Some(s)) && s@ == v,
            Err(e) => r == Err::<Option<String>, VarError>(e),
        }),
{
    let ghost e = env.deep_view();
    let key = name.to_owned();
    let mut i: usize = 0;
    assert(e.skip(0) =~= e);
    while i < env.len()
        invariant
            i <= env.len(),
            e == env.deep_view(),
            key@ == name@,
            env_lookup(e, name@) == env_lookup(e.skip(i as int), name@),
        decreases env.len() - i,
    {
        assert(e.skip(i as int).drop_first() =~= e.skip(i + 1));
        assert(e.skip(i as int)[0] == e[i as int]);
        if env[i].0 == key {
            return match &env[i].1 {
                Some(v) => Ok(Some(v.clone())),
                None => Err(VarError::NotUnicode),
            };
        }
        i = i + 1;
    }
    Err(VarError::NotPresent)
}

} // verus!
