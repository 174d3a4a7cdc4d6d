use vstd::prelude::*;

use crate::env::VarError;
use crate::expand::{parse, parsed};
use crate::paths::{joined, PathStyle};
use crate::store::{Conf, Regstry};

verus! {

/// What setting up the tool writes: the root directory as parsed, the empty
/// registry file to create there, and the record of the root directory (the
/// text as given) in the configuration directory.
#[derive(Debug)]
pub struct InitPlan {
    pub root: String,
    pub registry_file: String,
    pub config_file: String,
    pub config_contents: String,
}

/// Plans setting up the tool with the root directory `root_dir`: the root is
/// parsed as `parse` does (home directory `home`, variables `env`, working
/// directory `cwd`), the registry file lies in it, and the configuration record
/// in `config_dir` keeps `root_dir` as given. Fails when the root directory cannot
/// be parsed.
pub fn init(
    style: PathStyle,
    root_dir: &str,
    home: Option<String>,
    env: &Vec<(String, Option<String>)>,
    cwd: &str,
    config_dir: &str,
) -> (r: Result<InitPlan, VarError>)
    ensures
        (match r {
            Ok(plan) => {
                &&& parsed(style, root_dir@, home.deep_view(), env.deep_view(), cwd@) == Ok::<Seq<char>, VarError>(plan.root@)
                &&& plan.registry_file@ == joined(style, plan.root@, "reg.toml"@)
                &&& plan.config_file@ == joined(style, config_dir@, "once"@)
                &&& plan.config_contents@ == root_dir@
            },
            Err(e) => parsed(style, root_dir@, home.deep_view(), env.deep_view(), cwd@) == Err::<Seq<char>, VarError>(e),
        }),
{
    match parse(style, root_dir, home, env, cwd) {
        Ok(root) => {
            let registry_file = Regstry::path(style, root.as_str());
            let config_file = Conf::path(style, config_dir);
            let config_contents = root_dir.to_owned();
            Ok(InitPlan { root, registry_file, config_file, config_contents })
        },
        Err(e) => Err(e),
    }
}

} // verus!
