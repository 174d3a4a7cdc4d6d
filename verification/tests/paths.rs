use once::env::{env_context, VarError};
use once::expand::parse;
use once::local::init;
use once::paths::{
    components, is_absolute_path, join, make_absolute, parse_env, replace_home, same_path,
    Component, PathStyle,
};
use once::store::{Conf, Program, Regstry};
use once::text::trim_end;

const UNIX: PathStyle = PathStyle::Unix;
const WINDOWS: PathStyle = PathStyle::Windows;

fn env(vars: &[(&str, Option<&str>)]) -> Vec<(String, Option<String>)> {
    vars.iter().map(|(k, v)| (k.to_string(), v.map(|s| s.to_string()))).collect()
}

#[test]
fn replace_home_0() {
    let result = replace_home(WINDOWS, "~/test", "C:\\Users\\34635");
    assert_eq!(result, "C:\\Users\\34635\\test");
}

#[test]
fn parse_env_0() {
    let e = env(&[("DriverData", Some("C:\\Windows\\System32\\Drivers\\DriverData"))]);
    let result = parse_env(WINDOWS, "$DriverData\\hi", &e);
    assert_eq!(result, Ok("C:\\Windows\\System32\\Drivers\\DriverData\\hi".to_string()));
}

#[test]
fn join_adds_separator() {
    assert_eq!(join(UNIX, "/root", "reg.toml"), "/root/reg.toml");
    assert_eq!(join(UNIX, "/root/", "reg.toml"), "/root/reg.toml");
    assert_eq!(join(UNIX, "", "a"), "a");
    assert_eq!(join(UNIX, "a", ""), "a/");
    assert_eq!(join(WINDOWS, "C:\\data", "reg.toml"), "C:\\data\\reg.toml");
    assert_eq!(join(WINDOWS, "C:/data/", "reg.toml"), "C:/data/reg.toml");
    assert_eq!(join(WINDOWS, "C:", "x"), "C:x");
}

#[test]
fn join_absolute_replaces() {
    assert_eq!(join(UNIX, "/root", "/etc/x"), "/etc/x");
    assert_eq!(join(WINDOWS, "C:\\root", "D:\\x"), "D:\\x");
    assert_eq!(join(WINDOWS, "C:\\root", "D:x"), "D:x");
    assert_eq!(join(WINDOWS, "C:\\root\\a", "\\x"), "C:\\x");
    assert_eq!(join(WINDOWS, "rel", "\\x"), "\\x");
}

#[test]
fn join_agrees_with_std() {
    for (a, b) in [("/a/b", "c"), ("a/", "b/c"), ("", "x"), ("x", ""), ("/", "y"), ("..", "."), ("/r", "/abs")] {
        let ours = join(UNIX, a, b);
        let std = std::path::Path::new(a).join(b);
        assert_eq!(ours, std.to_str().unwrap());
    }
}

#[test]
fn absolute_paths() {
    assert!(is_absolute_path(UNIX, "/a"));
    assert!(!is_absolute_path(UNIX, "a/b"));
    assert!(is_absolute_path(WINDOWS, "C:\\a"));
    assert!(is_absolute_path(WINDOWS, "c:/a"));
    assert!(!is_absolute_path(WINDOWS, "\\a"));
    assert!(!is_absolute_path(WINDOWS, "C:a"));
    assert_eq!(make_absolute(UNIX, "/home/u", "a/b"), "/home/u/a/b");
    assert_eq!(make_absolute(UNIX, "/home/u", "/etc"), "/etc");
    assert_eq!(make_absolute(WINDOWS, "C:\\work", "a\\b"), "C:\\work\\a\\b");
    assert_eq!(make_absolute(WINDOWS, "C:\\work", "\\top"), "C:\\top");
}

#[test]
fn drive_relative_paths_are_resolved() {
    assert_eq!(make_absolute(WINDOWS, "C:\\w", "D:x"), "D:\\x");
    assert_eq!(make_absolute(WINDOWS, "C:\\w", "c:x\\y"), "C:\\w\\x\\y");
    assert_eq!(make_absolute(WINDOWS, "C:\\w\\", "C:x"), "C:\\w\\x");
    assert_eq!(make_absolute(WINDOWS, "C:\\w", "C:"), "C:\\w");
    assert_eq!(make_absolute(WINDOWS, "C:\\w", "D:"), "D:\\");
    let e = env(&[]);
    assert_eq!(parse(WINDOWS, "D:x", None, &e, "C:\\w"), Ok("D:\\x".to_string()));
    for t in ["D:x", "C:x", "x", "\\x", "D:\\x", "D:"] {
        assert!(is_absolute_path(WINDOWS, &make_absolute(WINDOWS, "C:\\w", t)));
    }
}

#[test]
fn windows_root_is_written_with_backslash() {
    let e = env(&[]);
    assert_eq!(parse_env(WINDOWS, "C:\\a", &e), Ok("C:\\a".to_string()));
    assert_eq!(parse_env(WINDOWS, "C:/a/b", &e), Ok("C:\\a\\b".to_string()));
    assert_eq!(replace_home(WINDOWS, "~", "C:\\Users\\u"), "C:\\Users\\u");
}

#[test]
fn trim_end_removes_trailing_white_space() {
    assert_eq!(trim_end("/home/u/once \n\t"), "/home/u/once");
    assert_eq!(trim_end("  a b  "), "  a b");
    assert_eq!(trim_end("\u{3000}x\u{3000}\u{a0}"), "\u{3000}x");
    assert_eq!(trim_end(" \n"), "");
    assert_eq!(trim_end(""), "");
}

#[test]
fn env_lookup_results() {
    let e = env(&[("HOME", Some("/home/u")), ("BAD", None), ("HOME", Some("/other"))]);
    assert_eq!(env_context(&e, "HOME"), Ok(Some("/home/u".to_string())));
    assert_eq!(env_context(&e, "BAD"), Err(VarError::NotUnicode));
    assert_eq!(env_context(&e, "MISSING"), Err(VarError::NotPresent));
}

#[test]
fn replace_home_with_tilde() {
    assert_eq!(replace_home(UNIX, "~/test", "/home/u"), "/home/u/test");
    assert_eq!(replace_home(UNIX, "~//a/./b/", "/home/u"), "/home/u/a/b");
    assert_eq!(replace_home(UNIX, "~", "/home/u"), "/home/u");
    assert_eq!(replace_home(UNIX, "~/..", "/home/u"), "/home/u/..");
    assert_eq!(replace_home(WINDOWS, "~\\a\\b", "C:\\Users\\u"), "C:\\Users\\u\\a\\b");
}

#[test]
fn replace_home_keeps_other_paths() {
    assert_eq!(replace_home(UNIX, "/etc/~/x", "/home/u"), "/etc/~/x");
    assert_eq!(replace_home(UNIX, "~user/x", "/home/u"), "~user/x");
    assert_eq!(replace_home(UNIX, "a//b", "/home/u"), "a//b");
    assert_eq!(replace_home(WINDOWS, "C:\\~\\x", "C:\\Users\\u"), "C:\\~\\x");
}

#[test]
fn parse_env_replaces_variables() {
    let e = env(&[("CFG", Some("configs")), ("ABS", Some("/v")), ("BAD", None)]);
    assert_eq!(parse_env(UNIX, "/a/$CFG/b", &e), Ok("/a/configs/b".to_string()));
    assert_eq!(parse_env(UNIX, "/a/$ABS/b", &e), Ok("/v/b".to_string()));
    assert_eq!(parse_env(UNIX, "rel/./x", &e), Ok("rel/x".to_string()));
    assert_eq!(parse_env(UNIX, "./x", &e), Ok("./x".to_string()));
}

#[test]
fn parse_env_reports_missing_variable() {
    let e = env(&[("BAD", None)]);
    assert_eq!(parse_env(UNIX, "/a/$NOPE/$BAD", &e), Err("NOPE".to_string()));
    assert_eq!(parse_env(UNIX, "/a/$BAD", &e), Err("BAD".to_string()));
}

#[test]
fn parse_expands_tilde_and_variables() {
    let e = env(&[("X", Some("x value")), ("Y", Some("y"))]);
    let home = Some("/home/u".to_string());
    let cwd = "/work";
    assert_eq!(parse(UNIX, "~/a/$X/${Y}s", home.clone(), &e, cwd), Ok("/home/u/a/x value/ys".to_string()));
    assert_eq!(parse(UNIX, "~/once", home.clone(), &e, cwd), Ok("/home/u/once".to_string()));
    assert_eq!(parse(UNIX, "~", home.clone(), &e, cwd), Ok("/home/u".to_string()));
    assert_eq!(parse(UNIX, "/plain/path", home.clone(), &e, cwd), Ok("/plain/path".to_string()));
    assert_eq!(parse(UNIX, "${NOPE:-fallback}/z", home.clone(), &e, cwd), Ok("/work/fallback/z".to_string()));
}

#[test]
fn parse_makes_relative_paths_absolute() {
    let e = env(&[]);
    assert_eq!(parse(UNIX, "a/b", None, &e, "/work"), Ok("/work/a/b".to_string()));
    assert_eq!(parse(UNIX, "~other/x", Some("/h".to_string()), &e, "/work"), Ok("/work/~other/x".to_string()));
    assert_eq!(parse(UNIX, "~/x", None, &e, "/work"), Ok("/work/~/x".to_string()));
    assert_eq!(parse(WINDOWS, "a/b", None, &e, "C:\\work"), Ok("C:\\work\\a\\b".to_string()));
    assert_eq!(parse(WINDOWS, "D:/data", None, &e, "C:\\work"), Ok("D:\\data".to_string()));
}

#[test]
fn parse_reports_lookup_errors() {
    let e = env(&[("BAD", None)]);
    assert_eq!(parse(UNIX, "/a/$MISSING", None, &e, "/"), Err(VarError::NotPresent));
    assert_eq!(parse(UNIX, "/a/${BAD}", None, &e, "/"), Err(VarError::NotUnicode));
}

#[test]
fn conf_paths() {
    assert_eq!(Conf::path(UNIX, "/home/u/.config"), "/home/u/.config/once");
    let e = env(&[("R", Some("/data"))]);
    assert_eq!(Conf::root_dir(UNIX, "$R/once\n", None, &e, "/"), Ok("/data/once".to_string()));
    assert_eq!(Conf::root_dir(UNIX, "~/once  ", Some("/h".to_string()), &e, "/"), Ok("/h/once".to_string()));
    assert_eq!(Conf::root_dir(UNIX, "$NOPE", None, &e, "/"), Err(VarError::NotPresent));
}

#[test]
fn registry_add_is_idempotent() {
    let mut reg = Regstry { programs: vec!["vim".to_string()] };
    assert!(reg.add("git".to_string()));
    assert!(!reg.add("git".to_string()));
    assert!(!reg.add("vim".to_string()));
    assert_eq!(reg.programs, vec!["vim".to_string(), "git".to_string()]);
    assert_eq!(Regstry::path(UNIX, "/data/once"), "/data/once/reg.toml");
}

#[test]
fn program_paths() {
    assert_eq!(Program::dir(UNIX, "/data", "vim"), "/data/vim");
    assert_eq!(Program::record_path(UNIX, "/data", "vim"), "/data/vim/once.toml");
    assert_eq!(Program::record_path(WINDOWS, "C:\\data", "vim"), "C:\\data\\vim\\once.toml");
    let p = Program::new("vim".to_string(), vec![("vimrc".to_string(), "~/.vimrc".to_string())]);
    assert_eq!(p.settings_dir(UNIX, "/data/"), "/data/vim/settings");
    assert_eq!(p.get_name(), "vim");
    assert_eq!(p.get_links().len(), 1);
}

#[test]
fn program_record_round_trip() {
    let p = Program::from_record("vim".to_string(), "vimrc = \"~/.vimrc\"\n\"init.lua\" = \"/x\"\n").unwrap();
    let mut links = p.get_links().clone();
    links.sort();
    assert_eq!(links, vec![("init.lua".to_string(), "/x".to_string()), ("vimrc".to_string(), "~/.vimrc".to_string())]);
    let text = p.record_text();
    let q = Program::from_record("vim".to_string(), &text).unwrap();
    let mut again = q.get_links().clone();
    again.sort();
    assert_eq!(again, links);
    assert!(Program::from_record("vim".to_string(), "a = 1").is_none());
    assert!(Program::from_record("vim".to_string(), "not toml").is_none());
    assert!(Program::from_record("vim".to_string(), "").unwrap().get_links().is_empty());
}

#[test]
fn program_set_and_add_links() {
    let mut p = Program::from_record("vim".to_string(), "vimrc = \"/old\"").unwrap();
    assert_eq!(p.set_link("vimrc", "/new"), Some("/old".to_string()));
    assert_eq!(p.set_link("missing", "/x"), None);
    assert_eq!(p.get_links(), &vec![("vimrc".to_string(), "/new".to_string())]);
    p.add_link("gvimrc".to_string(), "/g".to_string());
    p.add_link("vimrc".to_string(), "/newer".to_string());
    assert_eq!(
        p.get_links(),
        &vec![("vimrc".to_string(), "/newer".to_string()), ("gvimrc".to_string(), "/g".to_string())]
    );
}

#[test]
fn init_plans_files() {
    let e = env(&[("D", Some("/data"))]);
    let plan = init(UNIX, "$D/once", None, &e, "/work", "/home/u/.config").unwrap();
    assert_eq!(plan.root, "/data/once");
    assert_eq!(plan.registry_file, "/data/once/reg.toml");
    assert_eq!(plan.config_file, "/home/u/.config/once");
    assert_eq!(plan.config_contents, "$D/once");
    assert!(matches!(init(UNIX, "$NOPE", None, &e, "/work", "/c"), Err(VarError::NotPresent)));
}

fn component_text(c: &Component) -> String {
    match c {
        Component::Prefix(s) => s.clone(),
        Component::RootDir => "/".to_string(),
        Component::CurDir => ".".to_string(),
        Component::ParentDir => "..".to_string(),
        Component::Normal(s) => s.clone(),
    }
}

#[test]
fn components_agree_with_std() {
    let cases = [
        "", "/", "//a//b/", "./x", ".", "./.", "a/./b/../c", "..", "~/t", "/./a", ".hidden/x", "a/.",
        "../..", "~", "a b/c d", "C:\\x",
    ];
    for p in cases {
        let ours: Vec<String> = components(UNIX, p).iter().map(component_text).collect();
        let std: Vec<String> =
            std::path::Path::new(p).components().map(|c| c.as_os_str().to_str().unwrap().to_string()).collect();
        assert_eq!(ours, std, "components of {:?}", p);
    }
}

#[test]
fn windows_components() {
    let texts = |p: &str| -> Vec<String> { components(WINDOWS, p).iter().map(component_text).collect() };
    assert_eq!(texts("C:\\Users\\u\\"), vec!["C:", "/", "Users", "u"]);
    assert_eq!(texts("c:/a//b"), vec!["c:", "/", "a", "b"]);
    assert_eq!(texts("C:a"), vec!["C:", "a"]);
    assert_eq!(texts("C:.\\a"), vec!["C:", ".", "a"]);
    assert_eq!(texts(".\\a\\..\\b"), vec![".", "a", "..", "b"]);
    assert_eq!(texts("\\x"), vec!["/", "x"]);
}

#[test]
fn components_of_relative_and_absolute_paths() {
    let c = components(UNIX, "/home//u/./x/");
    assert_eq!(c.len(), 4);
    assert!(matches!(c[0], Component::RootDir));
    assert!(matches!(&c[3], Component::Normal(s) if s == "x"));
    let c = components(UNIX, "./..");
    assert!(matches!(c[0], Component::CurDir));
    assert!(matches!(c[1], Component::ParentDir));
}

#[test]
fn same_path_compares_components() {
    assert!(same_path(UNIX, "/a//b/", "/a/b"));
    assert!(same_path(UNIX, "a/./b", "a/b"));
    assert!(!same_path(UNIX, "/a/b", "a/b"));
    assert!(!same_path(UNIX, "a/../b", "b"));
    assert!(!same_path(UNIX, "./a", "a"));
    assert!(same_path(WINDOWS, "c:\\a/b", "C:/a\\b"));
    assert!(!same_path(WINDOWS, "C:\\a", "D:\\a"));
    assert!(!same_path(WINDOWS, "C:\\A", "C:\\a"));
    for (x, y) in [("/a//b/", "/a/b"), ("a/./b", "a/b"), ("/a/b", "a/b"), ("./a", "a"), ("x/y", "x/z")] {
        assert_eq!(same_path(UNIX, x, y), std::path::Path::new(x) == std::path::Path::new(y));
    }
}

#[test]
fn recorded_root_reads_back_as_parsed() {
    let e = env(&[("D", Some("/data"))]);
    let home = Some("/home/u".to_string());
    for root in ["$D/once", "~/once", "rel/dir", "/abs"] {
        let plan = init(UNIX, root, home.clone(), &e, "/work", "/home/u/.config").unwrap();
        let record = format!("{}\n", plan.config_contents);
        let read_back = Conf::root_dir(UNIX, &record, home.clone(), &e, "/work");
        assert_eq!(read_back, parse(UNIX, &trim_end(&record), home.clone(), &e, "/work"));
        assert_eq!(read_back, Ok(plan.root.clone()));
    }
}

#[test]
fn tilde_follows_the_path_style() {
    let e = env(&[]);
    let home = Some("C:\\Users\\u".to_string());
    assert_eq!(parse(WINDOWS, "~/once", home.clone(), &e, "C:\\w"), Ok("C:\\Users\\u\\once".to_string()));
    assert_eq!(parse(WINDOWS, "~\\once", home.clone(), &e, "C:\\w"), Ok("C:\\Users\\u\\once".to_string()));
    assert_eq!(parse(WINDOWS, "~", home, &e, "C:\\w"), Ok("C:\\Users\\u".to_string()));
    let home = Some("/h".to_string());
    assert_eq!(parse(UNIX, "~\\x", home.clone(), &e, "/w"), Ok("/w/~\\x".to_string()));
    assert_eq!(parse(UNIX, "~x", home, &e, "/w"), Ok("/w/~x".to_string()));
}
