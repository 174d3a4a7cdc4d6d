use once::link::{check_row, link_is_valid, link_state, LinkState};
use once::paths::PathStyle;

fn entry(target: &str, path: &str, valid: bool) -> (String, String, bool) {
    (target.to_string(), path.to_string(), valid)
}

#[test]
fn output() {
    let data = vec![
        ("file1.txt".to_string(), "/link1".to_string(), true),
        ("file2.txt".to_string(), "/link2".to_string(), false),
    ];
    let links = LinkState::from_vec(data);
    println!("{}", links.render());
}

#[test]
fn render_two_links_exact() {
    let links = LinkState::from_vec(vec![
        entry("file1.txt", "/link1", true),
        entry("file2.txt", "/link2", false),
    ]);
    let expected = "=========================================\n\
| Target File | Symbolic Link |   Status   |\n\
|------------|--------------|------------|\n\
| file1.txt  | /link1       |  ✓ VALID   |\n\
| file2.txt  | /link2       |  ✗ BROKEN  |\n\
=========================================\n\
Total: 2 links (1 valid, 1 broken)\n";
    assert_eq!(links.render(), expected);
}

/// The same table computed with `format!`, as the `Display` of the tool writes it.
fn reference_render(data: &[(String, String, bool)]) -> String {
    let mut f = String::new();
    if data.is_empty() {
        f.push_str(&format!("No symbolic links found.")); f.push('\n');
        return f;
    }
    let (mt, mp) = data.iter().fold((0, 0), |(a, b), (t, p, _)| {
        (std::cmp::max(a, t.chars().count()), std::cmp::max(b, p.chars().count()))
    });
    let tw = std::cmp::max(mt, 10);
    let pw = std::cmp::max(mp, 12);
    let sw = 10;
    let total = tw + pw + sw + 9;
    f.push_str(&format!("{}", "=".repeat(total))); f.push('\n');
    f.push_str(&format!("| {:<tw$} | {:<pw$} | {:^sw$} |", "Target File", "Symbolic Link", "Status")); f.push('\n');
    f.push_str(&format!("|{}|{}|{}|", "-".repeat(tw + 2), "-".repeat(pw + 2), "-".repeat(sw + 2))); f.push('\n');
    for (t, p, v) in data {
        let status = if *v { "✓ VALID" } else { "✗ BROKEN" };
        f.push_str(&format!("| {:<tw$} | {:<pw$} | {:^sw$} |", t, p, status)); f.push('\n');
    }
    f.push_str(&format!("{}", "=".repeat(total))); f.push('\n');
    let valid = data.iter().filter(|e| e.2).count();
    f.push_str(&format!("Total: {} links ({} valid, {} broken)", data.len(), valid, data.len() - valid)); f.push('\n');
    f
}

#[test]
fn render_matches_format_for_long_and_wide_names() {
    let data = vec![
        entry("a-very-long-settings-file-name.conf", "/home/user/.config/app/settings.conf", true),
        entry("短", "/链接", false),
        entry("x", "/y", false),
        entry("config.toml", "/etc/tool/config.toml", true),
    ];
    let links = LinkState::from_vec(data.clone());
    assert_eq!(links.render(), reference_render(&data));
}

#[test]
fn render_empty_state() {
    let links = LinkState::from_vec(Vec::new());
    assert_eq!(links.render(), "No symbolic links found.\n");
    assert_eq!(links.render(), reference_render(&[]));
}

#[test]
fn counts_of_links() {
    let links = LinkState::from_vec(vec![
        entry("a", "/a", true),
        entry("b", "/b", false),
        entry("c", "/c", true),
        entry("d", "/d", true),
    ]);
    assert_eq!(links.len(), 4);
    assert_eq!(links.valid_count(), 3);
    assert_eq!(links.invalid_count(), 1);
    assert_eq!(links.valid_count() + links.invalid_count(), links.len());
}

#[test]
fn counts_of_empty_state() {
    let links = LinkState::from_vec(Vec::new());
    assert_eq!(links.len(), 0);
    assert_eq!(links.valid_count(), 0);
    assert_eq!(links.invalid_count(), 0);
}

#[test]
fn summary_counts_ten_and_more() {
    let mut data = Vec::new();
    for i in 0..12 {
        data.push(entry(&format!("f{}", i), &format!("/l{}", i), i % 4 != 0));
    }
    let text = LinkState::from_vec(data.clone()).render();
    assert!(text.ends_with("Total: 12 links (9 valid, 3 broken)\n"));
    assert_eq!(text, reference_render(&data));
}

#[test]
fn listing_rows() {
    let rows = link_state(&vec![entry("vimrc", "/home/u/.vimrc", true), entry("init.lua", "/x", false)]);
    assert_eq!(
        rows,
        vec![
            vec!["vimrc".to_string(), "/home/u/.vimrc".to_string(), "✅ Ok".to_string()],
            vec!["init.lua".to_string(), "/x".to_string(), "❌ Broken".to_string()],
        ]
    );
    assert!(link_state(&Vec::new()).is_empty());
}

#[test]
fn check_rows() {
    let ok = vec![entry("a", "/a", true), entry("b", "/b", true)];
    let broken = vec![entry("a", "/a", true), entry("b", "/b", false), entry("c", "/c", true)];
    assert_eq!(check_row(&"vim".to_string(), &ok), vec!["vim".to_string(), "true".to_string()]);
    assert_eq!(check_row(&"git".to_string(), &broken), vec!["git".to_string(), "false".to_string()]);
    assert_eq!(check_row(&"none".to_string(), &Vec::new()), vec!["none".to_string(), "true".to_string()]);
    let state = LinkState::from_vec(broken.clone());
    assert_eq!(state.invalid_count() == 0, check_row(&"git".to_string(), &broken)[1] == "true");
}

#[test]
fn link_verdicts() {
    let file = "/root/vim/settings/vimrc";
    assert!(link_is_valid(PathStyle::Unix, true, Some("/root/vim/settings/vimrc"), file));
    assert!(link_is_valid(PathStyle::Unix, true, Some("/root//vim/./settings/vimrc/"), file));
    assert!(!link_is_valid(PathStyle::Unix, true, Some("/root/vim/settings/gvimrc"), file));
    assert!(!link_is_valid(PathStyle::Unix, true, None, file));
    assert!(!link_is_valid(PathStyle::Unix, false, Some(file), file));
    assert!(link_is_valid(PathStyle::Windows, true, Some("c:\\once\\vim/settings\\vimrc"), "C:\\once\\vim\\settings\\vimrc"));
}
