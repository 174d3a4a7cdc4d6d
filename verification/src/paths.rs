use vstd::prelude::*;

use crate::env::{env_context, var_result, EnvView};

verus! {

/// The path syntax of a platform: Unix paths separate components by `/`; Windows
/// paths by `\` or `/`, may start with a drive such as `C:`, and are written with `\`.
#[derive(Debug, Clone, Copy, PartialEq, Eq, Structural)]
pub enum PathStyle {
    Unix,
    Windows,
}

/// Whether `c` separates path components.
pub open spec fn is_sep(style: PathStyle, c: char) -> bool {
    c == '/' || (style == PathStyle::Windows && c == '\\')
}

/// The separator that joining paths writes.
pub open spec fn main_sep(style: PathStyle) -> char {
    if style == PathStyle::Windows {
        '\\'
    } else {
        '/'
    }
}

/// Whether `c` is an ASCII letter.
pub open spec fn is_ascii_letter(c: char) -> bool {
    ('a' as u32 <= c as u32 <= 'z' as u32) || ('A' as u32 <= c as u32 <= 'Z' as u32)
}

/// The length of the drive prefix (`C:`) that starts a Windows path; 0 when there
/// is none, and always 0 for Unix paths. Other Windows prefixes (`\\server\share`,
/// `\\?\`) are not recognised: such paths read as paths from the root.
pub open spec fn prefix_len(style: PathStyle, p: Seq<char>) -> nat {
    if style == PathStyle::Windows && p.len() >= 2 && p[1] == ':' && is_ascii_letter(p[0]) {
        2
    } else {
        0
    }
}

/// Whether `p` has a root: a separator right after its prefix.
pub open spec fn has_root(style: PathStyle, p: Seq<char>) -> bool {
    prefix_len(style, p) < p.len() && is_sep(style, p[prefix_len(style, p) as int])
}

/// Whether `p` is absolute: it has a root, and on Windows also a drive.
pub open spec fn is_absolute(style: PathStyle, p: Seq<char>) -> bool {
    has_root(style, p) && (style == PathStyle::Unix || prefix_len(style, p) > 0)
}

/// The text of `base` after `PathBuf::push(p)`: a path with a drive, or an
/// absolute one, replaces `base`; a path with a root but no drive keeps the drive
/// of `base`; otherwise `p` is added after a separator, unless `base` is empty,
/// ends in a separator, or is only a drive.
pub open spec fn joined(style: PathStyle, base: Seq<char>, p: Seq<char>) -> Seq<char> {
    if prefix_len(style, p) > 0 || (style == PathStyle::Unix && has_root(style, p)) {
        p
    } else if has_root(style, p) {
        base.take(prefix_len(style, base) as int) + p
    } else if base.len() > 0 && !is_sep(style, base.last()) && !(prefix_len(style, base) > 0
        && prefix_len(style, base) == base.len()) {
        base.push(main_sep(style)) + p
    } else {
        base + p
    }
}

fn is_sep_exec(style: PathStyle, c: char) -> (b: bool)
    ensures
        b == is_sep(style, c),
{
    c == '/' || (style == PathStyle::Windows && c == '\\')
}

fn sep_str(style: PathStyle) -> (s: &'static str)
    ensures
        s@ == seq![main_sep(style)],
{
    proof {
        reveal_strlit("/");
        reveal_strlit("\\");
    }
    match style {
        PathStyle::Unix => "/",
        PathStyle::Windows => "\\",
    }
}

fn prefix_len_of(style: PathStyle, s: &str) -> (k: usize)
    ensures
        k == prefix_len(style, s@),
{
    if style == PathStyle::Windows && s.unicode_len() >= 2 && s.get_char(1) == ':' {
        let c = s.get_char(0) as u32;
        if ('a' as u32 <= c && c <= 'z' as u32) || ('A' as u32 <= c && c <= 'Z' as u32) {
            return 2;
        }
    }
    0
}

fn has_root_exec(style: PathStyle, s: &str) -> (b: bool)
    ensures
        b == has_root(style, s@),
{
    let k = prefix_len_of(style, s);
    k < s.unicode_len() && is_sep_exec(style, s.get_char(k))
}

/// Whether the path `p` is absolute.
pub fn is_absolute_path(style: PathStyle, p: &str) -> (b: bool)
    ensures
        b == is_absolute(style, p@),
{
    has_root_exec(style, p) && (style == PathStyle::Unix || prefix_len_of(style, p) > 0)
}

/// The path `base` with `p` pushed onto it (`Path::join`).
pub fn join(style: PathStyle, base: &str, p: &str) -> (r: String)
    ensures
        r@ == joined(style, base@, p@),
{
    let pk = prefix_len_of(style, p);
    let p_root = has_root_exec(style, p);
    if pk > 0 || (style == PathStyle::Unix && p_root) {
        return p.to_owned();
    }
    if p_root {
        let bk = prefix_len_of(style, base);
        let mut r = base.substring_char(0, bk).to_owned();
        r.append(p);
        assert(r@ =~= joined(style, base@, p@));
        return r;
    }
    let base_len = base.unicode_len();
    let bk = prefix_len_of(style, base);
    let mut r = base.to_owned();
    if base_len > 0 && !is_sep_exec(style, base.get_char(base_len - 1)) && !(bk > 0 && bk
        == base_len) {
        r.append(sep_str(style));
    }
    r.append(p);
    assert(r@ =~= joined(style, base@, p@));
    r
}

/// Whether `a` and `b` both start with a drive, and with the same drive letter
/// (without regard to its case).
pub open spec fn same_drive(style: PathStyle, a: Seq<char>, b: Seq<char>) -> bool {
    prefix_len(style, a) > 0 && prefix_len(style, b) > 0 && upper_code(a[0]) == upper_code(b[0])
}

/// `rest` added below the directory `dir`, after a separator unless `dir` ends in one.
pub open spec fn below(style: PathStyle, dir: Seq<char>, rest: Seq<char>) -> Seq<char> {
    if rest.len() == 0 {
        dir
    } else if dir.len() > 0 && is_sep(style, dir.last()) {
        dir + rest
    } else {
        dir.push(main_sep(style)) + rest
    }
}

/// `t` made absolute: kept when it is absolute; a path with a drive but no root
/// (`D:x`) taken from the working directory `cwd` when that is on the same drive,
/// otherwise from the root of its drive (`D:\x`); any other path pushed onto `cwd`.
pub open spec fn absolutized(style: PathStyle, cwd: Seq<char>, t: Seq<char>) -> Seq<char> {
    if is_absolute(style, t) {
        t
    } else if drive_relative(style, t) {
        if same_drive(style, cwd, t) {
            below(style, cwd, t.skip(2))
        } else {
            t.take(2).push(main_sep(style)) + t.skip(2)
        }
    } else {
        joined(style, cwd, t)
    }
}

/// The path `t`, made absolute against the working directory `cwd`.
pub fn make_absolute(style: PathStyle, cwd: &str, t: &str) -> (r: String)
    ensures
        r@ == absolutized(style, cwd@, t@),
{
    if is_absolute_path(style, t) {
        return t.to_owned();
    }
    let tk = prefix_len_of(style, t);
    if tk == 0 {
        return join(style, cwd, t);
    }
    let len = t.unicode_len();
    let rest = t.substring_char(2, len);
    assert(rest@ =~= t@.skip(2));
    let ck = prefix_len_of(style, cwd);
    if ck > 0 && upper_code_exec(cwd.get_char(0)) == upper_code_exec(t.get_char(0)) {
        let cl = cwd.unicode_len();
        let mut r = cwd.to_owned();
        if rest.unicode_len() > 0 {
            if !is_sep_exec(style, cwd.get_char(cl - 1)) {
                r.append(sep_str(style));
            }
            r.append(rest);
        }
        assert(r@ =~= absolutized(style, cwd@, t@));
        r
    } else {
        let mut r = t.substring_char(0, 2).to_owned();
        r.append(sep_str(style));
        r.append(rest);
        assert(r@ =~= absolutized(style, cwd@, t@));
        r
    }
}

/// A path with a drive but no root (such as `D:x` on Windows), which is relative
/// to the working directory of that drive.
pub open spec fn drive_relative(style: PathStyle, t: Seq<char>) -> bool {
    prefix_len(style, t) > 0 && !has_root(style, t)
}

/// The prefix and root of a path survive anything added at its end.
proof fn lemma_absolute_extends(style: PathStyle, p: Seq<char>, q: Seq<char>)
    requires
        is_absolute(style, p),
    ensures
        is_absolute(style, p + q),
{
    let k = prefix_len(style, p);
    assert((p + q)[k as int] == p[k as int]);
    if k > 0 {
        assert((p + q)[0] == p[0]);
        assert((p + q)[1] == p[1]);
    }
}

/// Made absolute against an absolute working directory, every path is absolute.
pub proof fn lemma_absolutized_is_absolute(style: PathStyle, cwd: Seq<char>, t: Seq<char>)
    requires
        is_absolute(style, cwd),
    ensures
        is_absolute(style, absolutized(style, cwd, t)),
{
    if !is_absolute(style, t) {
        let k = prefix_len(style, cwd);
        if drive_relative(style, t) {
            let rest = t.skip(2);
            if same_drive(style, cwd, t) {
                if rest.len() == 0 {
                } else if cwd.len() > 0 && is_sep(style, cwd.last()) {
                    lemma_absolute_extends(style, cwd, rest);
                } else {
                    assert(cwd.push(main_sep(style)) + rest =~= cwd + (seq![main_sep(style)] + rest));
                    lemma_absolute_extends(style, cwd, seq![main_sep(style)] + rest);
                }
            } else {
                let r = t.take(2).push(main_sep(style)) + rest;
                assert(r[0] == t[0] && r[1] == t[1] && r[2] == main_sep(style));
            }
        } else if prefix_len(style, t) > 0 || (style == PathStyle::Unix && has_root(style, t)) {
        } else if has_root(style, t) {
            let r = cwd.take(k as int) + t;
            assert(k == 2);
            assert(r[0] == cwd[0] && r[1] == cwd[1]);
            assert(r[2] == t[0]);
        } else if cwd.len() > 0 && !is_sep(style, cwd.last()) && !(k > 0 && k == cwd.len()) {
            assert(cwd.push(main_sep(style)) + t =~= cwd + (seq![main_sep(style)] + t));
            lemma_absolute_extends(style, cwd, seq![main_sep(style)] + t);
        } else {
            lemma_absolute_extends(style, cwd, t);
        }
    }
}

/// One component of a path.
#[derive(Debug)]
pub enum Component {
    /// A Windows drive, such as `C:`.
    Prefix(String),
    /// The root directory: a separator at the start of the path (after a drive).
    RootDir,
    /// `.` at the start of a relative path.
    CurDir,
    /// `..`.
    ParentDir,
    /// A file or directory name.
    Normal(String),
}

/// What a path component stands for, with its text as characters.
pub enum PathPart {
    Prefix(Seq<char>),
    RootDir,
    CurDir,
    ParentDir,
    Normal(Seq<char>),
}

impl DeepView for Component {
    type V = PathPart;

    open spec fn deep_view(&self) -> PathPart {
        match self {
            Component::Prefix(s) => PathPart::Prefix(s@),
            Component::RootDir => PathPart::RootDir,
            Component::CurDir => PathPart::CurDir,
            Component::ParentDir => PathPart::ParentDir,
            Component::Normal(s) => PathPart::Normal(s@),
        }
    }
}

/// The component that a piece of a path between two separators stands for: none
/// for an empty piece or `.`, the parent for `..`, and a name otherwise.
pub open spec fn piece_part(piece: Seq<char>) -> Seq<PathPart> {
    if piece.len() == 0 || piece == "."@ {
        seq![]
    } else if piece == ".."@ {
        seq![PathPart::ParentDir]
    } else {
        seq![PathPart::Normal(piece)]
    }
}

/// Reading `s` from the start: the components of the pieces that a separator has
/// closed, and the piece still open.
pub open spec fn scan_pieces(style: PathStyle, s: Seq<char>) -> (Seq<PathPart>, Seq<char>)
    decreases s.len(),
{
    if s.len() == 0 {
        (seq![], seq![])
    } else {
        let (parts, open) = scan_pieces(style, s.drop_last());
        if is_sep(style, s.last()) {
            (parts + piece_part(open), seq![])
        } else {
            (parts, open.push(s.last()))
        }
    }
}

/// The components of the pieces of `s`.
pub open spec fn body_parts(style: PathStyle, s: Seq<char>) -> Seq<PathPart> {
    scan_pieces(style, s).0 + piece_part(scan_pieces(style, s).1)
}

/// The components of the path `p`, as `std::path::Path::components` gives them:
/// the drive, if any; the root when a separator follows; `.` for a path without
/// root that starts with `.` alone; then the names and `..` between the separators,
/// where repeated separators, `.` and a trailing separator add nothing.
pub open spec fn path_components(style: PathStyle, p: Seq<char>) -> Seq<PathPart> {
    let k = prefix_len(style, p);
    let rest = p.skip(k as int);
    let front: Seq<PathPart> = if k > 0 {
        seq![PathPart::Prefix(p.take(k as int))]
    } else {
        seq![]
    };
    if rest.len() > 0 && is_sep(style, rest[0]) {
        front + seq![PathPart::RootDir] + body_parts(style, rest.skip(1))
    } else if rest.len() > 0 && rest[0] == '.' && (rest.len() == 1 || is_sep(style, rest[1])) {
        front + seq![PathPart::CurDir] + body_parts(style, rest.skip(1))
    } else {
        front + body_parts(style, rest)
    }
}

/// The component that `piece` stands for, if any.
fn piece_component(piece: &str) -> (r: Option<Component>)
    ensures
        (match r {
            Some(c) => piece_part(piece@) == seq![c.deep_view()],
            None => piece_part(piece@) == Seq::<PathPart>::empty(),
        }),
{
    let text = piece.to_owned();
    if piece.unicode_len() == 0 || text == String::from_str(".") {
        None
    } else if text == String::from_str("..") {
        Some(Component::ParentDir)
    } else {
        Some(Component::Normal(text))
    }
}

/// Appends the component of `piece`, if any, to `parts`.
fn push_piece(parts: &mut Vec<Component>, piece: &str)
    ensures
        final(parts).deep_view() == old(parts).deep_view() + piece_part(piece@),
{
    match piece_component(piece) {
        Some(c) => {
            parts.push(c);
            assert(parts.deep_view() =~= old(parts).deep_view() + piece_part(piece@));
        },
        None => {
            assert(parts.deep_view() =~= old(parts).deep_view() + piece_part(piece@));
        },
    }
}

/// The components of the part of `path` from character `start` on.
fn body_components(style: PathStyle, path: &str, start: usize) -> (r: Vec<Component>)
    requires
        start <= path@.len(),
    ensures
        r.deep_view() == body_parts(style, path@.skip(start as int)),
{
    let ghost b = path@.skip(start as int);
    let len = path.unicode_len();
    let mut parts: Vec<Component> = Vec::new();
    let mut piece_start = start;
    let mut i = start;
    assert(b.take(0) =~= Seq::<char>::empty());
    while i < len
        invariant
            start <= piece_start <= i <= len,
            len == path@.len(),
            b == path@.skip(start as int),
            scan_pieces(style, b.take(i - start)) == (
                parts.deep_view(),
                path@.subrange(piece_start as int, i as int),
            ),
        decreases len - i,
    {
        assert(b.take(i - start + 1).drop_last() =~= b.take(i - start));
        assert(b.take(i - start + 1).last() == path@[i as int]);
        if is_sep_exec(style, path.get_char(i)) {
            let piece = path.substring_char(piece_start, i);
            push_piece(&mut parts, piece);
            piece_start = i + 1;
            i = i + 1;
            assert(path@.subrange(piece_start as int, i as int) =~= Seq::<char>::empty());
        } else {
            i = i + 1;
            assert(path@.subrange(piece_start as int, i as int) =~= path@.subrange(
                piece_start as int,
                i - 1,
            ).push(path@[i - 1]));
        }
    }
    assert(b.take(i - start) =~= b);
    let piece = path.substring_char(piece_start, len);
    push_piece(&mut parts, piece);
    parts
}

/// The components of the path `path` (see `path_components`).
pub fn components(style: PathStyle, path: &str) -> (r: Vec<Component>)
    ensures
        r.deep_view() == path_components(style, path@),
{
    let ghost p = path@;
    let len = path.unicode_len();
    let k = prefix_len_of(style, path);
    let ghost rest = p.skip(k as int);
    let mut r: Vec<Component> = Vec::new();
    if k > 0 {
        r.push(Component::Prefix(path.substring_char(0, k).to_owned()));
    }
    let ghost front = r.deep_view();
    assert(front =~= (if k > 0 {
        seq![PathPart::Prefix(p.take(k as int))]
    } else {
        Seq::<PathPart>::empty()
    }));
    if k < len && is_sep_exec(style, path.get_char(k)) {
        r.push(Component::RootDir);
        let mut body = body_components(style, path, k + 1);
        let ghost bv = body.deep_view();
        r.append(&mut body);
        assert(rest.skip(1) =~= p.skip(k + 1));
        assert(r.deep_view() =~= front + seq![PathPart::RootDir] + bv);
    } else if k < len && path.get_char(k) == '.' && (k + 1 == len || is_sep_exec(
        style,
        path.get_char(k + 1),
    )) {
        r.push(Component::CurDir);
        let mut body = body_components(style, path, k + 1);
        let ghost bv = body.deep_view();
        r.append(&mut body);
        assert(rest.skip(1) =~= p.skip(k + 1));
        assert(r.deep_view() =~= front + seq![PathPart::CurDir] + bv);
    } else {
        let mut body = body_components(style, path, k);
        let ghost bv = body.deep_view();
        r.append(&mut body);
        assert(r.deep_view() =~= front + bv);
    }
    r
}

/// The upper-case code of an ASCII letter; any other character's own code.
pub open spec fn upper_code(c: char) -> u32 {
    if 'a' as u32 <= c as u32 <= 'z' as u32 {
        (c as u32 - 32) as u32
    } else {
        c as u32
    }
}

/// Whether two components are the same: drives compare without regard to the
/// case of their letter, everything else as written.
pub open spec fn same_part(a: PathPart, b: PathPart) -> bool {
    match (a, b) {
        (PathPart::Prefix(x), PathPart::Prefix(y)) => x.len() == y.len() && (x.len() > 0 ==> upper_code(x[0]) == upper_code(y[0])),
        _ => a == b,
    }
}

/// Whether two component lists are the same, component by component.
pub open spec fn same_parts(a: Seq<PathPart>, b: Seq<PathPart>) -> bool {
    a.len() == b.len() && forall|i: int| 0 <= i < a.len() ==> same_part(#[trigger] a[i], b[i])
}

fn upper_code_exec(c: char) -> (u: u32)
    ensures
        u == upper_code(c),
{
    let u = c as u32;
    if 'a' as u32 <= u && u <= 'z' as u32 {
        u - 32
    } else {
        u
    }
}

/// Whether two components are the same.
fn same_component(a: &Component, b: &Component) -> (r: bool)
    ensures
        r == same_part(a.deep_view(), b.deep_view()),
{
    match (a, b) {
        (Component::Prefix(x), Component::Prefix(y)) => {
            let xl = x.as_str().unicode_len();
            if xl != y.as_str().unicode_len() {
                false
            } else if xl == 0 {
                true
            } else {
                upper_code_exec(x.as_str().get_char(0)) == upper_code_exec(y.as_str().get_char(0))
            }
        },
        (Component::RootDir, Component::RootDir) => true,
        (Component::CurDir, Component::CurDir) => true,
        (Component::ParentDir, Component::ParentDir) => true,
        (Component::Normal(x), Component::Normal(y)) => *x == *y,
        _ => false,
    }
}

/// Whether `a` and `b` name the same path: they have the same components (how
/// `Path` compares paths), so that `a//b/` and `a/b` are the same path.
pub fn same_path(style: PathStyle, a: &str, b: &str) -> (r: bool)
    ensures
        r == same_parts(path_components(style, a@), path_components(style, b@)),
{
    let ca = components(style, a);
    let cb = components(style, b);
    let ghost va = ca.deep_view();
    let ghost vb = cb.deep_view();
    if ca.len() != cb.len() {
        return false;
    }
    let mut i: usize = 0;
    while i < ca.len()
        invariant
            i <= ca.len(),
            ca.len() == cb.len(),
            va == ca.deep_view(),
            vb == cb.deep_view(),
            va == path_components(style, a@),
            vb == path_components(style, b@),
            forall|j: int| 0 <= j < i ==> same_part(#[trigger] va[j], vb[j]),
        decreases ca.len() - i,
    {
        if !same_component(&ca[i], &cb[i]) {
            assert(!same_part(va[i as int], vb[i as int]));
            return false;
        }
        i = i + 1;
    }
    true
}

/// The text that pushing a component onto a path adds (`Component::as_os_str`).
pub open spec fn part_text(style: PathStyle, p: PathPart) -> Seq<char> {
    match p {
        PathPart::Prefix(s) => s,
        PathPart::RootDir => seq![main_sep(style)],
        PathPart::CurDir => "."@,
        PathPart::ParentDir => ".."@,
        PathPart::Normal(s) => s,
    }
}

/// The text of the component `c`.
fn component_text(style: PathStyle, c: &Component) -> (r: String)
    ensures
        r@ == part_text(style, c.deep_view()),
{
    match c {
        Component::Prefix(s) => s.clone(),
        Component::RootDir => sep_str(style).to_owned(),
        Component::CurDir => String::from_str("."),
        Component::ParentDir => String::from_str(".."),
        Component::Normal(s) => s.clone(),
    }
}

/// `base` with each of `parts` pushed onto it in turn.
pub open spec fn pushed_all(style: PathStyle, base: Seq<char>, parts: Seq<PathPart>) -> Seq<char>
    decreases parts.len(),
{
    if parts.len() == 0 {
        base
    } else {
        joined(style, pushed_all(style, base, parts.drop_last()), part_text(style, parts.last()))
    }
}

/// `path` with a leading `~` component replaced by the home directory `home`;
/// any other path unchanged.
pub open spec fn home_replaced(style: PathStyle, path: Seq<char>, home: Seq<char>) -> Seq<char> {
    let c = path_components(style, path);
    if c.len() > 0 && c[0] == PathPart::Normal("~"@) {
        pushed_all(style, home, c.skip(1))
    } else {
        path
    }
}

/// A path that does not start with a `~` component is left as it is.
pub proof fn lemma_replace_home_keeps_other_paths(style: PathStyle, path: Seq<char>, home: Seq<char>)
    requires
        !(path_components(style, path).len() > 0 && path_components(style, path)[0]
            == PathPart::Normal("~"@)),
    ensures
        home_replaced(style, path, home) == path,
{
}

/// Replaces the leading `~` of `path` by the home directory `home`: when the first
/// component of `path` is `~`, the result is `home` with the other components
/// pushed onto it; otherwise it is `path` itself.
pub fn replace_home(style: PathStyle, path: &str, home: &str) -> (r: String)
    ensures
        r@ == home_replaced(style, path@, home@),
{
    let components = components(style, path);
    let ghost c = components.deep_view();
    let tilde = String::from_str("~");
    let starts_with_tilde = if components.len() > 0 {
        match &components[0] {
            Component::Normal(first) => *first == tilde,
            _ => false,
        }
    } else {
        false
    };
    if !starts_with_tilde {
        proof {
            if c.len() > 0 && c[0] == PathPart::Normal("~"@) {
                assert(components@[0].deep_view() == c[0]);
            }
        }
        return path.to_owned();
    }
    let mut new_path = home.to_owned();
    let mut i: usize = 1;
    while i < components.len()
        invariant
            1 <= i <= components.len(),
            c == components.deep_view(),
            new_path@ == pushed_all(style, home@, c.skip(1).take(i - 1)),
        decreases components.len() - i,
    {
        assert(c.skip(1).take(i as int).drop_last() =~= c.skip(1).take(i - 1));
        assert(c.skip(1).take(i as int).last() == components@[i as int].deep_view());
        let text = component_text(style, &components[i]);
        new_path = join(style, new_path.as_str(), text.as_str());
        i = i + 1;
    }
    assert(c.skip(1).take(i - 1) =~= c.skip(1));
    new_path
}

/// Pushes one component onto `acc`, a component `$NAME` by the value of the
/// variable `NAME`, which must be readable, or else the name that failed.
pub open spec fn env_step(style: PathStyle, acc: Seq<char>, part: PathPart, env: EnvView) -> Result<Seq<char>, Seq<char>> {
    match part {
        PathPart::Normal(s) => if s.len() > 0 && s[0] == '$' {
            match var_result(env, s.skip(1)) {
                Ok(v) => Ok(joined(style, acc, v)),
                Err(_) => Err(s.skip(1)),
            }
        } else {
            Ok(joined(style, acc, s))
        },
        _ => Ok(joined(style, acc, part_text(style, part))),
    }
}

/// The path built from `parts` with each `$NAME` component replaced by the value of
/// `NAME`, or the name of the first variable that cannot be read.
pub open spec fn env_resolved(style: PathStyle, parts: Seq<PathPart>, env: EnvView) -> Result<Seq<char>, Seq<char>>
    decreases parts.len(),
{
    if parts.len() == 0 {
        Ok(seq![])
    } else {
        match env_resolved(style, parts.drop_last(), env) {
            Ok(acc) => env_step(style, acc, parts.last(), env),
            Err(name) => Err(name),
        }
    }
}

/// Once a variable cannot be read, the whole path cannot be built.
proof fn lemma_env_failure_persists(
    style: PathStyle,
    parts: Seq<PathPart>,
    env: EnvView,
    k: int,
    name: Seq<char>,
)
    requires
        0 <= k <= parts.len(),
        env_resolved(style, parts.take(k), env) == Err::<Seq<char>, Seq<char>>(name),
    ensures
        env_resolved(style, parts, env) == Err::<Seq<char>, Seq<char>>(name),
    decreases parts.len() - k,
{
    if k < parts.len() {
        assert(parts.take(k + 1).drop_last() =~= parts.take(k));
        lemma_env_failure_persists(style, parts, env, k + 1, name);
    } else {
        assert(parts.take(k) =~= parts);
    }
}

/// Rebuilds `path` with every component of the form `$NAME` replaced by the value
/// of the variable `NAME` in `env` (the value pushed as a path, so that an absolute
/// value starts the path anew). Fails with the name of the first such variable
/// that is not set or whose value is not valid Unicode.
pub fn parse_env(style: PathStyle, path: &str, env: &Vec<(String, Option<String>)>) -> (r: Result<String, String>)
    ensures
        (match env_resolved(style, path_components(style, path@), env.deep_view()) {
            Ok(p) => r matches Ok(s) && s@ == p,
            Err(name) => r matches Err(n) && n@ == name,
        }),
{
    let components = components(style, path);
    let ghost c = components.deep_view();
    let ghost e = env.deep_view();
    let mut new_path = String::new();
    let mut i: usize = 0;
    assert(c.take(0) =~= Seq::<PathPart>::empty());
    while i < components.len()
        invariant
            i <= components.len(),
            c == components.deep_view(),
            e == env.deep_view(),
            c == path_components(style, path@),
            env_resolved(style, c.take(i as int), e) == Ok::<Seq<char>, Seq<char>>(new_path@),
        decreases components.len() - i,
    {
        assert(c.take(i + 1).drop_last() =~= c.take(i as int));
        assert(c.take(i + 1).last() == components@[i as int].deep_view());
        match &components[i] {
            Component::Normal(s) => {
                let len = s.as_str().unicode_len();
                if len > 0 && s.as_str().get_char(0) == '$' {
                    let var_name = s.as_str().substring_char(1, len);
                    assert(var_name@ =~= s@.skip(1));
                    match env_context(env, var_name) {
                        Ok(Some(value)) => {
                            new_path = join(style, new_path.as_str(), value.as_str());
                        },
                        _ => {
                            proof {
                                lemma_env_failure_persists(style, c, e, i + 1, var_name@);
                            }
                            return Err(var_name.to_owned());
                        },
                    }
                } else {
                    new_path = join(style, new_path.as_str(), s.as_str());
                }
            },
            other => {
                let text = component_text(style, other);
                new_path = join(style, new_path.as_str(), text.as_str());
            },
        }
        i = i + 1;
    }
    assert(c.take(i as int) =~= c);
    Ok(new_path)
}


} // verus!
