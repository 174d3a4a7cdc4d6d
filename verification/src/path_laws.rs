use vstd::prelude::*;

use crate::env::EnvView;
use crate::paths::{
    body_parts, env_resolved, has_root, home_replaced, is_sep, joined, main_sep, part_text,
    path_components, piece_part, prefix_len, pushed_all, same_part, same_parts, scan_pieces,
    PathPart, PathStyle,
};

verus! {

/// `t` holds no separator.
pub open spec fn no_sep(style: PathStyle, t: Seq<char>) -> bool {
    forall|i: int| 0 <= i < t.len() ==> !is_sep(style, #[trigger] t[i])
}

/// Reading text without separators after `s` only extends the piece still open.
proof fn lemma_scan_extend(style: PathStyle, s: Seq<char>, t: Seq<char>)
    requires
        no_sep(style, t),
    ensures
        scan_pieces(style, s + t) == (scan_pieces(style, s).0, scan_pieces(style, s).1 + t),
    decreases t.len(),
{
    if t.len() == 0 {
        assert(s + t =~= s);
        assert(scan_pieces(style, s).1 + t =~= scan_pieces(style, s).1);
    } else {
        let u = t.drop_last();
        lemma_scan_extend(style, s, u);
        assert((s + t).drop_last() =~= s + u);
        assert((s + t).last() == t.last());
        assert(!is_sep(style, t[t.len() - 1]));
        assert(scan_pieces(style, s).1 + t =~= (scan_pieces(style, s).1 + u).push(t.last()));
    }
}

/// After a separator (or at the start), text without separators adds exactly its
/// own component.
proof fn lemma_body_extend(style: PathStyle, s: Seq<char>, t: Seq<char>)
    requires
        no_sep(style, t),
        s.len() == 0 || is_sep(style, s.last()),
    ensures
        body_parts(style, s + t) == body_parts(style, s) + piece_part(t),
{
    lemma_scan_extend(style, s, t);
    if s.len() > 0 {
        assert(s.drop_last().push(s.last()) =~= s);
    }
    assert(scan_pieces(style, s).1 == Seq::<char>::empty());
    assert(scan_pieces(style, s).1 + t =~= t);
    assert(piece_part(Seq::<char>::empty()) == Seq::<PathPart>::empty());
    assert(body_parts(style, s) =~= scan_pieces(style, s).0);
}

/// A separator at the end adds no component.
proof fn lemma_body_trailing_sep(style: PathStyle, s: Seq<char>, c: char)
    requires
        is_sep(style, c),
    ensures
        body_parts(style, s.push(c)) == body_parts(style, s),
{
    assert(s.push(c).drop_last() =~= s);
    assert(piece_part(Seq::<char>::empty()) == Seq::<PathPart>::empty());
    assert(body_parts(style, s.push(c)) =~= body_parts(style, s));
}

/// A piece that can be pushed onto a path as one more component: not empty, no
/// separator, not `.`, and no drive.
pub open spec fn pushable_piece(style: PathStyle, t: Seq<char>) -> bool {
    &&& t.len() > 0
    &&& no_sep(style, t)
    &&& t != "."@
    &&& prefix_len(style, t) == 0
}

/// Pushing a piece onto a path adds the piece's component to the path's components.
#[verifier::spinoff_prover]
#[verifier::rlimit(60)]
pub proof fn lemma_push_piece(style: PathStyle, base: Seq<char>, t: Seq<char>)
    requires
        pushable_piece(style, t),
    ensures
        path_components(style, joined(style, base, t)) == path_components(style, base) + piece_part(t),
{
    reveal_strlit(".");
    let sep = main_sep(style);
    assert(is_sep(style, sep));
    assert(!is_sep(style, t[0]));
    assert(!has_root(style, t));
    let k = prefix_len(style, base);
    let rest = base.skip(k as int);
    let r = joined(style, base, t);
    let front: Seq<PathPart> = if k > 0 {
        seq![PathPart::Prefix(base.take(k as int))]
    } else {
        seq![]
    };
    assert(t.len() == 1 ==> t[0] != '.') by {
        if t.len() == 1 && t[0] == '.' {
            assert(t =~= "."@);
        }
    }
    if base.len() > 0 && !is_sep(style, base.last()) && !(k > 0 && k == base.len()) {
        assert(r == base.push(sep) + t);
        assert(r[0] == base[0]);
        if base.len() >= 2 {
            assert(r[1] == base[1]);
        } else {
            assert(r[1] == sep);
        }
        assert(prefix_len(style, r) == k);
        assert(r.take(k as int) =~= base.take(k as int));
        let rest2 = rest.push(sep) + t;
        assert(r.skip(k as int) =~= rest2);
        assert(rest.len() > 0);
        assert(rest2[0] == rest[0]);
        if rest.len() > 1 {
            assert(rest2[1] == rest[1]);
        } else {
            assert(rest2[1] == sep);
        }
        if is_sep(style, rest[0]) || (rest[0] == '.' && (rest.len() == 1 || is_sep(style, rest[1]))) {
            let b = rest.skip(1);
            assert(rest2.skip(1) =~= b.push(sep) + t);
            lemma_body_extend(style, b.push(sep), t);
            lemma_body_trailing_sep(style, b, sep);
        } else {
            lemma_body_extend(style, rest.push(sep), t);
            lemma_body_trailing_sep(style, rest, sep);
        }
    } else {
        assert(r == base + t);
        if base.len() == 0 || (k > 0 && k == base.len()) {
            if base.len() >= 2 {
                assert(r[0] == base[0] && r[1] == base[1]);
            }
            assert(prefix_len(style, r) == k);
            assert(r.take(k as int) =~= base.take(k as int));
            assert(rest =~= Seq::<char>::empty());
            assert(r.skip(k as int) =~= t);
            assert(rest + t =~= t);
            lemma_body_extend(style, rest, t);
        } else {
            assert(is_sep(style, base.last()));
            if base.len() >= 2 {
                assert(r[0] == base[0] && r[1] == base[1]);
            } else {
                assert(r[0] == base[0]);
            }
            assert(prefix_len(style, r) == k);
            assert(r.take(k as int) =~= base.take(k as int));
            let rest2 = rest + t;
            assert(r.skip(k as int) =~= rest2);
            assert(rest.len() > 0);
            assert(rest.last() == base.last());
            assert(rest2[0] == rest[0]);
            if is_sep(style, rest[0]) || (rest[0] == '.' && (rest.len() == 1 || is_sep(style, rest[1]))) {
                if rest.len() > 1 {
                    assert(rest2[1] == rest[1]);
                }
                let b = rest.skip(1);
                assert(rest2.skip(1) =~= b + t);
                if b.len() > 0 {
                    assert(b.last() == rest.last());
                }
                lemma_body_extend(style, b, t);
            } else {
                assert(rest.len() > 1);
                assert(rest2[1] == rest[1]);
                lemma_body_extend(style, rest, t);
            }
        }
    }
}

/// A component that can follow others: a name (not empty, without separator, not
/// `.` or `..`) or `..`.
pub open spec fn body_part(style: PathStyle, part: PathPart) -> bool {
    match part {
        PathPart::Normal(x) => x.len() > 0 && no_sep(style, x) && x != "."@ && x != ".."@,
        PathPart::ParentDir => true,
        _ => false,
    }
}

/// No name among `parts` starts with a drive (as `D:x` can on Windows; never on Unix).
pub open spec fn names_without_drive(style: PathStyle, parts: Seq<PathPart>) -> bool {
    forall|i: int|
        0 <= i < parts.len() ==> (#[trigger] parts[i] matches PathPart::Normal(x) ==> prefix_len(
            style,
            x,
        ) == 0)
}

/// Pushing a component that can follow others adds exactly that component.
proof fn lemma_push_part(style: PathStyle, base: Seq<char>, part: PathPart)
    requires
        body_part(style, part),
        part matches PathPart::Normal(x) ==> prefix_len(style, x) == 0,
    ensures
        path_components(style, joined(style, base, part_text(style, part))) == path_components(
            style,
            base,
        ) + seq![part],
{
    reveal_strlit(".");
    reveal_strlit("..");
    let t = part_text(style, part);
    match part {
        PathPart::Normal(x) => {
            assert(t == x);
        },
        _ => {
            assert(t == ".."@);
            assert(no_sep(style, t));
            assert(t != "."@);
        },
    }
    lemma_push_piece(style, base, t);
    assert(piece_part(t) == seq![part]);
}

/// Pushing components that can follow others, one after the other, adds exactly
/// those components, in order.
pub proof fn lemma_pushed_all_components(style: PathStyle, base: Seq<char>, parts: Seq<PathPart>)
    requires
        forall|i: int| 0 <= i < parts.len() ==> body_part(style, #[trigger] parts[i]),
        names_without_drive(style, parts),
    ensures
        path_components(style, pushed_all(style, base, parts)) == path_components(style, base) + parts,
    decreases parts.len(),
{
    if parts.len() == 0 {
        assert(path_components(style, base) + parts =~= path_components(style, base));
    } else {
        let init = parts.drop_last();
        assert forall|i: int| 0 <= i < init.len() implies body_part(style, #[trigger] init[i]) by {
            assert(init[i] == parts[i]);
        }
        assert forall|i: int| 0 <= i < init.len() implies (#[trigger] init[i] matches PathPart::Normal(x)
            ==> prefix_len(style, x) == 0) by {
            assert(init[i] == parts[i]);
        }
        lemma_pushed_all_components(style, base, init);
        assert(body_part(style, parts[parts.len() - 1]));
        assert(parts[parts.len() - 1] matches PathPart::Normal(x) ==> prefix_len(style, x) == 0);
        lemma_push_part(style, pushed_all(style, base, init), parts.last());
        assert(path_components(style, base) + init + seq![parts.last()] =~= path_components(style, base)
            + parts);
    }
}

/// Pushing a list of components in two goes is pushing it at once.
proof fn lemma_pushed_all_concat(style: PathStyle, base: Seq<char>, a: Seq<PathPart>, b: Seq<PathPart>)
    ensures
        pushed_all(style, base, a + b) == pushed_all(style, pushed_all(style, base, a), b),
    decreases b.len(),
{
    if b.len() == 0 {
        assert(a + b =~= a);
    } else {
        assert((a + b).drop_last() =~= a + b.drop_last());
        assert((a + b).last() == b.last());
        lemma_pushed_all_concat(style, base, a, b.drop_last());
    }
}

/// Every component that the pieces of a text give can follow others.
proof fn lemma_scan_parts(style: PathStyle, s: Seq<char>)
    ensures
        forall|i: int|
            0 <= i < scan_pieces(style, s).0.len() ==> body_part(style, #[trigger] scan_pieces(style, s).0[i]),
        no_sep(style, scan_pieces(style, s).1),
    decreases s.len(),
{
    reveal_strlit(".");
    reveal_strlit("..");
    if s.len() > 0 {
        let init = s.drop_last();
        lemma_scan_parts(style, init);
        let (parts, open) = scan_pieces(style, init);
        if is_sep(style, s.last()) {
            let np = parts + piece_part(open);
            assert forall|i: int| 0 <= i < np.len() implies body_part(style, #[trigger] np[i]) by {
                if i >= parts.len() {
                    assert(np[i] == piece_part(open)[i - parts.len()]);
                }
            }
            assert(no_sep(style, Seq::<char>::empty()));
        } else {
            assert forall|i: int| 0 <= i < open.push(s.last()).len() implies !is_sep(
                style,
                #[trigger] open.push(s.last())[i],
            ) by {
                if i < open.len() {
                    assert(open.push(s.last())[i] == open[i]);
                }
            }
        }
    }
}

/// Every component among the pieces of a text can follow others.
proof fn lemma_body_parts_follow(style: PathStyle, s: Seq<char>)
    ensures
        forall|i: int| 0 <= i < body_parts(style, s).len() ==> body_part(style, #[trigger] body_parts(style, s)[i]),
{
    reveal_strlit(".");
    reveal_strlit("..");
    lemma_scan_parts(style, s);
    let (parts, open) = scan_pieces(style, s);
    let b = body_parts(style, s);
    assert forall|i: int| 0 <= i < b.len() implies body_part(style, #[trigger] b[i]) by {
        if i >= parts.len() {
            assert(b[i] == piece_part(open)[i - parts.len()]);
        } else {
            assert(b[i] == parts[i]);
        }
    }
}

/// Pushing one component onto `base`.
proof fn lemma_pushed_one(style: PathStyle, base: Seq<char>, part: PathPart)
    ensures
        pushed_all(style, base, seq![part]) == joined(style, base, part_text(style, part)),
{
    assert(seq![part].drop_last() =~= Seq::<PathPart>::empty());
    assert(pushed_all(style, base, Seq::<PathPart>::empty()) == base);
    assert(seq![part].last() == part);
}

/// The components before the pieces of `p`: its drive, and its root or a leading `.`.
pub open spec fn front_parts(style: PathStyle, p: Seq<char>) -> Seq<PathPart> {
    let k = prefix_len(style, p);
    let rest = p.skip(k as int);
    let drive: Seq<PathPart> = if k > 0 {
        seq![PathPart::Prefix(p.take(k as int))]
    } else {
        seq![]
    };
    if rest.len() > 0 && is_sep(style, rest[0]) {
        drive + seq![PathPart::RootDir]
    } else if rest.len() > 0 && rest[0] == '.' && (rest.len() == 1 || is_sep(style, rest[1])) {
        drive + seq![PathPart::CurDir]
    } else {
        drive
    }
}

/// The text from which the pieces of `p` are read.
pub open spec fn body_text(style: PathStyle, p: Seq<char>) -> Seq<char> {
    let k = prefix_len(style, p);
    let rest = p.skip(k as int);
    if rest.len() > 0 && (is_sep(style, rest[0]) || (rest[0] == '.' && (rest.len() == 1 || is_sep(
        style,
        rest[1],
    )))) {
        rest.skip(1)
    } else {
        rest
    }
}

/// Pushing the front components of `p` onto nothing gives a path with just those
/// components.
proof fn lemma_rebuild_front(style: PathStyle, p: Seq<char>)
    ensures
        path_components(style, pushed_all(style, seq![], front_parts(style, p))) == front_parts(style, p),
        path_components(style, p) == front_parts(style, p) + body_parts(style, body_text(style, p)),
{
    reveal_strlit(".");
    let k = prefix_len(style, p);
    let rest = p.skip(k as int);
    let pp = p.take(k as int);
    let drive: Seq<PathPart> = if k > 0 {
        seq![PathPart::Prefix(pp)]
    } else {
        seq![]
    };
    let sep = main_sep(style);
    assert(is_sep(style, sep));
    let empty = Seq::<char>::empty();
    assert(body_parts(style, empty) =~= Seq::<PathPart>::empty()) by {
        assert(piece_part(empty) == Seq::<PathPart>::empty());
    }
    // The drive alone.
    let x0 = pushed_all(style, empty, drive);
    if k > 0 {
        lemma_pushed_one(style, empty, PathPart::Prefix(pp));
        assert(pp[0] == p[0] && pp[1] == p[1]);
        assert(prefix_len(style, pp) == k);
        assert(x0 == pp);
        assert(pp.take(k as int) =~= pp);
        assert(pp.skip(k as int) =~= empty);
    } else {
        assert(x0 == empty);
    }
    assert(prefix_len(style, x0) == k);
    assert(x0.take(k as int) =~= pp);
    assert(x0.skip(k as int) =~= empty);
    assert(path_components(style, x0) =~= drive);
    if rest.len() > 0 && is_sep(style, rest[0]) {
        let mid = seq![PathPart::RootDir];
        lemma_pushed_all_concat(style, empty, drive, mid);
        lemma_pushed_one(style, x0, PathPart::RootDir);
        let x1 = joined(style, x0, seq![sep]);
        if style == PathStyle::Unix {
            assert(k == 0);
            assert(has_root(style, seq![sep]));
            assert(x1 == seq![sep]);
        } else {
            assert(prefix_len(style, seq![sep]) == 0);
            assert(has_root(style, seq![sep]));
            assert(x1 == x0.take(prefix_len(style, x0) as int) + seq![sep]);
            assert(x0.take(prefix_len(style, x0) as int) =~= x0);
        }
        assert(x1 =~= x0 + seq![sep]);
        if k > 0 {
            assert(x1[0] == x0[0] && x1[1] == x0[1]);
        } else {
            assert(x1.len() == 1);
        }
        assert(prefix_len(style, x1) == k);
        assert(x1.take(k as int) =~= pp);
        assert(x1.skip(k as int) =~= seq![sep]);
        assert(seq![sep].skip(1) =~= empty);
        assert(path_components(style, x1) =~= drive + mid);
    } else if rest.len() > 0 && rest[0] == '.' && (rest.len() == 1 || is_sep(style, rest[1])) {
        let mid = seq![PathPart::CurDir];
        lemma_pushed_all_concat(style, empty, drive, mid);
        lemma_pushed_one(style, x0, PathPart::CurDir);
        let dot = "."@;
        assert(dot == seq!['.']);
        assert(prefix_len(style, dot) == 0);
        assert(!has_root(style, dot));
        let x1 = joined(style, x0, dot);
        assert(x1 =~= x0 + dot);
        if k > 0 {
            assert(x1[0] == x0[0] && x1[1] == x0[1]);
        } else {
            assert(x1.len() == 1);
        }
        assert(prefix_len(style, x1) == k);
        assert(x1.take(k as int) =~= pp);
        assert(x1.skip(k as int) =~= dot);
        assert(dot.skip(1) =~= empty);
        assert(path_components(style, x1) =~= drive + mid);
    } else {
        assert(drive + Seq::<PathPart>::empty() =~= drive);
    }
}

/// Rebuilding a path by pushing its components one after the other gives a path
/// with the same components, as long as no name among them starts with a drive.
pub proof fn lemma_rebuild_components(style: PathStyle, p: Seq<char>)
    requires
        names_without_drive(style, path_components(style, p)),
    ensures
        path_components(style, pushed_all(style, seq![], path_components(style, p))) == path_components(style, p),
{
    lemma_rebuild_front(style, p);
    let front = front_parts(style, p);
    let body = body_parts(style, body_text(style, p));
    let c = path_components(style, p);
    lemma_body_parts_follow(style, body_text(style, p));
    assert forall|i: int| 0 <= i < body.len() implies (#[trigger] body[i] matches PathPart::Normal(x)
        ==> prefix_len(style, x) == 0) by {
        assert(c[front.len() + i] == body[i]);
    }
    lemma_pushed_all_concat(style, seq![], front, body);
    lemma_pushed_all_components(style, pushed_all(style, seq![], front), body);
}

/// No component of `parts` is a variable reference `$NAME`.
pub open spec fn no_variables(parts: Seq<PathPart>) -> bool {
    forall|i: int|
        0 <= i < parts.len() ==> (#[trigger] parts[i] matches PathPart::Normal(x) ==> !(x.len() > 0
            && x[0] == '$'))
}

/// Without variable references, resolving the variables of a path pushes its
/// components as they are.
proof fn lemma_env_resolved_plain(style: PathStyle, parts: Seq<PathPart>, env: EnvView)
    requires
        no_variables(parts),
    ensures
        env_resolved(style, parts, env) == Ok::<Seq<char>, Seq<char>>(pushed_all(style, seq![], parts)),
    decreases parts.len(),
{
    if parts.len() > 0 {
        let init = parts.drop_last();
        assert forall|i: int| 0 <= i < init.len() implies (#[trigger] init[i] matches PathPart::Normal(x)
            ==> !(x.len() > 0 && x[0] == '$')) by {
            assert(init[i] == parts[i]);
        }
        lemma_env_resolved_plain(style, init, env);
        assert(parts[parts.len() - 1] matches PathPart::Normal(x) ==> !(x.len() > 0 && x[0] == '$'));
    }
}

/// `parse_env` keeps every component of a path without variable references, in
/// place and in order (`..` among them): the path it gives has the same components
/// as the path it was given. (A name with a drive, such as `D:x` after a separator
/// on Windows, starts the path anew when it is pushed, so such paths are left out.)
pub proof fn lemma_parse_env_keeps_components(style: PathStyle, path: Seq<char>, env: EnvView)
    requires
        no_variables(path_components(style, path)),
        names_without_drive(style, path_components(style, path)),
    ensures
        env_resolved(style, path_components(style, path), env) matches Ok(q) && path_components(style, q)
            == path_components(style, path),
{
    lemma_env_resolved_plain(style, path_components(style, path), env);
    lemma_rebuild_components(style, path);
}

/// `replace_home` keeps every component after the leading `~`: the result's
/// components are the home directory's, followed by all the components of the path
/// after `~`, in order. (Names with a drive are left out, as for `parse_env`.)
pub proof fn lemma_replace_home_components(style: PathStyle, path: Seq<char>, home: Seq<char>)
    requires
        path_components(style, path).len() > 0,
        path_components(style, path)[0] == PathPart::Normal("~"@),
        names_without_drive(style, path_components(style, path)),
    ensures
        path_components(style, home_replaced(style, path, home)) == path_components(style, home)
            + path_components(style, path).skip(1),
{
    let c = path_components(style, path);
    lemma_rebuild_front(style, path);
    let front = front_parts(style, path);
    assert(front.len() == 0) by {
        if front.len() > 0 {
            assert(c[0] == front[0]);
        }
    }
    let body = body_parts(style, body_text(style, path));
    assert(c =~= body);
    lemma_body_parts_follow(style, body_text(style, path));
    let after = c.skip(1);
    assert forall|i: int| 0 <= i < after.len() implies body_part(style, #[trigger] after[i]) by {
        assert(after[i] == c[i + 1]);
    }
    assert forall|i: int| 0 <= i < after.len() implies (#[trigger] after[i] matches PathPart::Normal(x)
        ==> prefix_len(style, x) == 0) by {
        assert(after[i] == c[i + 1]);
    }
    lemma_pushed_all_components(style, home, after);
}

/// Two component lists are the same only when they are equally long.
pub proof fn lemma_same_parts_equal_length(a: Seq<PathPart>, b: Seq<PathPart>)
    ensures
        same_parts(a, b) ==> a.len() == b.len(),
{
}

/// Every component list is the same as itself, and sameness goes both ways.
pub proof fn lemma_same_parts_reflexive_symmetric(a: Seq<PathPart>, b: Seq<PathPart>)
    ensures
        same_parts(a, a),
        same_parts(a, b) ==> same_parts(b, a),
{
    assert forall|i: int| 0 <= i < a.len() implies same_part(#[trigger] a[i], a[i]) by {}
    if same_parts(a, b) {
        assert forall|i: int| 0 <= i < b.len() implies same_part(#[trigger] b[i], a[i]) by {
            assert(same_part(a[i], b[i]));
        }
    }
}

/// Without drives, two component lists are the same exactly when they are equal.
pub proof fn lemma_same_parts_without_drives(a: Seq<PathPart>, b: Seq<PathPart>)
    requires
        forall|i: int| 0 <= i < a.len() ==> !(#[trigger] a[i] is Prefix),
    ensures
        same_parts(a, b) <==> a == b,
{
    if same_parts(a, b) {
        assert forall|i: int| 0 <= i < a.len() implies a[i] == b[i] by {
            assert(same_part(a[i], b[i]));
            assert(!(a[i] is Prefix));
        }
        assert(a =~= b);
    }
    if a == b {
        lemma_same_parts_reflexive_symmetric(a, b);
    }
}

/// A path is never the same as the path one level deeper: pushing a component
/// (a name, or `..`) onto `p` gives a path that `same_path` tells apart from `p`.
pub proof fn lemma_deeper_path_differs(style: PathStyle, p: Seq<char>, part: PathPart)
    requires
        body_part(style, part),
        part matches PathPart::Normal(x) ==> prefix_len(style, x) == 0,
    ensures
        !same_parts(
            path_components(style, p),
            path_components(style, joined(style, p, part_text(style, part))),
        ),
{
    lemma_push_part(style, p, part);
}

} // verus!
