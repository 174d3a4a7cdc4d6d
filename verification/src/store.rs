use vstd::prelude::*;

use std::collections::HashMap;

use crate::env::{EnvView, VarError};
use crate::expand::{parse, parsed, result_view};
use crate::paths::{join, joined, PathStyle};
use crate::text::{trim_end, trimmed_end};

verus! {

/// Where the tool records its root directory.
#[derive(Debug)]
pub struct Conf {}

impl Conf {
    /// The file that records the root directory: `once` in the configuration
    /// directory `config_dir`.
    pub fn path(style: PathStyle, config_dir: &str) -> (r: String)
        ensures
            r@ == joined(style, config_dir@, "once"@),
    {
        join(style, config_dir, "once")
    }

    /// The root directory that the record `contents` names: the text without its
    /// trailing white space, parsed as `parse` does.
    pub fn root_dir(
        style: PathStyle,
        contents: &str,
        home: Option<String>,
        env: &Vec<(String, Option<String>)>,
        cwd: &str,
    ) -> (r: Result<String, VarError>)
        ensures
            result_view(r) == parsed(
                style,
                trimmed_end(contents@),
                home.deep_view(),
                env.deep_view(),
                cwd@,
            ),
    {
        let trimmed = trim_end(contents);
        parse(style, trimmed.as_str(), home, env, cwd)
    }
}

/// The root directory read back from its record is what `parse` gives for the
/// record's text without its trailing white space, for the same home directory,
/// variables and working directory: `read_back` is what `Conf::root_dir` gives for
/// `contents`, `from_parse` what `parse` gives for the trimmed text.
pub proof fn lemma_root_dir_is_parsed_record(
    style: PathStyle,
    contents: Seq<char>,
    home: Option<Seq<char>>,
    env: EnvView,
    cwd: Seq<char>,
    read_back: Result<Seq<char>, VarError>,
    from_parse: Result<Seq<char>, VarError>,
)
    requires
        read_back == parsed(style, trimmed_end(contents), home, env, cwd),
        from_parse == parsed(style, trimmed_end(contents), home, env, cwd),
    ensures
        read_back == from_parse,
{
}

/// The root that setting up the tool found for `root_dir` is the root read back
/// from the record it wrote (`root_dir` itself), when `root_dir` has no trailing
/// white space and the home directory, variables and working directory are the
/// same: `root` is the root of the plan, `read_back` what `Conf::root_dir` gives.
pub proof fn lemma_recorded_root_reads_back(
    style: PathStyle,
    root_dir: Seq<char>,
    home: Option<Seq<char>>,
    env: EnvView,
    cwd: Seq<char>,
    root: Seq<char>,
    read_back: Result<Seq<char>, VarError>,
)
    requires
        trimmed_end(root_dir) == root_dir,
        parsed(style, root_dir, home, env, cwd) == Ok::<Seq<char>, VarError>(root),
        read_back == parsed(style, trimmed_end(root_dir), home, env, cwd),
    ensures
        read_back == Ok::<Seq<char>, VarError>(root),
{
}

/// The registry of the programs whose settings are kept, as stored in `reg.toml`.
#[derive(Debug)]
pub struct Regstry {
    pub programs: Vec<String>,
}

/// The programs after registering `p`: unchanged when `p` is already there,
/// otherwise `p` added at the end.
pub open spec fn registered(programs: Seq<Seq<char>>, p: Seq<char>) -> Seq<Seq<char>> {
    if programs.contains(p) {
        programs
    } else {
        programs.push(p)
    }
}

/// No program is listed twice.
pub open spec fn no_duplicates(programs: Seq<Seq<char>>) -> bool {
    forall|i: int, j: int| 0 <= i < j < programs.len() ==> programs[i] != programs[j]
}

impl Regstry {
    /// The registry file under the root directory `root_dir`.
    pub fn path(style: PathStyle, root_dir: &str) -> (r: String)
        ensures
            r@ == joined(style, root_dir@, "reg.toml"@),
    {
        join(style, root_dir, "reg.toml")
    }

    /// Registers `program` unless it is registered already; tells whether it was added.
    pub fn add(&mut self, program: String) -> (added: bool)
        ensures
            added == !old(self).programs.deep_view().contains(program@),
            final(self).programs.deep_view() == registered(old(self).programs.deep_view(), program@),
    {
        let ghost ps = self.programs.deep_view();
        let mut i: usize = 0;
        while i < self.programs.len()
            invariant
                i <= self.programs.len(),
                ps == self.programs.deep_view(),
                forall|j: int| 0 <= j < i ==> ps[j] != program@,
            decreases self.programs.len() - i,
        {
            if self.programs[i] == program {
                assert(ps[i as int] == program@);
                return false;
            }
            i = i + 1;
        }
        self.programs.push(program);
        assert(self.programs.deep_view() =~= ps.push(program@));
        true
    }
}

/// After a program is registered, it is in the registry.
pub proof fn lemma_registered_contains(programs: Seq<Seq<char>>, p: Seq<char>)
    ensures
        registered(programs, p).contains(p),
{
    if !programs.contains(p) {
        assert(programs.push(p)[programs.len() as int] == p);
    }
}

/// Registering a program a second time changes nothing.
pub proof fn lemma_register_idempotent(programs: Seq<Seq<char>>, p: Seq<char>)
    ensures
        registered(registered(programs, p), p) == registered(programs, p),
{
    lemma_registered_contains(programs, p);
}

/// Registering keeps every program listed once.
pub proof fn lemma_register_keeps_unique(programs: Seq<Seq<char>>, p: Seq<char>)
    requires
        no_duplicates(programs),
    ensures
        no_duplicates(registered(programs, p)),
{
    if !programs.contains(p) {
        let q = programs.push(p);
        assert forall|i: int, j: int| 0 <= i < j < q.len() implies q[i] != q[j] by {
            if j == programs.len() {
                assert(q[i] == programs[i]);
            }
        }
    }
}

/// No settings file has two links.
pub open spec fn keys_unique(links: Seq<(Seq<char>, Seq<char>)>) -> bool {
    forall|i: int, j: int| 0 <= i < j < links.len() ==> #[trigger] links[i].0 != #[trigger] links[j].0
}

/// The links as a map from settings file to link path (a later entry for the
/// same file wins).
pub open spec fn link_map(links: Seq<(Seq<char>, Seq<char>)>) -> Map<Seq<char>, Seq<char>>
    decreases links.len(),
{
    if links.len() == 0 {
        Map::empty()
    } else {
        link_map(links.drop_last()).insert(links.last().0, links.last().1)
    }
}

/// A file has a link exactly when some entry names it.
proof fn lemma_link_map_dom(links: Seq<(Seq<char>, Seq<char>)>, k: Seq<char>)
    ensures
        link_map(links).dom().contains(k) <==> exists|i: int| 0 <= i < links.len() && #[trigger] links[i].0 == k,
    decreases links.len(),
{
    if links.len() > 0 {
        let init = links.drop_last();
        lemma_link_map_dom(init, k);
        if exists|i: int| 0 <= i < init.len() && #[trigger] init[i].0 == k {
            let i = choose|i: int| 0 <= i < init.len() && #[trigger] init[i].0 == k;
            assert(links[i].0 == k);
        }
        if exists|i: int| 0 <= i < links.len() && #[trigger] links[i].0 == k {
            let i = choose|i: int| 0 <= i < links.len() && #[trigger] links[i].0 == k;
            if i < links.len() - 1 {
                assert(init[i].0 == k);
            }
        }
    }
}

/// With distinct file names, the map gives each entry's link.
proof fn lemma_link_map_value(links: Seq<(Seq<char>, Seq<char>)>, i: int)
    requires
        keys_unique(links),
        0 <= i < links.len(),
    ensures
        link_map(links).dom().contains(links[i].0),
        link_map(links)[links[i].0] == links[i].1,
    decreases links.len(),
{
    let init = links.drop_last();
    if i < links.len() - 1 {
        assert(keys_unique(init));
        assert(init[i] == links[i]);
        lemma_link_map_value(init, i);
    }
}

/// Replacing the link of an entry replaces it in the map.
proof fn lemma_link_map_update(links: Seq<(Seq<char>, Seq<char>)>, i: int, v: Seq<char>)
    requires
        keys_unique(links),
        0 <= i < links.len(),
    ensures
        link_map(links.update(i, (links[i].0, v))) =~= link_map(links).insert(links[i].0, v),
    decreases links.len(),
{
    let k = links[i].0;
    let updated = links.update(i, (k, v));
    let init = links.drop_last();
    if i == links.len() - 1 {
        assert(updated.drop_last() =~= init);
    } else {
        assert(keys_unique(init));
        lemma_link_map_update(init, i, v);
        assert(updated.drop_last() =~= init.update(i, (k, v)));
        assert(links.last().0 != k);
    }
}

/// What the TOML record `content` of a program holds: a map from settings file to
/// link path, or `None` when it is not a TOML table of strings.
pub uninterp spec fn record_map(content: Seq<char>) -> Option<Map<Seq<char>, Seq<char>>>;

/// Calls `toml::from_str` to read `content` as a map from strings to strings, and
/// hands out its entries. The contract claims what the types show: the result is
/// there exactly when the text reads as such a map, and its entries, each file
/// once (they come from a `HashMap`), are that map. Which TOML texts read as which
/// maps is named by `record_map`, not stated.
#[verifier::external_body]
fn parse_record(content: &str) -> (r: Option<Vec<(String, String)>>)
    ensures
        r is Some <==> record_map(content@) is Some,
        r matches Some(v) ==> keys_unique(v.deep_view()) && link_map(v.deep_view()) == record_map(
            content@,
        )->Some_0,
{
    toml::from_str::<HashMap<String, String>>(content).ok().map(|m| m.into_iter().collect())
}

/// Calls `toml::to_string_pretty` on the links gathered in a `HashMap` (where a
/// later entry for a file wins). The serializer fails only for a failing
/// `Serialize` impl, keys that are not strings or unsupported types, none of which
/// a map of strings to strings has, so the contract claims a text, and that it
/// reads back as the same map. The order of the entries in the text follows the
/// map and is not stated.
#[verifier::external_body]
fn write_record(links: &Vec<(String, String)>) -> (r: Option<String>)
    ensures
        r is Some,
        r matches Some(text) ==> record_map(text@) == Some(link_map(links.deep_view())),
{
    let map: HashMap<&String, &String> = links.iter().map(|(k, v)| (k, v)).collect();
    toml::to_string_pretty(&map).ok()
}

/// A program whose settings are kept: its name and its links, each a settings file
/// and the path where the link to it lies; no file has two links.
#[derive(Debug)]
pub struct Program {
    name: String,
    links: Vec<(String, String)>,
}

impl Program {
    #[verifier::type_invariant]
    spec fn files_unique(self) -> bool {
        keys_unique(self.links.deep_view())
    }

    /// The program's name.
    pub closed spec fn name(&self) -> Seq<char> {
        self.name@
    }

    /// The program's links, in order.
    pub closed spec fn links(&self) -> Seq<(Seq<char>, Seq<char>)> {
        self.links.deep_view()
    }

    /// The program's links as a map from settings file to link path.
    pub open spec fn links_map(&self) -> Map<Seq<char>, Seq<char>> {
        link_map(self.links())
    }

    /// A program with the given name and links; no file may have two links.
    pub fn new(name: String, links: Vec<(String, String)>) -> (r: Program)
        requires
            keys_unique(links.deep_view()),
        ensures
            r.name() == name@,
            r.links() == links.deep_view(),
    {
        Program { name, links }
    }

    /// The program `name` with the links that its TOML record `content` holds, or
    /// `None` when the record is not a table of strings.
    pub fn from_record(name: String, content: &str) -> (r: Option<Program>)
        ensures
            (match record_map(content@) {
                Some(m) => r matches Some(p) && p.name() == name@ && p.links_map() == m,
                None => r is None,
            }),
    {
        match parse_record(content) {
            Some(links) => Some(Program { name, links }),
            None => None,
        }
    }

    /// The TOML record of the program's links: a text that reads back as its links.
    pub fn record_text(&self) -> (r: String)
        ensures
            record_map(r@) == Some(self.links_map()),
    {
        write_record(&self.links).unwrap()
    }

    /// Points the link of the settings file `file` to `link`, and gives its former
    /// link; `None`, with nothing changed, when the file has no link.
    pub fn set_link(&mut self, file: &str, link: &str) -> (r: Option<String>)
        ensures
            (match r {
                Some(old_link) => {
                    &&& old(self).links_map().dom().contains(file@)
                    &&& old_link@ == old(self).links_map()[file@]
                    &&& final(self).links_map() == old(self).links_map().insert(file@, link@)
                },
                None => {
                    &&& !old(self).links_map().dom().contains(file@)
                    &&& final(self).links() == old(self).links()
                },
            }),
            final(self).name() == old(self).name(),
    {
        proof {
            use_type_invariant(&*self);
        }
        let ghost s = self.links.deep_view();
        let key = file.to_owned();
        let mut i: usize = 0;
        while i < self.links.len()
            invariant
                i <= self.links.len(),
                s == self.links.deep_view(),
                s == old(self).links.deep_view(),
                self.name@ == old(self).name@,
                keys_unique(s),
                key@ == file@,
                forall|j: int| 0 <= j < i ==> s[j].0 != file@,
            decreases self.links.len() - i,
        {
            if self.links[i].0 == key {
                let old_link = self.links[i].1.clone();
                proof {
                    lemma_link_map_value(s, i as int);
                    lemma_link_map_update(s, i as int, link@);
                }
                let mut links = Vec::new();
                std::mem::swap(&mut links, &mut self.links);
                links.set(i, (key, link.to_owned()));
                assert(links.deep_view() =~= s.update(i as int, (s[i as int].0, link@)));
                assert(keys_unique(links.deep_view())) by {
                    assert forall|a: int, b: int|
                        0 <= a < b < links.deep_view().len() implies #[trigger] links.deep_view()[a].0
                        != #[trigger] links.deep_view()[b].0 by {
                        assert(s[a].0 != s[b].0);
                    }
                }
                self.links = links;
                return Some(old_link);
            }
            i = i + 1;
        }
        proof {
            lemma_link_map_dom(s, file@);
        }
        None
    }

    /// Gives the settings file `file` the link `link`, adding an entry for it when it
    /// has none.
    pub fn add_link(&mut self, file: String, link: String)
        ensures
            final(self).links_map() == old(self).links_map().insert(file@, link@),
            final(self).name() == old(self).name(),
    {
        proof {
            use_type_invariant(&*self);
        }
        let ghost s = self.links.deep_view();
        let ghost fv = file@;
        let ghost lv = link@;
        if self.set_link(file.as_str(), link.as_str()).is_none() {
            proof {
                use_type_invariant(&*self);
                lemma_link_map_dom(s, fv);
            }
            let mut links = Vec::new();
            std::mem::swap(&mut links, &mut self.links);
            links.push((file, link));
            assert(links.deep_view() =~= s.push((fv, lv)));
            assert(links.deep_view().drop_last() =~= s);
            assert(keys_unique(links.deep_view())) by {
                assert forall|a: int, b: int|
                    0 <= a < b < links.deep_view().len() implies #[trigger] links.deep_view()[a].0
                    != #[trigger] links.deep_view()[b].0 by {
                    if b == s.len() {
                        assert(links.deep_view()[a] == s[a]);
                    } else {
                        assert(s[a].0 != s[b].0);
                    }
                }
            }
            self.links = links;
        }
    }

    /// The program's name.
    pub fn get_name(&self) -> (r: &String)
        ensures
            r@ == self.name(),
    {
        &self.name
    }

    /// The program's links.
    pub fn get_links(&self) -> (r: &Vec<(String, String)>)
        ensures
            r.deep_view() == self.links(),
            keys_unique(self.links()),
    {
        proof {
            use_type_invariant(self);
        }
        &self.links
    }

    /// The directory of the program `name` under the root directory `root_dir`.
    pub fn dir(style: PathStyle, root_dir: &str, name: &str) -> (r: String)
        ensures
            r@ == joined(style, root_dir@, name@),
    {
        join(style, root_dir, name)
    }

    /// The file that records the links of the program `name`.
    pub fn record_path(style: PathStyle, root_dir: &str, name: &str) -> (r: String)
        ensures
            r@ == joined(style, joined(style, root_dir@, name@), "once.toml"@),
    {
        let dir = Self::dir(style, root_dir, name);
        join(style, dir.as_str(), "once.toml")
    }

    /// The directory that holds the program's settings files.
    pub fn settings_dir(&self, style: PathStyle, root_dir: &str) -> (r: String)
        ensures
            r@ == joined(style, joined(style, root_dir@, self.name()), "settings"@),
    {
        let dir = Self::dir(style, root_dir, self.name.as_str());
        join(style, dir.as_str(), "settings")
    }
}

} // verus!
