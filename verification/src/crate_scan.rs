use vstd::prelude::*;
use vstd::string::*;
use crate::text::{cat, chars_of, str_eq};

verus! {

/// What a dependency of a crate is: a crate by its index, or the engine's
/// macros crate (whose index is known only at the end).
#[derive(Clone, Copy, Debug, PartialEq, Eq)]
pub enum DepTarget {
    Crate(usize),
    MacrosCrate,
}

/// A dependency as a crate manifest lists it: its name, its directory, and
/// the path that the manifest gives for it.
#[derive(Clone, Debug)]
pub struct FoundDep {
    pub name: String,
    pub dir: String,
    pub path: String,
}

/// An entry of a manifest's dependency table, as far as it matters here:
/// its name, whether it is a table, the `path` it gives where that is a
/// string, and whether it has a `dependency` key.
#[derive(Clone, Debug)]
pub struct TomlDep {
    pub name: String,
    pub is_table: bool,
    pub path: Option<String>,
    pub has_dependency: bool,
}

/// The position of the first `x` in `s` from `k` on.
pub open spec fn first_index(s: Seq<Seq<char>>, x: Seq<char>, k: int) -> Option<int>
    decreases s.len() - k,
{
    if k < 0 || k >= s.len() {
        None
    } else if s[k] == x {
        Some(k)
    } else {
        first_index(s, x, k + 1)
    }
}

/// What the first `n` of `deps` are, for a crate whose known crates have the
/// directories `dirs`, and the paths of the crates that are new: the macros
/// crate by its directory, a known crate by the first index with its
/// directory, else a new crate numbered after the known ones and the new ones
/// before it.
pub open spec fn dep_targets(deps: Seq<FoundDep>, macros_dir: Seq<char>, dirs: Seq<Seq<char>>, n: int) -> (Seq<(DepTarget, Seq<char>)>, Seq<Seq<char>>)
    decreases n,
{
    if n <= 0 || n > deps.len() {
        (seq![], seq![])
    } else {
        let prev = dep_targets(deps, macros_dir, dirs, n - 1);
        let d = deps[n - 1];
        if d.dir@ == macros_dir {
            (prev.0.push((DepTarget::MacrosCrate, d.name@)), prev.1)
        } else {
            match first_index(dirs, d.dir@, 0) {
                Some(i) => (prev.0.push((DepTarget::Crate(i as usize), d.name@)), prev.1),
                None => (prev.0.push((DepTarget::Crate((dirs.len() + prev.1.len()) as usize), d.name@)), prev.1.push(d.path@)),
            }
        }
    }
}

proof fn lemma_first_index(s: Seq<Seq<char>>, x: Seq<char>, k: int)
    ensures
        first_index(s, x, k) matches Some(i) ==> 0 <= i < s.len() && s[i] == x,
    decreases s.len() - k,
{
    if 0 <= k < s.len() && s[k] != x {
        lemma_first_index(s, x, k + 1);
    }
}

/// Every dependency that a crate lists is the macros crate, a crate found
/// before, or one of the crates it adds: its index is below the number of
/// crates found before and those it adds.
pub proof fn lemma_targets_in_range(deps: Seq<FoundDep>, macros_dir: Seq<char>, dirs: Seq<Seq<char>>, n: int)
    ensures
        forall|j: int| 0 <= j < dep_targets(deps, macros_dir, dirs, n).0.len() ==>
            ((#[trigger] dep_targets(deps, macros_dir, dirs, n).0[j]).0 matches DepTarget::Crate(i)
                ==> i < dirs.len() + dep_targets(deps, macros_dir, dirs, n).1.len()),
    decreases n,
{
    if 0 < n <= deps.len() {
        lemma_targets_in_range(deps, macros_dir, dirs, n - 1);
        lemma_first_index(dirs, deps[n - 1].dir@, 0);
        let prev = dep_targets(deps, macros_dir, dirs, n - 1);
        let cur = dep_targets(deps, macros_dir, dirs, n);
        assert forall|j: int| 0 <= j < cur.0.len() implies
            ((#[trigger] cur.0[j]).0 matches DepTarget::Crate(i) ==> i < dirs.len() + cur.1.len()) by {
            if j < prev.0.len() {
                assert(cur.0[j] == prev.0[j]);
            }
        }
    }
}

/// Dependencies as targets and names.
pub open spec fn target_views(v: Seq<(DepTarget, String)>) -> Seq<(DepTarget, Seq<char>)> {
    v.map_values(|x: (DepTarget, String)| (x.0, x.1@))
}

fn first_index_exec(s: &Vec<String>, x: &String) -> (r: Option<usize>)
    ensures
        match r {
            Some(i) => first_index(s.deep_view(), x@, 0) == Some(i as int),
            None => first_index(s.deep_view(), x@, 0) is None,
        },
{
    let mut k: usize = s.len();
    let mut found: Option<usize> = None;
    while k > 0
        invariant
            k <= s@.len(),
            match found {
                Some(i) => first_index(s.deep_view(), x@, k as int) == Some(i as int),
                None => first_index(s.deep_view(), x@, k as int) is None,
            },
        decreases k,
    {
        k = k - 1;
        proof {
            assert(s.deep_view()[k as int] == s@[k as int]@);
        }
        if str_eq(s[k].as_str(), x.as_str()) {
            found = Some(k);
        }
    }
    found
}

/// What the dependencies `deps` of a crate are, given the directory of the
/// macros crate and those of the crates known so far, and the paths of the
/// crates that are new (see `dep_targets`).
pub fn get_crate_dependencies(deps: &Vec<FoundDep>, macros_dir: &String, dirs: &Vec<String>) -> (r: (Vec<(DepTarget, String)>, Vec<String>))
    requires
        dirs@.len() + deps@.len() <= usize::MAX,
    ensures
        target_views(r.0@) == dep_targets(deps@, macros_dir@, dirs.deep_view(), deps@.len() as int).0,
        r.1.deep_view() == dep_targets(deps@, macros_dir@, dirs.deep_view(), deps@.len() as int).1,
{
    let mut targets: Vec<(DepTarget, String)> = Vec::new();
    let mut news: Vec<String> = Vec::new();
    let mut i: usize = 0;
    while i < deps.len()
        invariant
            i <= deps@.len(),
            dirs@.len() + deps@.len() <= usize::MAX,
            news@.len() <= i,
            target_views(targets@) == dep_targets(deps@, macros_dir@, dirs.deep_view(), i as int).0,
            news.deep_view() == dep_targets(deps@, macros_dir@, dirs.deep_view(), i as int).1,
        decreases deps.len() - i,
    {
        let d = &deps[i];
        let ghost t0 = targets@;
        let ghost n0 = news.deep_view();
        if str_eq(d.dir.as_str(), macros_dir.as_str()) {
            targets.push((DepTarget::MacrosCrate, d.name.clone()));
            proof {
                assert(target_views(targets@) =~= target_views(t0).push((DepTarget::MacrosCrate, d.name@)));
            }
        } else {
            match first_index_exec(dirs, &d.dir) {
                Some(k) => {
                    targets.push((DepTarget::Crate(k), d.name.clone()));
                    proof {
                        assert(target_views(targets@) =~= target_views(t0).push((DepTarget::Crate(k), d.name@)));
                    }
                },
                None => {
                    let idx = dirs.len() + news.len();
                    targets.push((DepTarget::Crate(idx), d.name.clone()));
                    news.push(d.path.clone());
                    proof {
                        assert(target_views(targets@) =~= target_views(t0).push((DepTarget::Crate(idx), d.name@)));
                        assert(news.deep_view() =~= n0.push(d.path@));
                    }
                },
            }
        }
        i = i + 1;
    }
    (targets, news)
}

/// The dependencies that a manifest's dependency table names by path: the
/// table entries that give a `path` string and have a `dependency` key, as
/// names and paths, in order.
pub open spec fn path_deps(entries: Seq<TomlDepView>) -> Seq<(Seq<char>, Seq<char>)>
    decreases entries.len(),
{
    if entries.len() == 0 {
        seq![]
    } else {
        let prev = path_deps(entries.drop_last());
        let e = entries.last();
        if e.1 && e.2 is Some && e.3 {
            prev.push((e.0, e.2->0))
        } else {
            prev
        }
    }
}

/// A dependency table entry as its name, whether it is a table, its `path`
/// string and whether it has a `dependency` key.
pub type TomlDepView = (Seq<char>, bool, Option<Seq<char>>, bool);

/// The entries as plain values.
pub open spec fn toml_views(v: Seq<TomlDep>) -> Seq<TomlDepView> {
    v.map_values(|e: TomlDep| (e.name@, e.is_table, match e.path {
        Some(p) => Some(p@),
        None => None,
    }, e.has_dependency))
}

/// The entries of the dependency table of the manifest `contents`, in the
/// order the `toml` crate gives them; none where the text is no TOML document
/// or has no `dependencies` table.
pub uninterp spec fn manifest_entries(contents: Seq<char>) -> Option<Seq<TomlDepView>>;

#[verifier::external_type_specification]
#[verifier::external_body]
pub struct ExTomlValue(toml::Value);

/// One entry of a dependency table, converted.
#[verifier::external_body]
fn toml_dep(name: &String, v: &toml::Value) -> (d: TomlDep) {
    match v {
        toml::Value::Table(t) => TomlDep {
            name: name.clone(),
            is_table: true,
            path: t.get("path").and_then(|p| p.as_str()).map(|p| p.to_string()),
            has_dependency: t.get("dependency").is_some(),
        },
        _ => TomlDep { name: name.clone(), is_table: false, path: None, has_dependency: false },
    }
}

/// Reads `contents` as a TOML document (`toml::Table` from a string) and gives
/// the entries of its `dependencies` table, each as its name, whether it is a
/// table, its `path` string and whether it has a `dependency` key; none where
/// the text does not parse or the table is missing.
#[verifier::external_body]
pub fn parse_manifest(contents: &str) -> (r: Option<Vec<TomlDep>>)
    ensures
        r is Some <==> manifest_entries(contents@) is Some,
        r is Some ==> toml_views((r->0)@) == manifest_entries(contents@)->0,
{
    let table = contents.parse::<toml::Table>().ok()?;
    let deps = table.get("dependencies")?.as_table()?;
    Some(deps.iter().map(|(name, v)| toml_dep(name, v)).collect())
}

/// The dependencies that the manifest `contents` gives by path (see
/// `path_deps`); none where it cannot be read or has no dependency table.
pub fn manifest_path_deps(contents: &str) -> (r: Option<Vec<(String, String)>>)
    ensures
        r is Some <==> manifest_entries(contents@) is Some,
        r is Some ==> pair_views((r->0)@) == path_deps(manifest_entries(contents@)->0),
{
    match parse_manifest(contents) {
        Some(entries) => Some(select_path_deps(&entries)),
        None => None,
    }
}

/// Names and paths as characters.
pub open spec fn pair_views(v: Seq<(String, String)>) -> Seq<(Seq<char>, Seq<char>)> {
    v.map_values(|x: (String, String)| (x.0@, x.1@))
}

/// The dependencies of a manifest's dependency table that are given by path
/// (see `path_deps`).
pub fn select_path_deps(entries: &Vec<TomlDep>) -> (r: Vec<(String, String)>)
    ensures
        pair_views(r@) == path_deps(toml_views(entries@)),
{
    let mut r: Vec<(String, String)> = Vec::new();
    let mut i: usize = 0;
    while i < entries.len()
        invariant
            i <= entries@.len(),
            pair_views(r@) == path_deps(toml_views(entries@.take(i as int))),
        decreases entries.len() - i,
    {
        let e = &entries[i];
        let ghost r0 = r@;
        proof {
            assert(entries@.take(i + 1).drop_last() =~= entries@.take(i as int));
            assert(entries@.take(i + 1).last() == entries@[i as int]);
            assert(toml_views(entries@.take(i + 1)).drop_last() =~= toml_views(entries@.take(i as int)));
        }
        if e.is_table && e.has_dependency {
            match &e.path {
                Some(p) => {
                    r.push((e.name.clone(), p.clone()));
                    proof {
                        assert(pair_views(r@) =~= pair_views(r0).push((e.name@, p@)));
                    }
                },
                None => {},
            }
        }
        i = i + 1;
    }
    proof {
        assert(entries@.take(entries@.len() as int) =~= entries@);
    }
    r
}


/// Lists of dependencies as targets and names.
pub open spec fn scan_views(v: Seq<Vec<(DepTarget, String)>>) -> Seq<Seq<(DepTarget, Seq<char>)>> {
    Seq::new(v.len(), |i: int| target_views(v[i]@))
}

/// A dependency's crate index, with the macros crate at `macros_idx`.
pub open spec fn link(t: DepTarget, macros_idx: usize) -> usize {
    match t {
        DepTarget::Crate(i) => i,
        DepTarget::MacrosCrate => macros_idx,
    }
}

/// Each crate's dependencies as crate indices and names, the macros crate
/// (with none) last at `macros_idx`.
pub open spec fn linked(deps: Seq<Seq<(DepTarget, Seq<char>)>>, macros_idx: usize) -> Seq<Seq<(usize, Seq<char>)>> {
    Seq::new(deps.len(), |i: int| deps[i].map_values(|x: (DepTarget, Seq<char>)| (link(x.0, macros_idx), x.1))).push(seq![])
}

/// Dependencies as crate indices and names.
pub open spec fn index_views(v: Seq<Vec<(usize, String)>>) -> Seq<Seq<(usize, Seq<char>)>> {
    Seq::new(v.len(), |i: int| v[i]@.map_values(|x: (usize, String)| (x.0, x.1@)))
}

/// The crates found so far while following dependencies from the entry
/// crate: their directories in the order they were found, and the
/// dependencies of the first ones, which have been read.
#[derive(Debug)]
pub struct CrateScan {
    pub dirs: Vec<String>,
    pub deps: Vec<Vec<(DepTarget, String)>>,
}

impl CrateScan {
    /// No crate's dependencies are read ahead of the crate being found.
    pub open spec fn wf(&self) -> bool {
        self.deps@.len() <= self.dirs@.len()
    }

    /// The entry crate alone, its dependencies not read yet.
    pub fn new(entry_dir: String) -> (s: CrateScan)
        ensures
            s.wf(),
            s.dirs.deep_view() == seq![entry_dir@],
            s.deps@.len() == 0,
    {
        let mut dirs: Vec<String> = Vec::new();
        dirs.push(entry_dir);
        proof {
            assert(dirs.deep_view() =~= seq![entry_dir@]);
        }
        CrateScan { dirs, deps: Vec::new() }
    }

    /// The crate whose dependencies are read next, if one is left.
    pub fn next_crate(&self) -> (r: Option<usize>)
        ensures
            r == (if self.deps@.len() < self.dirs@.len() { Some(self.deps@.len() as usize) } else { None::<usize> }),
    {
        if self.deps.len() < self.dirs.len() {
            Some(self.deps.len())
        } else {
            None
        }
    }

    /// Records the dependencies `found` of the next crate (see `dep_targets`)
    /// and gives the paths of the crates among them that are new; their
    /// directories are to be added next, in that order.
    pub fn add_dependencies(&mut self, found: &Vec<FoundDep>, macros_dir: &String) -> (r: Vec<String>)
        requires
            old(self).deps@.len() < old(self).dirs@.len(),
            old(self).dirs@.len() + found@.len() <= usize::MAX,
        ensures
            final(self).wf(),
            final(self).dirs == old(self).dirs,
            scan_views(final(self).deps@) == scan_views(old(self).deps@).push(
                dep_targets(found@, macros_dir@, old(self).dirs.deep_view(), found@.len() as int).0),
            r.deep_view() == dep_targets(found@, macros_dir@, old(self).dirs.deep_view(), found@.len() as int).1,
    {
        let (targets, news) = get_crate_dependencies(found, macros_dir, &self.dirs);
        let ghost d0 = self.deps@;
        self.deps.push(targets);
        proof {
            assert(scan_views(self.deps@) =~= scan_views(d0).push(target_views(targets@)));
        }
        news
    }

    /// Adds a newly found crate by its directory.
    pub fn add_crate(&mut self, dir: String)
        requires
            old(self).wf(),
        ensures
            final(self).wf(),
            final(self).dirs.deep_view() == old(self).dirs.deep_view().push(dir@),
            final(self).deps == old(self).deps,
    {
        let ghost d0 = self.dirs.deep_view();
        self.dirs.push(dir);
        proof {
            assert(self.dirs.deep_view() =~= d0.push(dir@));
        }
    }

    /// Once every crate's dependencies are read: the index of the engine crate
    /// (the first crate in `engine_dir`), and every crate's dependencies as
    /// crate indices, the macros crate added last (see `linked`); none when no
    /// crate is the engine.
    pub fn finish(&self, engine_dir: &String) -> (r: Option<(usize, Vec<Vec<(usize, String)>>)>)
        requires
            self.deps@.len() == self.dirs@.len(),
            self.dirs@.len() < usize::MAX,
        ensures
            r is Some <==> first_index(self.dirs.deep_view(), engine_dir@, 0) is Some,
            r matches Some((e, links)) ==> e == first_index(self.dirs.deep_view(), engine_dir@, 0)->0
                && index_views(links@) == linked(scan_views(self.deps@), self.dirs@.len() as usize),
    {
        let engine = match first_index_exec(&self.dirs, engine_dir) {
            Some(e) => e,
            None => {
                return None;
            },
        };
        let macros_idx = self.dirs.len();
        let ghost target = linked(scan_views(self.deps@), macros_idx);
        let mut links: Vec<Vec<(usize, String)>> = Vec::new();
        let mut i: usize = 0;
        while i < self.deps.len()
            invariant
                i <= self.deps@.len(),
                macros_idx == self.dirs@.len(),
                target == linked(scan_views(self.deps@), macros_idx),
                index_views(links@) == target.take(i as int),
            decreases self.deps.len() - i,
        {
            let list = &self.deps[i];
            let mut out: Vec<(usize, String)> = Vec::new();
            let mut j: usize = 0;
            while j < list.len()
                invariant
                    j <= list@.len(),
                    out@.map_values(|x: (usize, String)| (x.0, x.1@))
                        == target_views(list@).map_values(|x: (DepTarget, Seq<char>)| (link(x.0, macros_idx), x.1)).take(j as int),
                decreases list.len() - j,
            {
                let idx = match list[j].0 {
                    DepTarget::Crate(k) => k,
                    DepTarget::MacrosCrate => macros_idx,
                };
                let ghost o0 = out@;
                out.push((idx, list[j].1.clone()));
                proof {
                    let f = target_views(list@).map_values(|x: (DepTarget, Seq<char>)| (link(x.0, macros_idx), x.1));
                    assert(out@.map_values(|x: (usize, String)| (x.0, x.1@))
                        =~= o0.map_values(|x: (usize, String)| (x.0, x.1@)).push(f[j as int]));
                    assert(f.take(j + 1) =~= f.take(j as int).push(f[j as int]));
                }
                j = j + 1;
            }
            let ghost l0 = links@;
            links.push(out);
            proof {
                let f = target_views(list@).map_values(|x: (DepTarget, Seq<char>)| (link(x.0, macros_idx), x.1));
                assert(f.take(list@.len() as int) =~= f);
                assert(index_views(links@) =~= index_views(l0).push(f));
                assert(target[i as int] == f);
                assert(target.take(i + 1) =~= target.take(i as int).push(target[i as int]));
            }
            i = i + 1;
        }
        let ghost l1 = links@;
        let none: Vec<(usize, String)> = Vec::new();
        proof {
            assert(none@.map_values(|x: (usize, String)| (x.0, x.1@)) =~= Seq::<(usize, Seq<char>)>::empty());
        }
        links.push(none);
        proof {
            assert(index_views(links@) =~= index_views(l1).push(seq![]));
            assert(target.take(self.deps@.len() as int).push(seq![]) =~= target);
        }
        Some((engine, links))
    }
}

} // verus!

verus! {

/// The directory of the engine's macros crate: `macros` inside the engine's
/// directory, joined with a `/` unless the directory is empty or already ends
/// with one.
pub open spec fn macros_dir_of(engine_dir: Seq<char>) -> Seq<char> {
    if engine_dir.len() == 0 {
        "macros"@
    } else if engine_dir.last() == '/' {
        engine_dir + "macros"@
    } else {
        engine_dir + "/macros"@
    }
}

/// The directory of the engine's macros crate, from the engine's directory
/// (see `macros_dir_of`).
pub fn get_macros_dir(engine_dir: &str) -> (r: String)
    ensures
        r@ == macros_dir_of(engine_dir@),
{
    let v = chars_of(engine_dir);
    if v.len() == 0 {
        String::from_str("macros")
    } else if v[v.len() - 1] == '/' {
        cat(engine_dir, "macros")
    } else {
        cat(engine_dir, "/macros")
    }
}

} // verus!
