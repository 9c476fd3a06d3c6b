use vstd::prelude::*;
use vstd::string::*;
use crate::dependency::Dependency;
use crate::data_grammar::{all_word, all_word_prefix, digits_exec, digits_in, first_of};
use crate::text::{chars_of, join, lemma_join_free, lemma_split_join, parse_usize, split_char, split_on, usize_of};
use crate::util::{find_char, find_from};
use crate::data_grammar::tail_string;
use crate::text::{slice_chars, string_of};

verus! {

/// The lines of the data file, in order.
#[derive(Clone, Copy, Debug, PartialEq, Eq)]
pub enum Data {
    Components,
    Globals,
    Events,
    Systems,
    Dependencies,
    EngineTraits,
    EngineGlobals,
    CratePaths,
    EngineCrateIdx,
}

/// The number of data lines.
pub const DATA_LEN: usize = 9;

impl Data {
    /// The line of this kind of data.
    pub open spec fn pos(self) -> int {
        match self {
            Data::Components => 0,
            Data::Globals => 1,
            Data::Events => 2,
            Data::Systems => 3,
            Data::Dependencies => 4,
            Data::EngineTraits => 5,
            Data::EngineGlobals => 6,
            Data::CratePaths => 7,
            Data::EngineCrateIdx => 8,
        }
    }

    /// The line of this kind of data.
    pub fn index(&self) -> (i: usize)
        ensures
            i == self.pos(),
    {
        match self {
            Data::Components => 0,
            Data::Globals => 1,
            Data::Events => 2,
            Data::Systems => 3,
            Data::Dependencies => 4,
            Data::EngineTraits => 5,
            Data::EngineGlobals => 6,
            Data::CratePaths => 7,
            Data::EngineCrateIdx => 8,
        }
    }
}

/// The entries of each data line, as the data file is read.
#[derive(Debug)]
pub struct Decoder {
    pub data: Vec<Vec<String>>,
}

/// The entries of the first lines of `contents`: each line split at `;`.
pub open spec fn decoded(contents: Seq<char>) -> Seq<Seq<Seq<char>>> {
    split_on(contents, '\n').take(DATA_LEN as int).map_values(|l: Seq<char>| split_on(l, ';'))
}

impl Decoder {
    /// The entries of each line as characters.
    pub open spec fn lines(&self) -> Seq<Seq<Seq<char>>> {
        self.data@.map_values(|v: Vec<String>| v.deep_view())
    }

    /// There is one entry list per kind of data.
    pub open spec fn wf(&self) -> bool {
        self.data@.len() == DATA_LEN
    }

    /// Reads the data file's contents: its first lines, each split at `;`.
    pub fn new(contents: &str) -> (d: Decoder)
        requires
            split_on(contents@, '\n').len() >= DATA_LEN,
        ensures
            d.wf(),
            d.lines() == decoded(contents@),
    {
        let lines = split_char(contents, '\n');
        let mut data: Vec<Vec<String>> = Vec::new();
        let mut i: usize = 0;
        while i < DATA_LEN
            invariant
                i <= DATA_LEN,
                lines.deep_view() == split_on(contents@, '\n'),
                lines@.len() >= DATA_LEN,
                data@.len() == i,
                data@.map_values(|v: Vec<String>| v.deep_view()) == split_on(contents@, '\n').take(i as int).map_values(|l: Seq<char>| split_on(l, ';')),
            decreases DATA_LEN - i,
        {
            let entries = split_char(lines[i].as_str(), ';');
            let ghost old_data = data@;
            data.push(entries);
            proof {
                assert(lines.deep_view()[i as int] == lines@[i as int]@);
                let target = split_on(contents@, '\n').take(i + 1).map_values(|l: Seq<char>| split_on(l, ';'));
                let prev = split_on(contents@, '\n').take(i as int).map_values(|l: Seq<char>| split_on(l, ';'));
                assert forall|j: int| 0 <= j < i + 1 implies data@.map_values(|v: Vec<String>| v.deep_view())[j] == target[j] by {
                    if j < i {
                        assert(data@[j] == old_data[j]);
                        assert(old_data.map_values(|v: Vec<String>| v.deep_view())[j] == prev[j]);
                    }
                }
                assert(data@.map_values(|v: Vec<String>| v.deep_view()) =~= target);
            }
            i = i + 1;
        }
        Decoder { data }
    }

    /// Reads the data file's contents, or none when it has too few lines.
    pub fn from_contents(contents: &str) -> (d: Option<Decoder>)
        ensures
            split_on(contents@, '\n').len() >= DATA_LEN ==> d is Some && (d->0).wf() && (d->0).lines() == decoded(contents@),
            split_on(contents@, '\n').len() < DATA_LEN ==> d is None,
    {
        let lines = split_char(contents, '\n');
        if lines.len() < DATA_LEN {
            None
        } else {
            Some(Self::new(contents))
        }
    }
}


/// The pieces of `s` that are not empty, in order.
pub open spec fn non_empty(s: Seq<Seq<char>>) -> Seq<Seq<char>>
    decreases s.len(),
{
    if s.len() == 0 {
        seq![]
    } else {
        let r = non_empty(s.drop_last());
        if s.last().len() == 0 { r } else { r.push(s.last()) }
    }
}

/// `s` split at its first `c`.
pub open spec fn split_once(s: Seq<char>, c: char) -> Option<(Seq<char>, Seq<char>)> {
    match first_of(s, c) {
        None => None,
        Some(k) => Some((s.take(k), s.skip(k + 1))),
    }
}

/// An engine global's entry `<crate>_<index>`.
pub open spec fn global_entry(s: Seq<char>) -> Option<(usize, usize)> {
    match split_once(s, '_') {
        None => None,
        Some((a, b)) => match (usize_of(a), usize_of(b)) {
            (Some(x), Some(y)) => Some((x, y)),
            _ => None,
        },
    }
}

/// The number of engine globals.
pub const ENGINE_GLOBALS_LEN: usize = 8;

/// The crate and the index of each engine global, from the first entry of their
/// line, when it lists them all.
pub open spec fn engine_globals_of(lines: Seq<Seq<Seq<char>>>) -> Option<Seq<(usize, usize)>> {
    let line = lines[Data::EngineGlobals.pos()];
    if line.len() == 0 {
        None
    } else {
        let es = split_on(line[0], ',');
        if es.len() < ENGINE_GLOBALS_LEN || exists|i: int| 0 <= i < ENGINE_GLOBALS_LEN && #[trigger] global_entry(es[i]) is None {
            None
        } else {
            Some(Seq::new(ENGINE_GLOBALS_LEN as nat, |i: int| global_entry(es[i])->0))
        }
    }
}

/// The engine crate's index, from the first entry of its line.
pub open spec fn engine_crate_of(lines: Seq<Seq<Seq<char>>>) -> Option<usize> {
    let line = lines[Data::EngineCrateIdx.pos()];
    if line.len() == 0 { None } else { usize_of(line[0]) }
}

/// A dependency entry `<alias>:<index>`: word characters, `:`, digits.
pub open spec fn dep_entry(s: Seq<char>) -> Option<(usize, Seq<char>)> {
    match first_of(s, ':') {
        None => None,
        Some(k) => {
            let idx = s.skip(k + 1);
            if k > 0 && all_word_prefix(s, k) && digits_in(idx, 0, idx.len() as int) {
                match usize_of(idx) {
                    Some(n) => Some((n, s.take(k))),
                    None => None,
                }
            } else {
                None
            }
        },
    }
}

/// The dependency that an entry names (when it names one).
pub open spec fn dep_entry_fn() -> spec_fn(Seq<char>) -> (usize, Seq<char>) {
    |x: Seq<char>| dep_entry(x)->0
}

/// The dependencies between the `(` at `p` and the first `)` after it: none
/// or a `,`-separated list of entries.
pub open spec fn dep_body(s: Seq<char>, p: int) -> Option<Seq<(usize, Seq<char>)>> {
    match find_from(s, ')', p + 1) {
        None => None,
        Some(q) => {
            let deps = s.subrange(p + 1, q);
            if deps.len() == 0 {
                Some(seq![])
            } else {
                let ps = split_on(deps, ',');
                if forall|i: int| 0 <= i < ps.len() ==> #[trigger] dep_entry(ps[i]) is Some {
                    Some(ps.map_values(dep_entry_fn()))
                } else {
                    None
                }
            }
        },
    }
}

/// Scanning `s` from `i`, with the directory starting at `a`: a `)` starts
/// the directory anew after it; at a `(` the dependencies follow when they can
/// be read, else the directory starts anew after it.
pub open spec fn dep_line_scan(s: Seq<char>, a: int, i: int) -> Option<(Seq<char>, Seq<(usize, Seq<char>)>)>
    decreases s.len() - i,
{
    if i < 0 || i >= s.len() {
        None
    } else if s[i] == ')' {
        dep_line_scan(s, i + 1, i + 1)
    } else if s[i] == '(' {
        match dep_body(s, i) {
            Some(d) => Some((s.subrange(a, i), d)),
            None => dep_line_scan(s, i + 1, i + 1),
        }
    } else {
        dep_line_scan(s, a, i + 1)
    }
}

/// A dependency line `<dir>(<alias>:<index>,...)`, found where it first
/// occurs in the line: the directory (free of parentheses) and the
/// dependencies.
pub open spec fn dep_line(s: Seq<char>) -> Option<(Seq<char>, Seq<(usize, Seq<char>)>)> {
    dep_line_scan(s, 0, 0)
}

/// Dependencies as numbers and characters.
pub open spec fn dep_views(v: Seq<Dependency>) -> Seq<(usize, Seq<char>)> {
    v.map_values(|d: Dependency| (d.cr_idx, d.alias@))
}

fn dep_entry_exec(s: &str) -> (r: Option<Dependency>)
    ensures
        match r {
            Some(d) => dep_entry(s@) == Some((d.cr_idx, d.alias@)),
            None => dep_entry(s@) is None,
        },
{
    let v = chars_of(s);
    let k = match find_char(&v, ':', 0) {
        Some(k) => k,
        None => return None,
    };
    let idx = tail_string(&v, k + 1);
    let idx_v = chars_of(idx.as_str());
    if k == 0 || !all_word(&v, k) || !digits_exec(&idx_v, 0, idx_v.len()) {
        return None;
    }
    match parse_usize(idx.as_str()) {
        Some(n) => {
            let a = slice_chars(&v, 0, k);
            let alias = string_of(&a);
            proof {
                assert(s@.take(k as int) =~= alias@);
            }
            Some(Dependency { cr_idx: n, alias })
        },
        None => None,
    }
}

fn dep_body_exec(v: &Vec<char>, p: usize) -> (r: Option<Vec<Dependency>>)
    requires
        p < v@.len(),
    ensures
        match r {
            Some(ds) => dep_body(v@, p as int) == Some(dep_views(ds@)),
            None => dep_body(v@, p as int) is None,
        },
{
    let n = v.len();
    let q = match find_char(v, ')', p + 1) {
        Some(q) => q,
        None => return None,
    };
    let dv = slice_chars(v, p + 1, q);
    let deps = string_of(&dv);
    if dv.len() == 0 {
        let ds: Vec<Dependency> = Vec::new();
        proof {
            assert(dep_views(ds@) =~= Seq::<(usize, Seq<char>)>::empty());
            assert(v@.subrange(p + 1, q as int).len() == 0);
        }
        return Some(ds);
    }
    let pieces = split_char(deps.as_str(), ',');
    let mut ds: Vec<Dependency> = Vec::new();
    let mut i: usize = 0;
    while i < pieces.len()
        invariant
            i <= pieces@.len(),
            ds@.len() == i,
            n == v@.len(),
            p + 1 <= q < v@.len(),
            find_from(v@, ')', p + 1) == Some(q as int),
            deps@.len() > 0,
            deps@ == v@.subrange(p + 1, q as int),
            pieces.deep_view() == split_on(deps@, ','),
            forall|j: int| 0 <= j < i ==> #[trigger] dep_entry(split_on(deps@, ',')[j]) is Some,
            dep_views(ds@) == split_on(deps@, ',').take(i as int).map_values(dep_entry_fn()),
        decreases pieces.len() - i,
    {
        proof {
            assert(pieces.deep_view()[i as int] == pieces@[i as int]@);
        }
        match dep_entry_exec(pieces[i].as_str()) {
            Some(d) => {
                let ghost old_ds = ds@;
                ds.push(d);
                proof {
                    let target = split_on(deps@, ',').take(i + 1).map_values(dep_entry_fn());
                    let prev = split_on(deps@, ',').take(i as int).map_values(dep_entry_fn());
                    assert forall|j: int| 0 <= j < i + 1 implies dep_views(ds@)[j] == target[j] by {
                        if j < i {
                            assert(ds@[j] == old_ds[j]);
                            assert(dep_views(old_ds)[j] == prev[j]);
                        }
                    }
                    assert(dep_views(ds@) =~= target);
                }
            },
            None => {
                proof {
                    assert(dep_entry(split_on(deps@, ',')[i as int]) is None);
                }
                return None;
            },
        }
        i = i + 1;
    }
    proof {
        assert(split_on(deps@, ',').take(pieces@.len() as int) =~= split_on(deps@, ','));
    }
    Some(ds)
}

/// Reads one dependency line (see `dep_line`).
pub fn parse_dep_line(s: &str) -> (r: Option<(String, Vec<Dependency>)>)
    ensures
        match r {
            Some((f, ds)) => dep_line(s@) == Some((f@, dep_views(ds@))),
            None => dep_line(s@) is None,
        },
{
    let v = chars_of(s);
    let mut a: usize = 0;
    let mut i: usize = 0;
    while i < v.len()
        invariant
            v@ == s@,
            a <= i <= v@.len(),
            dep_line(s@) == dep_line_scan(s@, a as int, i as int),
        decreases v.len() - i,
    {
        if v[i] == ')' {
            a = i + 1;
        } else if v[i] == '(' {
            match dep_body_exec(&v, i) {
                Some(ds) => {
                    let fv = slice_chars(&v, a, i);
                    let file = string_of(&fv);
                    return Some((file, ds));
                },
                None => {
                    a = i + 1;
                },
            }
        }
        i = i + 1;
    }
    None
}


/// The entries of every dependency line, when all of them can be read.
pub open spec fn deps_of(lines: Seq<Seq<Seq<char>>>) -> Option<Seq<(Seq<char>, Seq<(usize, Seq<char>)>)>> {
    let line = lines[Data::Dependencies.pos()];
    if forall|i: int| 0 <= i < line.len() ==> #[trigger] dep_line(line[i]) is Some {
        Some(line.map_values(|l: Seq<char>| dep_line(l)->0))
    } else {
        None
    }
}

fn split_non_empty(s: &str, sep: char) -> (r: Vec<String>)
    ensures
        r.deep_view() == non_empty(split_on(s@, sep)),
{
    let pieces = split_char(s, sep);
    let mut r: Vec<String> = Vec::new();
    let mut i: usize = 0;
    while i < pieces.len()
        invariant
            i <= pieces@.len(),
            pieces.deep_view() == split_on(s@, sep),
            r.deep_view() == non_empty(split_on(s@, sep).take(i as int)),
        decreases pieces.len() - i,
    {
        proof {
            assert(pieces.deep_view()[i as int] == pieces@[i as int]@);
            assert(split_on(s@, sep).take(i + 1).drop_last() =~= split_on(s@, sep).take(i as int));
        }
        if pieces[i].unicode_len() > 0 {
            let ghost old_r = r@;
            r.push(pieces[i].clone());
            proof {
                assert forall|j: int| 0 <= j < r@.len() implies r.deep_view()[j] == old_r.map_values(|x: String| x@).push(pieces@[i as int]@)[j] by {
                    if j < old_r.len() {
                        assert(r@[j] == old_r[j]);
                    }
                }
                assert(r.deep_view() =~= non_empty(split_on(s@, sep).take(i + 1)));
            }
        }
        i = i + 1;
    }
    proof {
        assert(split_on(s@, sep).take(pieces@.len() as int) =~= split_on(s@, sep));
    }
    r
}

impl Decoder {
    /// The entry of crate `cr_idx` in the line of `data`.
    pub fn get_crate_data(&self, data: Data, cr_idx: usize) -> (r: &String)
        requires
            self.wf(),
            cr_idx < self.lines()[data.pos()].len(),
        ensures
            r@ == self.lines()[data.pos()][cr_idx as int],
    {
        proof {
            assert(self.lines()[data.pos()] == self.data@[data.pos()].deep_view());
        }
        &self.data[data.index()][cr_idx]
    }

    /// The non-empty pieces of the entry of crate `cr_idx` in the line of
    /// `data`, split at `sep`.
    pub fn split_crate_data(&self, data: Data, cr_idx: usize, sep: char) -> (r: Vec<String>)
        requires
            self.wf(),
            cr_idx < self.lines()[data.pos()].len(),
        ensures
            r.deep_view() == non_empty(split_on(self.lines()[data.pos()][cr_idx as int], sep)),
    {
        let e = self.get_crate_data(data, cr_idx);
        split_non_empty(e.as_str(), sep)
    }

    /// The crate and index of each engine global, when their line lists them.
    #[verifier::loop_isolation(false)]
    pub fn try_engine_globals(&self) -> (r: Option<Vec<(usize, usize)>>)
        requires
            self.wf(),
        ensures
            match r {
                Some(v) => engine_globals_of(self.lines()) == Some(v@),
                None => engine_globals_of(self.lines()) is None,
            },
    {
        let ghost lines = self.lines();
        proof {
            assert(lines[Data::EngineGlobals.pos()] == self.data@[Data::EngineGlobals.pos()].deep_view());
        }
        let line = &self.data[Data::EngineGlobals.index()];
        if line.len() == 0 {
            return None;
        }
        let es = split_char(line[0].as_str(), ',');
        proof {
            assert(line.deep_view()[0] == line@[0]@);
        }
        if es.len() < ENGINE_GLOBALS_LEN {
            return None;
        }
        let mut out: Vec<(usize, usize)> = Vec::new();
        let mut i: usize = 0;
        while i < ENGINE_GLOBALS_LEN
            invariant
                i <= ENGINE_GLOBALS_LEN <= es@.len(),
                es.deep_view() == split_on(lines[Data::EngineGlobals.pos()][0], ','),
                out@.len() == i,
                forall|j: int| 0 <= j < i ==> #[trigger] global_entry(es.deep_view()[j]) == Some(out@[j]),
            decreases ENGINE_GLOBALS_LEN - i,
        {
            let e = &es[i];
            proof {
                assert(es.deep_view()[i as int] == e@);
            }
            let ev = chars_of(e.as_str());
            let ghost es_v = split_on(lines[Data::EngineGlobals.pos()][0], ',');
            let k = match find_char(&ev, '_', 0) {
                Some(k) => k,
                None => {
                    proof {
                        assert(global_entry(es_v[i as int]) is None);
                    }
                    return None;
                },
            };
            let av = slice_chars(&ev, 0, k);
            let a = string_of(&av);
            let b = tail_string(&ev, k + 1);
            proof {
                assert(e@.take(k as int) =~= a@);
            }
            proof {
                assert(split_once(e@, '_') == Some((a@, b@)));
            }
            let x = match parse_usize(a.as_str()) {
                Some(x) => x,
                None => {
                    proof {
                        assert(global_entry(es_v[i as int]) is None);
                    }
                    return None;
                },
            };
            let y = match parse_usize(b.as_str()) {
                Some(y) => y,
                None => {
                    proof {
                        assert(global_entry(es_v[i as int]) is None);
                    }
                    return None;
                },
            };
            out.push((x, y));
            i = i + 1;
        }
        proof {
            let es_v = split_on(lines[Data::EngineGlobals.pos()][0], ',');
            assert(out@ =~= Seq::new(ENGINE_GLOBALS_LEN as nat, |i: int| global_entry(es_v[i])->0));
        }
        Some(out)
    }

    /// The crate and index of each engine global, whose line lists them.
    pub fn get_engine_globals(&self) -> (r: Vec<(usize, usize)>)
        requires
            self.wf(),
            engine_globals_of(self.lines()) is Some,
        ensures
            engine_globals_of(self.lines()) == Some(r@),
    {
        match self.try_engine_globals() {
            Some(v) => v,
            None => {
                proof {
                    assert(false);
                }
                Vec::new()
            },
        }
    }

    /// The engine crate's index, when its line holds one.
    pub fn try_engine_crate_index(&self) -> (r: Option<usize>)
        requires
            self.wf(),
        ensures
            r == engine_crate_of(self.lines()),
    {
        proof {
            assert(self.lines()[Data::EngineCrateIdx.pos()] == self.data@[Data::EngineCrateIdx.pos()].deep_view());
        }
        let line = &self.data[Data::EngineCrateIdx.index()];
        if line.len() == 0 {
            return None;
        }
        proof {
            assert(line.deep_view()[0] == line@[0]@);
        }
        parse_usize(line[0].as_str())
    }

    /// The engine crate's index, whose line holds one.
    pub fn get_engine_crate_index(&self) -> (r: usize)
        requires
            self.wf(),
            engine_crate_of(self.lines()) is Some,
        ensures
            engine_crate_of(self.lines()) == Some(r),
    {
        match self.try_engine_crate_index() {
            Some(i) => i,
            None => 0,
        }
    }

    /// The directory and the dependencies of every crate, when every
    /// dependency line can be read (see `dep_line`).
    pub fn try_dependencies(&self) -> (r: Option<Vec<(String, Vec<Dependency>)>>)
        requires
            self.wf(),
        ensures
            match r {
                Some(v) => deps_of(self.lines()) is Some && v@.len() == (deps_of(self.lines())->0).len()
                    && forall|i: int| 0 <= i < v@.len() ==> (#[trigger] v@[i]).0@ == (deps_of(self.lines())->0)[i].0
                        && dep_views(v@[i].1@) == (deps_of(self.lines())->0)[i].1,
                None => deps_of(self.lines()) is None,
            },
    {
        let ghost line_v = self.lines()[Data::Dependencies.pos()];
        proof {
            assert(line_v == self.data@[Data::Dependencies.pos()].deep_view());
        }
        let line = &self.data[Data::Dependencies.index()];
        let mut out: Vec<(String, Vec<Dependency>)> = Vec::new();
        let mut i: usize = 0;
        while i < line.len()
            invariant
                i <= line@.len(),
                line_v == line.deep_view(),
                line_v == self.lines()[Data::Dependencies.pos()],
                out@.len() == i,
                forall|j: int| 0 <= j < i ==> #[trigger] dep_line(line_v[j]) is Some,
                forall|j: int| 0 <= j < i ==> (#[trigger] out@[j]).0@ == (dep_line(line_v[j])->0).0
                    && dep_views(out@[j].1@) == (dep_line(line_v[j])->0).1,
            decreases line.len() - i,
        {
            proof {
                assert(line_v[i as int] == line@[i as int]@);
            }
            match parse_dep_line(line[i].as_str()) {
                Some(x) => {
                    out.push(x);
                },
                None => {
                    return None;
                },
            }
            i = i + 1;
        }
        proof {
            assert(deps_of(self.lines()) is Some);
            let d = deps_of(self.lines())->0;
            assert(d.len() == line_v.len());
            assert forall|j: int| 0 <= j < out@.len() implies (#[trigger] out@[j]).0@ == d[j].0 && dep_views(out@[j].1@) == d[j].1 by {
                assert(d[j] == dep_line(line_v[j])->0);
            }
        }
        Some(out)
    }

    /// The directory and the dependencies of every crate; every dependency
    /// line must be readable (see `dep_line`).
    pub fn get_dependencies(&self) -> (r: Vec<(String, Vec<Dependency>)>)
        requires
            self.wf(),
            deps_of(self.lines()) is Some,
        ensures
            r@.len() == (deps_of(self.lines())->0).len(),
            forall|i: int| 0 <= i < r@.len() ==> (#[trigger] r@[i]).0@ == (deps_of(self.lines())->0)[i].0
                && dep_views(r@[i].1@) == (deps_of(self.lines())->0)[i].1,
    {
        match self.try_dependencies() {
            Some(v) => v,
            None => {
                proof {
                    assert(false);
                }
                Vec::new()
            },
        }
    }
}


/// The text of the data file: the entries of each line joined by `;`, the lines
/// joined by line breaks.
pub open spec fn encoded(entries: Seq<Seq<Seq<char>>>) -> Seq<char> {
    join(entries.map_values(|l: Seq<Seq<char>>| join(l, ";"@)), "\n"@)
}

/// What the decoder reads from the data file is what was written into it: for
/// every line with at least one entry and entries free of `;` and line breaks.
pub proof fn lemma_decode_encode(entries: Seq<Seq<Seq<char>>>)
    requires
        entries.len() == DATA_LEN,
        forall|i: int| 0 <= i < entries.len() ==> (#[trigger] entries[i]).len() >= 1,
        forall|i: int, j: int| 0 <= i < entries.len() && 0 <= j < entries[i].len() ==>
            !(#[trigger] entries[i][j]).contains(';') && !entries[i][j].contains('\n'),
    ensures
        decoded(encoded(entries)) == entries,
{
    reveal_strlit(";");
    reveal_strlit("\n");
    assert(";"@ =~= seq![';']);
    assert("\n"@ =~= seq!['\n']);
    let lines = entries.map_values(|l: Seq<Seq<char>>| join(l, ";"@));
    assert forall|i: int| 0 <= i < lines.len() implies !(#[trigger] lines[i]).contains('\n') by {
        assert(!seq![';'].contains('\n')) by {
            if seq![';'].contains('\n') {
                let k = choose|k: int| 0 <= k < 1 && seq![';'][k] == '\n';
            }
        }
        assert forall|j: int| 0 <= j < entries[i].len() implies !(#[trigger] entries[i][j]).contains('\n') by {}
        lemma_join_free(entries[i], seq![';'], '\n');
    }
    lemma_split_join(lines, '\n');
    assert(split_on(encoded(entries), '\n') == lines);
    assert(lines.take(DATA_LEN as int) =~= lines);
    assert forall|i: int| 0 <= i < entries.len() implies #[trigger] split_on(lines[i], ';') == entries[i] by {
        assert forall|j: int| 0 <= j < entries[i].len() implies !(#[trigger] entries[i][j]).contains(';') by {}
        lemma_split_join(entries[i], ';');
    }
    assert(decoded(encoded(entries)) =~= entries);
}

} // verus!
