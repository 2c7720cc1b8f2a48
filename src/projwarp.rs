//! Resolving a directory to a project alias through the project mapper's table.
use vstd::prelude::*;
use crate::config::{join, join_path};
use crate::events::opt_view;
use crate::text::{chars_of, forward_slashes, has_prefix, normalize_separators, same_chars, starts_with_chars};

verus! {

/// One alias of the project mapper and the directory it names.
#[derive(Debug, Clone, PartialEq, Eq)]
pub struct ProjectEntry {
    pub alias: String,
    pub path: String,
}

/// The project mapper's table, in its iteration order. The table is keyed by
/// alias, so a well-formed one holds each alias once (`well_formed`).
#[derive(Debug, Clone, PartialEq, Eq)]
pub struct ProjWarpConfig {
    pub projects: Vec<ProjectEntry>,
}

/// No two entries share an alias.
pub open spec fn aliases_unique(ps: Seq<ProjectEntry>) -> bool {
    forall|i: int, j: int|
        0 <= i < j < ps.len() ==> (#[trigger] ps[i]).alias@ != (#[trigger] ps[j]).alias@
}

impl ProjWarpConfig {
    pub open spec fn well_formed(&self) -> bool {
        aliases_unique(self.projects@)
    }
}

/// Lookups in the project mapper's table.
pub struct ProjWarp;

pub open spec fn exact_at(ps: Seq<ProjectEntry>, p: Seq<char>, i: int) -> bool {
    forward_slashes(ps[i].path@) == forward_slashes(p)
}

pub open spec fn prefix_at(ps: Seq<ProjectEntry>, p: Seq<char>, i: int) -> bool {
    has_prefix(forward_slashes(p), forward_slashes(ps[i].path@))
}

/// The first index at or after `i` whose path equals `p`, separators aside, or -1.
pub open spec fn first_exact(ps: Seq<ProjectEntry>, p: Seq<char>, i: int) -> int
    decreases ps.len() - i,
{
    if i < 0 || i >= ps.len() {
        -1
    } else if exact_at(ps, p, i) {
        i
    } else {
        first_exact(ps, p, i + 1)
    }
}

/// The first index at or after `i` whose path is a prefix of `p`, separators
/// aside, or -1.
pub open spec fn first_prefix(ps: Seq<ProjectEntry>, p: Seq<char>, i: int) -> int
    decreases ps.len() - i,
{
    if i < 0 || i >= ps.len() {
        -1
    } else if prefix_at(ps, p, i) {
        i
    } else {
        first_prefix(ps, p, i + 1)
    }
}

/// The alias for directory `p`: an exact match first, else the first prefix match.
pub open spec fn alias_for(ps: Seq<ProjectEntry>, p: Seq<char>) -> Option<Seq<char>> {
    let e = first_exact(ps, p, 0);
    let f = first_prefix(ps, p, 0);
    if 0 <= e < ps.len() {
        Some(ps[e].alias@)
    } else if 0 <= f < ps.len() {
        Some(ps[f].alias@)
    } else {
        None
    }
}

/// The first index at or after `i` with alias `a`, or -1.
pub open spec fn first_alias(ps: Seq<ProjectEntry>, a: Seq<char>, i: int) -> int
    decreases ps.len() - i,
{
    if i < 0 || i >= ps.len() {
        -1
    } else if ps[i].alias@ == a {
        i
    } else {
        first_alias(ps, a, i + 1)
    }
}

pub open spec fn path_for(ps: Seq<ProjectEntry>, a: Seq<char>) -> Option<Seq<char>> {
    let i = first_alias(ps, a, 0);
    if 0 <= i < ps.len() {
        Some(ps[i].path@)
    } else {
        None
    }
}

proof fn lemma_first_alias(ps: Seq<ProjectEntry>, a: Seq<char>, i: int)
    requires
        0 <= i,
    ensures
        -1 <= first_alias(ps, a, i) < ps.len(),
        first_alias(ps, a, i) >= 0 ==> first_alias(ps, a, i) >= i && ps[first_alias(
            ps,
            a,
            i,
        )].alias@ == a,
        forall|j: int|
            i <= j < ps.len() && ps[j].alias@ == a ==> 0 <= first_alias(ps, a, i) <= j,
    decreases ps.len() - i,
{
    if i < ps.len() && ps[i].alias@ != a {
        lemma_first_alias(ps, a, i + 1);
    }
}

impl ProjWarp {
    /// The project mapper's table file in the home directory.
    pub fn config_path(home: &str) -> (r: String)
        ensures
            r@ == join_path(home@, ".projwarp.json"@),
    {
        join(home, ".projwarp.json")
    }

    /// The alias of the project holding directory `path`: an alias whose path is
    /// `path` wins, else the first whose path is a prefix of it. Backslashes count
    /// as forward slashes on both sides.
    pub fn resolve_project(config: &ProjWarpConfig, path: &str) -> (r: Option<String>)
        ensures
            opt_view(r) == alias_for(config.projects@, path@),
    {
        let ps = &config.projects;
        let p = chars_of(normalize_separators(path).as_str());
        let mut i: usize = 0;
        while i < ps.len()
            invariant
                ps@ == config.projects@,
                i <= ps@.len(),
                p@ == forward_slashes(path@),
                first_exact(ps@, path@, 0) == first_exact(ps@, path@, i as int),
            decreases ps@.len() - i,
        {
            let q = chars_of(normalize_separators(ps[i].path.as_str()).as_str());
            if same_chars(&p, &q) {
                assert(exact_at(ps@, path@, i as int));
                assert(first_exact(ps@, path@, i as int) == i);
                let a = ps[i].alias.clone();
                assert(a@ == ps@[i as int].alias@);
                return Some(a);
            }
            i = i + 1;
        }
        let mut j: usize = 0;
        while j < ps.len()
            invariant
                ps@ == config.projects@,
                j <= ps@.len(),
                p@ == forward_slashes(path@),
                first_exact(ps@, path@, 0) == -1,
                first_prefix(ps@, path@, 0) == first_prefix(ps@, path@, j as int),
            decreases ps@.len() - j,
        {
            let q = chars_of(normalize_separators(ps[j].path.as_str()).as_str());
            if starts_with_chars(&p, &q) {
                assert(prefix_at(ps@, path@, j as int));
                assert(first_prefix(ps@, path@, j as int) == j);
                let a = ps[j].alias.clone();
                assert(a@ == ps@[j as int].alias@);
                return Some(a);
            }
            j = j + 1;
        }
        None
    }

    /// The directory of the first entry with alias `alias`; in a well-formed
    /// table, the directory of the one entry with that alias.
    pub fn get_project_path(config: &ProjWarpConfig, alias: &str) -> (r: Option<String>)
        ensures
            opt_view(r) == path_for(config.projects@, alias@),
            config.well_formed() ==> forall|i: int|
                0 <= i < config.projects@.len() && (#[trigger] config.projects@[i]).alias@
                    == alias@ ==> opt_view(r) == Some(config.projects@[i].path@),
    {
        proof {
            lemma_first_alias(config.projects@, alias@, 0);
        }
        let ps = &config.projects;
        let a = chars_of(alias);
        let mut i: usize = 0;
        while i < ps.len()
            invariant
                ps@ == config.projects@,
                i <= ps@.len(),
                a@ == alias@,
                first_alias(ps@, alias@, 0) == first_alias(ps@, alias@, i as int),
            decreases ps@.len() - i,
        {
            if same_chars(&chars_of(ps[i].alias.as_str()), &a) {
                assert(first_alias(ps@, alias@, i as int) == i);
                let q = ps[i].path.clone();
                assert(q@ == ps@[i as int].path@);
                return Some(q);
            }
            i = i + 1;
        }
        None
    }
}

} // verus!
