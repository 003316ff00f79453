//! The reverse-dependency index: one full scan over the repository-package
//! universe builds, for each dependency kind, an inverted map from a package
//! name to the set of names of the packages that depend on it. The index is
//! built once and read-only thereafter; a name nothing depends on is simply
//! absent, and lookups default to the empty set.

use vstd::prelude::*;

use crate::info::{clone_string_vec, DepInfo, PackageInfo};

verus! {

/// A set of reverse-dependency names: insertion-ordered and duplicate-free.
#[derive(Debug)]
pub struct ReverseDeps(pub Vec<String>);

impl ReverseDeps {
    /// Whether the set holds the name `n`.
    pub open spec fn has(self, n: Seq<char>) -> bool {
        exists|i: int| 0 <= i < self.0@.len() && self.0@[i]@ == n
    }

    /// The names are pairwise distinct.
    pub open spec fn wf(self) -> bool {
        forall|i: int, j: int| 0 <= i < j < self.0@.len() ==> self.0@[i]@ != self.0@[j]@
    }

    /// Makes a new, empty set of reverse dependencies.
    pub fn new() -> (r: Self)
        ensures
            r.0@.len() == 0,
            r.wf(),
    {
        ReverseDeps(Vec::new())
    }

    /// Whether the set holds the given name.
    pub fn contains(&self, name: &String) -> (r: bool)
        ensures
            r == self.has(name@),
    {
        let mut i: usize = 0;
        while i < self.0.len()
            invariant
                i <= self.0.len(),
                forall|k: int| 0 <= k < i ==> self.0@[k]@ != name@,
            decreases self.0.len() - i,
        {
            if self.0[i] == *name {
                return true;
            }
            i = i + 1;
        }
        false
    }

    /// Adds a name; a name already present is not repeated and the insertion
    /// order of the others is untouched.
    pub fn insert(&mut self, name: String)
        ensures
            old(self).has(name@) ==> final(self).0@ == old(self).0@,
            !old(self).has(name@) ==> final(self).0@ == old(self).0@.push(name),
            old(self).wf() ==> final(self).wf(),
    {
        if !self.contains(&name) {
            let ghost pre = *self;
            self.0.push(name);
            proof {
                assert(self.0@ == pre.0@.push(name));
                if pre.wf() {
                    assert forall|i: int, j: int|
                        0 <= i < j < self.0@.len() implies self.0@[i]@ != self.0@[j]@ by {
                        if j < pre.0@.len() {
                        } else {
                            assert(self.0@[j]@ == name@);
                            assert(!pre.has(name@));
                            assert(pre.0@[i]@ != name@);
                        }
                    }
                }
            }
        }
    }
}

impl Clone for ReverseDeps {
    /// A cloned set holds the same names in the same order.
    fn clone(&self) -> (r: Self)
        ensures
            r.0@ == self.0@,
    {
        ReverseDeps(clone_string_vec(&self.0))
    }
}

/// One entry of a reverse-dependency map: a package name and the set of
/// names of the packages depending on it.
pub struct RevEntry {
    pub name: String,
    pub deps: ReverseDeps,
}

/// A map from a package's name to the names of the packages that depend on
/// it, held as an association list whose keys are unique.
pub struct ReverseDepsMap {
    pub entries: Vec<RevEntry>,
}

/// The index of the first entry whose name is `n`, scanning from `k`.
pub open spec fn find_key_from(s: Seq<RevEntry>, n: Seq<char>, k: int) -> Option<int>
    decreases s.len() - k,
{
    if k < 0 || k >= s.len() {
        Option::None
    } else if s[k].name@ == n {
        Option::Some(k)
    } else {
        find_key_from(s, n, k + 1)
    }
}

impl ReverseDepsMap {
    /// Whether the map has an entry for the name `n`.
    pub open spec fn has_key(self, n: Seq<char>) -> bool {
        find_key_from(self.entries@, n, 0) is Some
    }

    /// The recorded dependents of `n`: the empty sequence when `n` is absent.
    pub open spec fn members(self, n: Seq<char>) -> Seq<String> {
        match find_key_from(self.entries@, n, 0) {
            Option::None => Seq::empty(),
            Option::Some(i) => self.entries@[i].deps.0@,
        }
    }

    /// Whether the package named `p` is recorded as a dependent of `n`.
    pub open spec fn linked(self, n: Seq<char>, p: Seq<char>) -> bool {
        exists|k: int| 0 <= k < self.members(n).len() && self.members(n)[k]@ == p
    }

    /// Keys are unique and every entry holds a well-formed, non-empty set:
    /// a name without dependents has no entry at all.
    pub open spec fn wf(self) -> bool {
        &&& forall|i: int, j: int|
            0 <= i < j < self.entries@.len() ==> self.entries@[i].name@ != self.entries@[j].name@
        &&& forall|i: int|
            0 <= i < self.entries@.len() ==> (#[trigger] self.entries@[i]).deps.wf()
                && self.entries@[i].deps.0@.len() > 0
    }

    /// Makes a new, empty map.
    pub fn new() -> (r: Self)
        ensures
            r.entries@.len() == 0,
            r.wf(),
            forall|n: Seq<char>| !r.has_key(n),
            forall|n: Seq<char>, p: Seq<char>| !r.linked(n, p),
    {
        let r = ReverseDepsMap { entries: Vec::new() };
        proof {
            assert(forall|n: Seq<char>| find_key_from(r.entries@, n, 0) is None);
        }
        r
    }

    /// Looks the name up and returns a copy of its dependents, or the empty
    /// set for a name without an entry.
    pub fn get_or_empty(&self, name: &String) -> (r: ReverseDeps)
        ensures
            r.0@ == self.members(name@),
    {
        let mut i: usize = 0;
        while i < self.entries.len()
            invariant
                i <= self.entries.len(),
                forall|k: int| 0 <= k < i ==> self.entries@[k].name@ != name@,
            decreases self.entries.len() - i,
        {
            if self.entries[i].name == *name {
                proof {
                    lemma_find_key_first(self.entries@, name@, i as int);
                }
                return self.entries[i].deps.clone();
            }
            i = i + 1;
        }
        proof {
            lemma_find_key_none(self.entries@, name@);
        }
        ReverseDeps::new()
    }

    /// Records that the package named `dependent` depends on the package
    /// named `target`, creating the entry for `target` on first use.
    pub fn add_edge(&mut self, target: String, dependent: String)
        requires
            old(self).wf(),
        ensures
            final(self).wf(),
            forall|n: Seq<char>, p: Seq<char>|
                final(self).linked(n, p) <==> old(self).linked(n, p) || (n == target@ && p
                    == dependent@),
    {
        let ghost pre = *self;
        let mut i: usize = 0;
        while i < self.entries.len()
            invariant
                *self == pre,
                pre == *old(self),
                pre.wf(),
                i <= self.entries.len(),
                forall|k: int| 0 <= k < i ==> self.entries@[k].name@ != target@,
            decreases self.entries.len() - i,
        {
            if self.entries[i].name == target {
                proof {
                    lemma_find_key_first(self.entries@, target@, i as int);
                }
                let mut e = self.entries.remove(i);
                proof {
                    assert(e == pre.entries@[i as int]);
                    assert(pre.entries@[i as int].deps.wf());
                    assert(pre.entries@[i as int].deps.0@.len() > 0);
                }
                let ghost had = e.deps.has(dependent@);
                e.deps.insert(dependent);
                self.entries.insert(i, e);
                proof {
                    assert(e.name@ == pre.entries@[i as int].name@);
                    assert(e.deps.wf());
                    assert(self.entries@ =~= pre.entries@.update(i as int, e));
                    lemma_same_names_same_find(pre.entries@, self.entries@, target@);
                    assert(self.members(target@) == e.deps.0@);
                    assert forall|n: Seq<char>| n != target@ implies self.members(n)
                        == pre.members(n) by {
                        lemma_same_names_same_find(pre.entries@, self.entries@, n);
                        match find_key_from(pre.entries@, n, 0) {
                            Option::None => {},
                            Option::Some(j) => {
                                lemma_find_key_props(pre.entries@, n, 0);
                                assert(pre.entries@[j].name@ == n);
                                assert(j != i);
                            },
                        }
                    }
                    assert forall|n: Seq<char>, p: Seq<char>|
                        self.linked(n, p) <==> (pre.linked(n, p) || (n == target@ && p
                            == dependent@)) by {
                        if n == target@ {
                            assert(pre.members(n) == pre.entries@[i as int].deps.0@);
                            if had {
                                assert(e.deps.0@ == pre.entries@[i as int].deps.0@);
                                assert(self.members(n) == pre.members(n));
                                if n == target@ && p == dependent@ {
                                    let w = choose|w: int|
                                        0 <= w < pre.entries@[i as int].deps.0@.len()
                                            && pre.entries@[i as int].deps.0@[w]@ == dependent@;
                                    assert(pre.members(n)[w]@ == p);
                                    assert(pre.linked(n, p));
                                }
                            } else {
                                assert(e.deps.0@ == pre.entries@[i as int].deps.0@.push(
                                    dependent,
                                ));
                                let m0 = pre.members(n);
                                assert(self.members(n) =~= m0.push(dependent));
                                if self.linked(n, p) {
                                    let w = choose|w: int|
                                        0 <= w < self.members(n).len() && self.members(n)[w]@
                                            == p;
                                    if w < m0.len() {
                                        assert(pre.linked(n, p));
                                    } else {
                                        assert(p == dependent@);
                                    }
                                }
                                if pre.linked(n, p) {
                                    let w = choose|w: int|
                                        0 <= w < m0.len() && m0[w]@ == p;
                                    assert(self.members(n)[w]@ == p);
                                }
                                if p == dependent@ {
                                    assert(self.members(n)[m0.len() as int]@ == p);
                                }
                            }
                        } else {
                            lemma_same_names_same_find(pre.entries@, self.entries@, n);
                            match find_key_from(pre.entries@, n, 0) {
                                Option::None => {
                                    assert(self.members(n).len() == 0);
                                    assert(pre.members(n).len() == 0);
                                },
                                Option::Some(j) => {
                                    lemma_find_key_props(pre.entries@, n, 0);
                                    assert(pre.entries@[j].name@ == n);
                                    assert(j != i);
                                    assert(self.entries@[j] == pre.entries@[j]);
                                    assert(self.members(n) == pre.members(n));
                                },
                            }
                        }
                    }
                    lemma_wf_update(pre, *self, i as int, e, dependent@);
                }
                return;
            }
            i = i + 1;
        }
        let mut deps = ReverseDeps::new();
        deps.insert(dependent);
        self.entries.push(RevEntry { name: target, deps });
        proof {
            lemma_find_key_none(pre.entries@, target@);
            let last = (self.entries@.len() - 1) as int;
            assert(self.entries@[last].name@ == target@);
            assert forall|n: Seq<char>| n != target@ implies self.members(n) == pre.members(
                n,
            ) by {
                lemma_find_key_push(pre.entries@, self.entries@[last], n);
                match find_key_from(pre.entries@, n, 0) {
                    Option::None => {},
                    Option::Some(j) => {
                        lemma_find_key_props(pre.entries@, n, 0);
                        assert(self.entries@[j] == pre.entries@[j]);
                    },
                }
            }
            lemma_find_key_first(self.entries@, target@, last);
            assert(self.members(target@) == self.entries@[last].deps.0@);
            assert(self.members(target@).len() == 1);
            assert(self.members(target@)[0]@ == dependent@);
            assert forall|n: Seq<char>, p: Seq<char>|
                self.linked(n, p) <==> (pre.linked(n, p) || (n == target@ && p
                    == dependent@)) by {
                if n == target@ {
                    assert(pre.members(n).len() == 0);
                    if self.linked(n, p) {
                        let w = choose|w: int|
                            0 <= w < self.members(n).len() && self.members(n)[w]@ == p;
                        assert(w == 0);
                        assert(p == dependent@);
                    }
                    if p == dependent@ {
                        assert(self.members(n)[0]@ == p);
                    }
                } else {
                    lemma_find_key_push(pre.entries@, self.entries@[last], n);
                    match find_key_from(pre.entries@, n, 0) {
                        Option::None => {
                            assert(self.members(n).len() == 0);
                            assert(pre.members(n).len() == 0);
                        },
                        Option::Some(j) => {
                            lemma_find_key_props(pre.entries@, n, 0);
                            assert(self.entries@[j] == pre.entries@[j]);
                            assert(self.members(n) == pre.members(n));
                        },
                    }
                }
            }
            assert forall|a: int, b: int|
                0 <= a < b < self.entries@.len() implies self.entries@[a].name@
                != self.entries@[b].name@ by {
                if b == last {
                    lemma_find_key_props(pre.entries@, target@, 0);
                }
            }
            assert(self.wf());
        }
    }
}

/// The first-match scan finds an in-range match, and nothing before it
/// matches.
pub proof fn lemma_find_key_props(s: Seq<RevEntry>, n: Seq<char>, k: int)
    requires
        0 <= k,
    ensures
        match find_key_from(s, n, k) {
            Option::None => forall|j: int| k <= j < s.len() ==> s[j].name@ != n,
            Option::Some(i) => k <= i < s.len() && s[i].name@ == n && forall|j: int|
                k <= j < i ==> s[j].name@ != n,
        },
    decreases s.len() - k,
{
    if k < 0 || k >= s.len() {
    } else if s[k].name@ == n {
    } else {
        lemma_find_key_props(s, n, k + 1);
    }
}

/// If position `i` matches and nothing before it does, the scan from the
/// start finds exactly `i`.
pub proof fn lemma_find_key_first(s: Seq<RevEntry>, n: Seq<char>, i: int)
    requires
        0 <= i < s.len(),
        s[i].name@ == n,
        forall|j: int| 0 <= j < i ==> s[j].name@ != n,
    ensures
        find_key_from(s, n, 0) == Option::Some(i),
{
    lemma_find_key_props(s, n, 0);
    match find_key_from(s, n, 0) {
        Option::None => {
            assert(s[i].name@ != n);
        },
        Option::Some(w) => {
            if w < i {
                assert(s[w].name@ != n);
            }
            if i < w {
                assert(s[i].name@ != n);
            }
        },
    }
}

/// If no entry matches, the scan from the start finds nothing.
pub proof fn lemma_find_key_none(s: Seq<RevEntry>, n: Seq<char>)
    requires
        forall|j: int| 0 <= j < s.len() ==> s[j].name@ != n,
    ensures
        find_key_from(s, n, 0) is None,
{
    lemma_find_key_props(s, n, 0);
    match find_key_from(s, n, 0) {
        Option::None => {},
        Option::Some(w) => {
            assert(s[w].name@ != n);
        },
    }
}

/// Two entry sequences with the same names at the same positions are scanned
/// alike.
pub proof fn lemma_same_names_same_find(s1: Seq<RevEntry>, s2: Seq<RevEntry>, n: Seq<char>)
    requires
        s1.len() == s2.len(),
        forall|j: int| 0 <= j < s1.len() ==> s1[j].name@ == s2[j].name@,
    ensures
        find_key_from(s1, n, 0) == find_key_from(s2, n, 0),
{
    lemma_find_key_props(s1, n, 0);
    lemma_find_key_props(s2, n, 0);
    match (find_key_from(s1, n, 0), find_key_from(s2, n, 0)) {
        (Option::None, Option::None) => {},
        (Option::None, Option::Some(w)) => {
            assert(s1[w].name@ != n);
        },
        (Option::Some(w), Option::None) => {
            assert(s2[w].name@ != n);
        },
        (Option::Some(a), Option::Some(b)) => {
            if a < b {
                assert(s2[a].name@ != n);
            }
            if b < a {
                assert(s1[b].name@ != n);
            }
        },
    }
}

/// Replacing one entry with one of the same name and a grown well-formed set
/// keeps the map well-formed.
proof fn lemma_wf_update(pre: ReverseDepsMap, post: ReverseDepsMap, i: int, e: RevEntry, d: Seq<
    char,
>)
    requires
        pre.wf(),
        0 <= i < pre.entries@.len(),
        post.entries@ == pre.entries@.update(i, e),
        e.name@ == pre.entries@[i].name@,
        e.deps.wf(),
        e.deps.0@.len() >= pre.entries@[i].deps.0@.len(),
        pre.entries@[i].deps.0@.len() > 0,
    ensures
        post.wf(),
{
    assert forall|a: int, b: int|
        0 <= a < b < post.entries@.len() implies post.entries@[a].name@
        != post.entries@[b].name@ by {
        assert(pre.entries@[a].name@ != pre.entries@[b].name@);
    }
}

/// The four kinds of dependency a package can declare.
#[derive(Clone, Copy, PartialEq, Eq, Structural)]
pub enum DepKind {
    Runtime,
    Optional,
    Make,
    Check,
}

/// The dependency list of the given kind declared by a package.
pub open spec fn deps_of_kind(p: PackageInfo, kind: DepKind) -> Seq<DepInfo> {
    match kind {
        DepKind::Runtime => p.depends_on.0@,
        DepKind::Optional => p.optional_deps.0@,
        DepKind::Make => p.makedepends.0@,
        DepKind::Check => p.checkdepends.0@,
    }
}

/// Whether some package named `p` in the universe declares a dependency of
/// the given kind whose name is `d`.
pub open spec fn universe_edge(u: Seq<PackageInfo>, kind: DepKind, d: Seq<char>, p: Seq<
    char,
>) -> bool {
    exists|i: int, k: int|
        0 <= i < u.len() && 0 <= k < deps_of_kind(u[i], kind).len() && u[i].name@ == p
            && deps_of_kind(u[i], kind)[k].name@ == d
}

/// As `universe_edge`, but counting only the dependency entries strictly
/// before position (`i`, `k`) of the scan.
pub open spec fn universe_edge_upto(
    u: Seq<PackageInfo>,
    kind: DepKind,
    d: Seq<char>,
    p: Seq<char>,
    i: int,
    k: int,
) -> bool {
    exists|i0: int, k0: int|
        0 <= i0 < u.len() && 0 <= k0 < deps_of_kind(u[i0], kind).len() && (i0 < i || (i0 == i && k0
            < k)) && u[i0].name@ == p && deps_of_kind(u[i0], kind)[k0].name@ == d
}

/// The dependency list of the given kind, as stored on the record.
fn kind_list<'a>(p: &'a PackageInfo, kind: DepKind) -> (r: &'a Vec<DepInfo>)
    ensures
        r@ == deps_of_kind(*p, kind),
{
    match kind {
        DepKind::Runtime => &p.depends_on.0,
        DepKind::Optional => &p.optional_deps.0,
        DepKind::Make => &p.makedepends.0,
        DepKind::Check => &p.checkdepends.0,
    }
}

/// Builds the reverse-dependency map of one dependency kind by a single pass
/// over every package and its declared dependencies: `p` is recorded under
/// `d` exactly when some package named `p` declares a dependency named `d`
/// (the bare name; version constraints play no part).
pub fn get_reverse_deps_map(universe: &Vec<PackageInfo>, kind: DepKind) -> (m: ReverseDepsMap)
    ensures
        m.wf(),
        forall|d: Seq<char>, p: Seq<char>| #[trigger]
            m.linked(d, p) <==> universe_edge(universe@, kind, d, p),
{
    let ghost u = universe@;
    let mut m = ReverseDepsMap::new();
    let mut i: usize = 0;
    while i < universe.len()
        invariant
            u == universe@,
            i <= universe.len(),
            m.wf(),
            forall|d: Seq<char>, p: Seq<char>| #[trigger]
                m.linked(d, p) <==> universe_edge_upto(u, kind, d, p, i as int, 0),
        decreases universe.len() - i,
    {
        let pkg = &universe[i];
        let list = kind_list(pkg, kind);
        let mut k: usize = 0;
        while k < list.len()
            invariant
                u == universe@,
                i < universe.len(),
                list@ == deps_of_kind(u[i as int], kind),
                pkg.name@ == u[i as int].name@,
                k <= list.len(),
                m.wf(),
                forall|d: Seq<char>, p: Seq<char>| #[trigger]
                    m.linked(d, p) <==> universe_edge_upto(u, kind, d, p, i as int, k as int),
            decreases list.len() - k,
        {
            let ghost m0 = m;
            m.add_edge(list[k].name.clone(), pkg.name.clone());
            proof {
                let dk = deps_of_kind(u[i as int], kind)[k as int].name@;
                let pk = u[i as int].name@;
                assert forall|d: Seq<char>, p: Seq<char>| #[trigger]
                    m.linked(d, p) <==> universe_edge_upto(
                    u,
                    kind,
                    d,
                    p,
                    i as int,
                    k as int + 1,
                ) by {
                    if m.linked(d, p) {
                        if m0.linked(d, p) {
                            let (i0, k0) = choose|i0: int, k0: int|
                                0 <= i0 < u.len() && 0 <= k0 < deps_of_kind(u[i0], kind).len() && (
                                i0 < i as int || (i0 == i as int && k0 < k as int)) && u[i0].name@
                                    == p && deps_of_kind(u[i0], kind)[k0].name@ == d;
                            assert(universe_edge_upto(u, kind, d, p, i as int, k as int + 1));
                        } else {
                            assert(d == dk && p == pk);
                            assert(universe_edge_upto(u, kind, d, p, i as int, k as int + 1));
                        }
                    }
                    if universe_edge_upto(u, kind, d, p, i as int, k as int + 1) {
                        let (i0, k0) = choose|i0: int, k0: int|
                            0 <= i0 < u.len() && 0 <= k0 < deps_of_kind(u[i0], kind).len() && (i0
                                < i as int || (i0 == i as int && k0 < k as int + 1)) && u[i0].name@
                                == p && deps_of_kind(u[i0], kind)[k0].name@ == d;
                        if i0 < i as int || (i0 == i as int && k0 < k as int) {
                            assert(universe_edge_upto(u, kind, d, p, i as int, k as int));
                            assert(m0.linked(d, p));
                        } else {
                            assert(i0 == i as int && k0 == k as int);
                            assert(d == dk && p == pk);
                        }
                        assert(m.linked(d, p));
                    }
                }
            }
            k = k + 1;
        }
        proof {
            assert forall|d: Seq<char>, p: Seq<char>| #[trigger]
                m.linked(d, p) <==> universe_edge_upto(u, kind, d, p, i as int + 1, 0) by {
                if m.linked(d, p) {
                    let (i0, k0) = choose|i0: int, k0: int|
                        0 <= i0 < u.len() && 0 <= k0 < deps_of_kind(u[i0], kind).len() && (i0
                            < i as int || (i0 == i as int && k0 < k as int)) && u[i0].name@ == p
                            && deps_of_kind(u[i0], kind)[k0].name@ == d;
                    assert(universe_edge_upto(u, kind, d, p, i as int + 1, 0));
                }
                if universe_edge_upto(u, kind, d, p, i as int + 1, 0) {
                    let (i0, k0) = choose|i0: int, k0: int|
                        0 <= i0 < u.len() && 0 <= k0 < deps_of_kind(u[i0], kind).len() && (i0 < i
                            as int + 1 || (i0 == i as int + 1 && k0 < 0)) && u[i0].name@ == p
                            && deps_of_kind(u[i0], kind)[k0].name@ == d;
                    assert(i0 < i as int || (i0 == i as int && k0 < k as int));
                    assert(universe_edge_upto(u, kind, d, p, i as int, k as int));
                    assert(m.linked(d, p));
                }
            }
        }
        i = i + 1;
    }
    proof {
        assert forall|d: Seq<char>, p: Seq<char>| #[trigger]
            m.linked(d, p) <==> universe_edge(u, kind, d, p) by {
            if m.linked(d, p) {
                let (i0, k0) = choose|i0: int, k0: int|
                    0 <= i0 < u.len() && 0 <= k0 < deps_of_kind(u[i0], kind).len() && (i0 < u.len()
                        as int || (i0 == u.len() as int && k0 < 0)) && u[i0].name@ == p
                        && deps_of_kind(u[i0], kind)[k0].name@ == d;
                assert(universe_edge(u, kind, d, p));
            }
            if universe_edge(u, kind, d, p) {
                let (i0, k0) = choose|i0: int, k0: int|
                    0 <= i0 < u.len() && 0 <= k0 < deps_of_kind(u[i0], kind).len() && u[i0].name@
                        == p && deps_of_kind(u[i0], kind)[k0].name@ == d;
                assert(universe_edge_upto(u, kind, d, p, u.len() as int, 0));
                assert(m.linked(d, p));
            }
        }
    }
    m
}

/// The four reverse-dependency maps, one per dependency kind, built by one
/// scan each over the same universe and read-only thereafter.
pub struct ReverseDepsDatabase {
    pub required_by: ReverseDepsMap,
    pub optional_for: ReverseDepsMap,
    pub required_by_make: ReverseDepsMap,
    pub required_by_check: ReverseDepsMap,
}

impl ReverseDepsDatabase {
    /// Builds the complete reverse-dependency index from the package
    /// universe. Constructed once, after the universe is fully known.
    pub fn new(universe: &Vec<PackageInfo>) -> (r: Self)
        ensures
            r.required_by.wf(),
            r.optional_for.wf(),
            r.required_by_make.wf(),
            r.required_by_check.wf(),
            forall|d: Seq<char>, p: Seq<char>| #[trigger]
                r.required_by.linked(d, p) <==> universe_edge(universe@, DepKind::Runtime, d, p),
            forall|d: Seq<char>, p: Seq<char>| #[trigger]
                r.optional_for.linked(d, p) <==> universe_edge(universe@, DepKind::Optional, d, p),
            forall|d: Seq<char>, p: Seq<char>| #[trigger]
                r.required_by_make.linked(d, p) <==> universe_edge(universe@, DepKind::Make, d, p),
            forall|d: Seq<char>, p: Seq<char>| #[trigger]
                r.required_by_check.linked(d, p) <==> universe_edge(universe@, DepKind::Check, d, p),
    {
        ReverseDepsDatabase {
            required_by: get_reverse_deps_map(universe, DepKind::Runtime),
            optional_for: get_reverse_deps_map(universe, DepKind::Optional),
            required_by_make: get_reverse_deps_map(universe, DepKind::Make),
            required_by_check: get_reverse_deps_map(universe, DepKind::Check),
        }
    }
}

/// Every package declaring a dependency of the given kind on a name is a
/// member of the index at that name, and conversely every member of the
/// index at a name declares such a dependency on it.
pub proof fn lemma_reverse_index_exact(m: ReverseDepsMap, u: Seq<PackageInfo>, kind: DepKind)
    requires
        forall|d: Seq<char>, p: Seq<char>| #[trigger]
            m.linked(d, p) <==> universe_edge(u, kind, d, p),
    ensures
        forall|i: int, k: int|
            0 <= i < u.len() && 0 <= k < deps_of_kind(u[i], kind).len() ==> m.linked(
                (#[trigger] deps_of_kind(u[i], kind)[k]).name@,
                u[i].name@,
            ),
        forall|d: Seq<char>, p: Seq<char>| #[trigger]
            m.linked(d, p) ==> exists|i: int, k: int|
                0 <= i < u.len() && 0 <= k < deps_of_kind(u[i], kind).len() && u[i].name@ == p
                    && deps_of_kind(u[i], kind)[k].name@ == d,
{
    assert forall|i: int, k: int|
        0 <= i < u.len() && 0 <= k < deps_of_kind(u[i], kind).len() implies m.linked(
        (#[trigger] deps_of_kind(u[i], kind)[k]).name@,
        u[i].name@,
    ) by {
        assert(universe_edge(u, kind, deps_of_kind(u[i], kind)[k].name@, u[i].name@));
    }
}

/// Appending an entry of a different name leaves the scan for `n` unchanged.
pub proof fn lemma_find_key_push(s: Seq<RevEntry>, e: RevEntry, n: Seq<char>)
    requires
        e.name@ != n,
    ensures
        find_key_from(s.push(e), n, 0) == find_key_from(s, n, 0),
{
    lemma_find_key_props(s, n, 0);
    lemma_find_key_props(s.push(e), n, 0);
    match (find_key_from(s, n, 0), find_key_from(s.push(e), n, 0)) {
        (Option::None, Option::None) => {},
        (Option::None, Option::Some(w)) => {
            if w < s.len() {
                assert(s[w].name@ != n);
                assert(s.push(e)[w] == s[w]);
            } else {
                assert(s.push(e)[w] == e);
            }
        },
        (Option::Some(w), Option::None) => {
            assert(s.push(e)[w].name@ != n);
            assert(s.push(e)[w] == s[w]);
        },
        (Option::Some(a), Option::Some(b)) => {
            if a < b {
                assert(s.push(e)[a].name@ != n);
                assert(s.push(e)[a] == s[a]);
            }
            if b < a {
                assert(s[b].name@ != n);
                assert(s.push(e)[b] == s[b]);
            }
        },
    }
}

} // verus!
