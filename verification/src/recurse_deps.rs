//! The dependency-closure resolver. Starting from a root record it expands
//! declared dependency specifications into concrete satisfying packages,
//! records each satisfier's `name=version` key once in an insertion-ordered
//! visited set (which both breaks cycles and collapses diamonds), rewrites
//! each dependency list with the satisfier keys found, and accumulates the
//! fully processed records in post order: a package's dependencies are
//! appended before the package itself.
//!
//! The resolver is an explicit work-list machine rather than deep recursion,
//! so its stack use stays bounded; a small-step specification (`step`/`run`)
//! pins down exactly what it computes.

use vstd::prelude::*;

use crate::info::{keyid_equiv, pkg_equiv, DepInfo, PacList, PackageInfo};
use crate::{key_spec, make_key};

verus! {

broadcast use {vstd::seq_lib::seq_to_set_is_finite, vstd::set::group_set_axioms};

// ------------------------------------------------------------------
// The visited set: an insertion-ordered string set of an outside crate.
// ------------------------------------------------------------------

#[verifier::external_type_specification]
#[verifier::external_body]
#[verifier::reject_recursive_types(T)]
#[verifier::reject_recursive_types(S)]
pub struct ExIndexSet<T, S>(indexmap::IndexSet<T, S>);

/// The elements held by an insertion-ordered string set, in insertion order,
/// as character sequences.
pub uninterp spec fn set_elems(s: indexmap::IndexSet<String>) -> Seq<Seq<char>>;

/// Relies on indexmap::IndexSet::new: the new set is empty.
#[verifier::external_body]
fn visited_new() -> (s: indexmap::IndexSet<String>)
    ensures
        set_elems(s) == Seq::<Seq<char>>::empty(),
{
    indexmap::IndexSet::new()
}

/// Relies on indexmap::IndexSet::insert: a value equal to a present element
/// is dropped and the order is untouched; a new value is appended at the
/// end; the result says which happened.
#[verifier::external_body]
fn visited_insert(s: &mut indexmap::IndexSet<String>, value: String) -> (added: bool)
    ensures
        added == !set_elems(*old(s)).contains(value@),
        added ==> set_elems(*final(s)) == set_elems(*old(s)).push(value@),
        !added ==> set_elems(*final(s)) == set_elems(*old(s)),
{
    s.insert(value)
}

/// Relies on indexmap::IndexSet::iter: the values come out in insertion
/// order.
#[verifier::external_body]
fn visited_to_vec(s: &indexmap::IndexSet<String>) -> (r: Vec<String>)
    ensures
        r@.len() == set_elems(*s).len(),
        forall|i: int| 0 <= i < r@.len() ==> r@[i]@ == set_elems(*s)[i],
{
    s.iter().cloned().collect()
}

// ------------------------------------------------------------------
// The machine's ghost state.
// ------------------------------------------------------------------

/// Where a record under resolution came from: the root handed in, or a
/// package of the universe.
pub enum RecSrc {
    Root,
    Pkg(int),
}

/// The ghost image of one dependency specification, its satisfier slot held
/// at character level.
pub struct GDep {
    pub dep_string: String,
    pub name: String,
    pub depmod: String,
    pub version: Option<String>,
    pub description: Option<String>,
    pub name_hash: u64,
    pub sat: Option<Seq<char>>,
}

/// One work-list frame: a record source, the position reached in its current
/// dependency list, and the rewritten lists built so far.
pub struct GFrame {
    pub src: RecSrc,
    pub idx: int,
    pub in_opt: bool,
    pub nd: Seq<GDep>,
    pub no: Seq<GDep>,
}

/// One finished record: its source and its rewritten dependency lists.
pub struct GOut {
    pub src: RecSrc,
    pub nd: Seq<GDep>,
    pub no: Seq<GDep>,
    pub opt_replaced: bool,
}

/// The whole machine state: pending frames, the visited keys in discovery
/// order, and the finished records in post order.
pub struct GState {
    pub stack: Seq<GFrame>,
    pub visited: Seq<Seq<char>>,
    pub out: Seq<GOut>,
}

/// The character-level image of a stored dependency specification.
pub open spec fn dep_view(d: DepInfo) -> GDep {
    GDep {
        dep_string: d.dep_string,
        name: d.name,
        depmod: d.depmod,
        version: d.version,
        description: d.description,
        name_hash: d.name_hash,
        sat: match d.satisfier {
            Option::None => Option::None,
            Option::Some(s) => Option::Some(s@),
        },
    }
}

/// The images of a whole dependency list.
pub open spec fn deps_gview(s: Seq<DepInfo>) -> Seq<GDep> {
    s.map_values(|d: DepInfo| dep_view(d))
}

/// The `name=version` key of a package record.
pub open spec fn pkg_key(p: PackageInfo) -> Seq<char> {
    key_spec(p.name@, p.version@)
}

/// The record a source stands for.
pub open spec fn src_pkg(u: Seq<PackageInfo>, root: PackageInfo, s: RecSrc) -> PackageInfo {
    match s {
        RecSrc::Root => root,
        RecSrc::Pkg(i) => u[i],
    }
}

/// Whether a source points into the universe.
pub open spec fn src_ok(u: Seq<PackageInfo>, s: RecSrc) -> bool {
    match s {
        RecSrc::Root => true,
        RecSrc::Pkg(i) => 0 <= i < u.len(),
    }
}

/// The dependency list a frame is walking: the runtime list first, the
/// optional list second.
pub open spec fn cur_list(p: PackageInfo, in_opt: bool) -> Seq<DepInfo> {
    if in_opt {
        p.optional_deps.0@
    } else {
        p.depends_on.0@
    }
}

/// The first package of the universe carrying the name `name`, scanning
/// from `k`.
pub open spec fn find_named_from(u: Seq<PackageInfo>, name: Seq<char>, k: int) -> Option<int>
    decreases u.len() - k,
{
    if k < 0 || k >= u.len() {
        Option::None
    } else if u[k].name@ == name {
        Option::Some(k)
    } else {
        find_named_from(u, name, k + 1)
    }
}

/// The first package of the universe carrying the given name, if any.
pub open spec fn find_named(u: Seq<PackageInfo>, name: Seq<char>) -> Option<int> {
    find_named_from(u, name, 0)
}


/// One recorded outcome of the database's find-satisfier primitive: a
/// dependency specification string, and the index in the universe of the
/// package the database found to satisfy it, if any.
pub struct SatEntry {
    pub dep_string: String,
    pub satisfier: Option<usize>,
}

/// The find-satisfier primitive of the package database, captured as data:
/// one entry per dependency specification string that resolution may ask
/// about. The database — which alone understands version constraints and
/// provides-based satisfaction — answers once per distinct specification;
/// the first entry for a string decides, so equal specifications always
/// resolve alike. A specification without an entry, or whose entry points
/// outside the universe, counts as unsatisfied.
pub struct SatisfierTable {
    pub entries: Vec<SatEntry>,
}

/// The table's answer for a specification string, scanning from `k`.
pub open spec fn table_sat_from(t: Seq<SatEntry>, ulen: int, dep_string: Seq<char>, k: int) -> Option<
    int,
>
    decreases t.len() - k,
{
    if k < 0 || k >= t.len() {
        Option::None
    } else if t[k].dep_string@ == dep_string {
        match t[k].satisfier {
            Option::None => Option::None,
            Option::Some(j) => if 0 <= j < ulen {
                Option::Some(j as int)
            } else {
                Option::None
            },
        }
    } else {
        table_sat_from(t, ulen, dep_string, k + 1)
    }
}

/// The table's answer for a specification string.
pub open spec fn table_sat(t: Seq<SatEntry>, ulen: int, dep_string: Seq<char>) -> Option<int> {
    table_sat_from(t, ulen, dep_string, 0)
}

/// A satisfier the table answers with lies inside the universe.
pub proof fn lemma_table_sat_range(t: Seq<SatEntry>, ulen: int, dep_string: Seq<char>, k: int)
    requires
        0 <= k,
    ensures
        match table_sat_from(t, ulen, dep_string, k) {
            Option::None => true,
            Option::Some(j) => 0 <= j < ulen,
        },
    decreases t.len() - k,
{
    if 0 <= k < t.len() && t[k].dep_string@ != dep_string {
        lemma_table_sat_range(t, ulen, dep_string, k + 1);
    }
}

/// Looks one specification string up in the table.
fn table_lookup(table: &SatisfierTable, universe_len: usize, dep_string: &String) -> (r: Option<
    usize,
>)
    ensures
        match table_sat(table.entries@, universe_len as int, dep_string@) {
            Option::None => r is None,
            Option::Some(j) => r matches Some(i) && i as int == j,
        },
{
    let ghost t = table.entries@;
    let ghost ulen = universe_len as int;
    let mut k: usize = 0;
    while k < table.entries.len()
        invariant
            t == table.entries@,
            ulen == universe_len as int,
            k <= table.entries.len(),
            table_sat(t, ulen, dep_string@) == table_sat_from(t, ulen, dep_string@, k as int),
        decreases table.entries.len() - k,
    {
        if table.entries[k].dep_string == *dep_string {
            match table.entries[k].satisfier {
                Option::None => {
                    return Option::None;
                },
                Option::Some(j) => {
                    if j < universe_len {
                        return Option::Some(j);
                    } else {
                        return Option::None;
                    }
                },
            }
        }
        k = k + 1;
    }
    Option::None
}

/// How resolution rewrites one dependency specification: the satisfier slot
/// is filled with the found satisfier's key exactly when the table
/// satisfies the specification string, and is left as it stands otherwise;
/// every other field is untouched. Two equal specification strings thus
/// receive the same key.
pub open spec fn rewrite_dep(t: Seq<SatEntry>, u: Seq<PackageInfo>, d: DepInfo) -> GDep {
    match table_sat(t, u.len() as int, d.dep_string@) {
        Option::None => dep_view(d),
        Option::Some(j) => GDep { sat: Option::Some(pkg_key(u[j])), ..dep_view(d) },
    }
}

/// The machine is done when no frame is pending.
pub open spec fn state_done(st: GState) -> bool {
    st.stack.len() == 0
}

/// One transition of the resolver: the top frame either advances over one
/// dependency (possibly discovering an unvisited satisfier, which pushes a
/// new frame and records its key), or switches from the runtime list to the
/// optional list, or is finished and emits its record.
pub open spec fn step(t: Seq<SatEntry>, u: Seq<PackageInfo>, root: PackageInfo, opt: bool, st: GState) -> GState
    recommends
        !state_done(st),
{
    let f = st.stack.last();
    let p = src_pkg(u, root, f.src);
    let list = cur_list(p, f.in_opt);
    if f.idx < 0 || f.idx >= list.len() {
        if !f.in_opt && opt {
            let f2 = GFrame { in_opt: true, idx: 0, ..f };
            GState { stack: st.stack.update(st.stack.len() - 1, f2), ..st }
        } else {
            let o = GOut { src: f.src, nd: f.nd, no: f.no, opt_replaced: opt };
            GState { stack: st.stack.drop_last(), out: st.out.push(o), ..st }
        }
    } else {
        let d = list[f.idx];
        let g = rewrite_dep(t, u, d);
        let f2 = if f.in_opt {
            GFrame { idx: f.idx + 1, no: f.no.push(g), ..f }
        } else {
            GFrame { idx: f.idx + 1, nd: f.nd.push(g), ..f }
        };
        let stack2 = st.stack.update(st.stack.len() - 1, f2);
        match table_sat(t, u.len() as int, d.dep_string@) {
            Option::None => GState { stack: stack2, ..st },
            Option::Some(j) => {
                let k = pkg_key(u[j]);
                if st.visited.contains(k) {
                    GState { stack: stack2, ..st }
                } else {
                    GState {
                        stack: stack2.push(
                            GFrame {
                                src: RecSrc::Pkg(j),
                                idx: 0,
                                in_opt: false,
                                nd: Seq::empty(),
                                no: Seq::empty(),
                            },
                        ),
                        visited: st.visited.push(k),
                        out: st.out,
                    }
                }
            },
        }
    }
}

// ------------------------------------------------------------------
// Termination of the machine.
// ------------------------------------------------------------------

/// The keys of the universe's packages.
pub open spec fn key_seq(u: Seq<PackageInfo>) -> Seq<Seq<char>> {
    Seq::new(u.len(), |i: int| pkg_key(u[i]))
}

/// How many universe keys are not yet visited.
pub open spec fn unvisited_count(u: Seq<PackageInfo>, visited: Seq<Seq<char>>) -> nat {
    key_seq(u).to_set().difference(visited.to_set()).len()
}

/// How many dependency entries remain at position `idx` of a list of length
/// `len`.
pub open spec fn rem(idx: int, len: int) -> nat {
    if 0 <= idx <= len {
        (len - idx) as nat
    } else {
        0
    }
}

/// How many transitions one frame still takes.
pub open spec fn frame_work(u: Seq<PackageInfo>, root: PackageInfo, opt: bool, f: GFrame) -> nat {
    let p = src_pkg(u, root, f.src);
    if f.in_opt {
        rem(f.idx, cur_list(p, true).len() as int) + 1
    } else {
        rem(f.idx, cur_list(p, false).len() as int) + 1 + if opt {
            cur_list(p, true).len() + 2
        } else {
            0
        }
    }
}

/// How many transitions the whole stack still takes.
pub open spec fn stack_work(u: Seq<PackageInfo>, root: PackageInfo, opt: bool, s: Seq<
    GFrame,
>) -> nat
    decreases s.len(),
{
    if s.len() == 0 {
        0
    } else {
        stack_work(u, root, opt, s.drop_last()) + frame_work(u, root, opt, s.last())
    }
}

/// Replacing the top frame changes the stack's work by the difference of the
/// two frames' work.
proof fn lemma_stack_work_update_last(
    u: Seq<PackageInfo>,
    root: PackageInfo,
    opt: bool,
    s: Seq<GFrame>,
    f: GFrame,
)
    requires
        s.len() > 0,
    ensures
        stack_work(u, root, opt, s.update(s.len() - 1, f)) == stack_work(u, root, opt, s)
            - frame_work(u, root, opt, s.last()) + frame_work(u, root, opt, f),
{
    let s2 = s.update(s.len() - 1, f);
    assert(s2.drop_last() =~= s.drop_last());
    assert(s2.last() == f);
}

/// Pushing a frame adds its work.
proof fn lemma_stack_work_push(
    u: Seq<PackageInfo>,
    root: PackageInfo,
    opt: bool,
    s: Seq<GFrame>,
    f: GFrame,
)
    ensures
        stack_work(u, root, opt, s.push(f)) == stack_work(u, root, opt, s) + frame_work(
            u,
            root,
            opt,
            f,
        ),
{
    assert(s.push(f).drop_last() =~= s);
    assert(s.push(f).last() == f);
}

/// The first-match name scan finds an in-range match, and nothing before
/// it matches.
pub proof fn lemma_find_named_props(u: Seq<PackageInfo>, name: Seq<char>, k: int)
    requires
        0 <= k,
    ensures
        match find_named_from(u, name, k) {
            Option::None => forall|j: int| k <= j < u.len() ==> u[j].name@ != name,
            Option::Some(i) => k <= i < u.len() && u[i].name@ == name && forall|j: int|
                k <= j < i ==> u[j].name@ != name,
        },
    decreases u.len() - k,
{
    if k < u.len() && u[k].name@ != name {
        lemma_find_named_props(u, name, k + 1);
    }
}

/// Visiting a fresh universe key strictly shrinks the unvisited count.
proof fn lemma_unvisited_push(u: Seq<PackageInfo>, visited: Seq<Seq<char>>, k: Seq<char>)
    requires
        key_seq(u).to_set().contains(k),
        !visited.contains(k),
    ensures
        unvisited_count(u, visited.push(k)) < unvisited_count(u, visited),
{
    let uk = key_seq(u).to_set();
    let d1 = uk.difference(visited.to_set());
    let d2 = uk.difference(visited.push(k).to_set());
    assert(visited.push(k).to_set() =~= visited.to_set().insert(k)) by {
        assert forall|x: Seq<char>| visited.push(k).contains(x) implies visited.to_set().insert(
            k,
        ).contains(x) by {
            let w = choose|w: int| 0 <= w < visited.push(k).len() && visited.push(k)[w] == x;
            if w < visited.len() {
                assert(visited.contains(x));
            }
        }
        assert forall|x: Seq<char>| visited.to_set().insert(k).contains(x) implies visited.push(
            k,
        ).contains(x) by {
            if x == k {
                assert(visited.push(k)[visited.len() as int] == k);
            } else {
                let w = choose|w: int| 0 <= w < visited.len() && visited[w] == x;
                assert(visited.push(k)[w] == x);
            }
        }
    }
    assert(d2 =~= d1.remove(k));
    assert(d1.finite());
    assert(d1.contains(k));
    assert(d1.remove(k).len() == d1.len() - 1);
}

/// Every transition of a pending machine strictly shrinks the pair
/// (unvisited keys, remaining stack work), in that order.
proof fn lemma_step_measure(t: Seq<SatEntry>, u: Seq<PackageInfo>, root: PackageInfo, opt: bool, st: GState)
    requires
        !state_done(st),
    ensures
        ({
            let st2 = step(t, u, root, opt, st);
            ||| unvisited_count(u, st2.visited) < unvisited_count(u, st.visited)
            ||| (st2.visited == st.visited && stack_work(u, root, opt, st2.stack) < stack_work(
                u,
                root,
                opt,
                st.stack,
            ))
        }),
{
    let st2 = step(t, u, root, opt, st);
    let f = st.stack.last();
    let p = src_pkg(u, root, f.src);
    let list = cur_list(p, f.in_opt);
    if f.idx < 0 || f.idx >= list.len() {
        if !f.in_opt && opt {
            let f2 = GFrame { in_opt: true, idx: 0, ..f };
            lemma_stack_work_update_last(u, root, opt, st.stack, f2);
        } else {
            assert(st2.stack =~= st.stack.drop_last());
            assert(st.stack =~= st.stack.drop_last().push(f));
            lemma_stack_work_push(u, root, opt, st.stack.drop_last(), f);
            assert(frame_work(u, root, opt, f) >= 1);
        }
    } else {
        let d = list[f.idx];
        let g = rewrite_dep(t, u, d);
        let f2 = if f.in_opt {
            GFrame { idx: f.idx + 1, no: f.no.push(g), ..f }
        } else {
            GFrame { idx: f.idx + 1, nd: f.nd.push(g), ..f }
        };
        lemma_stack_work_update_last(u, root, opt, st.stack, f2);
        assert(frame_work(u, root, opt, f2) < frame_work(u, root, opt, f));
        match table_sat(t, u.len() as int, d.dep_string@) {
            Option::None => {},
            Option::Some(j) => {
                if st.visited.contains(pkg_key(u[j])) {
                } else {
                    lemma_table_sat_range(t, u.len() as int, d.dep_string@, 0);
                    assert(key_seq(u)[j] == pkg_key(u[j]));
                    assert(key_seq(u).contains(pkg_key(u[j])));
                    lemma_unvisited_push(u, st.visited, pkg_key(u[j]));
                }
            },
        }
    }
}

/// Runs the machine to completion.
pub open spec fn run(t: Seq<SatEntry>, u: Seq<PackageInfo>, root: PackageInfo, opt: bool, st: GState) -> GState
    decreases unvisited_count(u, st.visited), stack_work(u, root, opt, st.stack),
    via run_decreases
{
    if state_done(st) {
        st
    } else {
        run(t, u, root, opt, step(t, u, root, opt, st))
    }
}

#[via_fn]
proof fn run_decreases(t: Seq<SatEntry>, u: Seq<PackageInfo>, root: PackageInfo, opt: bool, st: GState) {
    if !state_done(st) {
        lemma_step_measure(t, u, root, opt, st);
    }
}

// ------------------------------------------------------------------
// What every reachable machine state satisfies.
// ------------------------------------------------------------------

/// The first `n` dependencies of a list, each rewritten.
pub open spec fn rewrite_prefix(t: Seq<SatEntry>, u: Seq<PackageInfo>, l: Seq<DepInfo>, n: int) -> Seq<GDep> {
    Seq::new(n as nat, |k: int| rewrite_dep(t, u, l[k]))
}

/// A whole dependency list, rewritten.
pub open spec fn rewrite_all(t: Seq<SatEntry>, u: Seq<PackageInfo>, l: Seq<DepInfo>) -> Seq<GDep> {
    rewrite_prefix(t, u, l, l.len() as int)
}

/// The key of the record a frame is resolving.
pub open spec fn fkey(u: Seq<PackageInfo>, root: PackageInfo, f: GFrame) -> Seq<char> {
    pkg_key(src_pkg(u, root, f.src))
}

/// The key of a finished record.
pub open spec fn okey(u: Seq<PackageInfo>, root: PackageInfo, o: GOut) -> Seq<char> {
    pkg_key(src_pkg(u, root, o.src))
}

/// No key appears twice.
pub open spec fn distinct_seq(s: Seq<Seq<char>>) -> bool {
    forall|i: int, j: int| 0 <= i < j < s.len() ==> s[i] != s[j]
}

/// A frame's position is in range and its rewritten lists are exactly the
/// rewrites of the prefixes walked so far.
pub open spec fn frame_ok(t: Seq<SatEntry>, u: Seq<PackageInfo>, root: PackageInfo, opt: bool, f: GFrame) -> bool {
    let p = src_pkg(u, root, f.src);
    &&& src_ok(u, f.src)
    &&& if f.in_opt {
        &&& opt
        &&& 0 <= f.idx <= cur_list(p, true).len()
        &&& f.nd == rewrite_all(t, u, cur_list(p, false))
        &&& f.no == rewrite_prefix(t, u, cur_list(p, true), f.idx)
    } else {
        &&& 0 <= f.idx <= cur_list(p, false).len()
        &&& f.nd == rewrite_prefix(t, u, cur_list(p, false), f.idx)
        &&& f.no.len() == 0
    }
}

/// A finished record carries the full rewrite of its runtime list, and of
/// its optional list exactly when optional dependencies were resolved.
pub open spec fn out_ok(t: Seq<SatEntry>, u: Seq<PackageInfo>, root: PackageInfo, opt: bool, o: GOut) -> bool {
    let p = src_pkg(u, root, o.src);
    &&& src_ok(u, o.src)
    &&& o.opt_replaced == opt
    &&& o.nd == rewrite_all(t, u, cur_list(p, false))
    &&& o.no == if opt {
        rewrite_all(t, u, cur_list(p, true))
    } else {
        Seq::<GDep>::empty()
    }
}

/// The machine's invariant: the visited keys are distinct; every frame and
/// every finished record is well formed and its key is visited; the keys of
/// pending frames and finished records are pairwise distinct; and together
/// they are exactly as many as the visited keys.
pub open spec fn machine_inv(t: Seq<SatEntry>, u: Seq<PackageInfo>, root: PackageInfo, opt: bool, g: GState) -> bool {
    &&& distinct_seq(g.visited)
    &&& forall|i: int| 0 <= i < g.stack.len() ==> frame_ok(t, u, root, opt, #[trigger] g.stack[i])
    &&& forall|i: int| 0 <= i < g.out.len() ==> out_ok(t, u, root, opt, #[trigger] g.out[i])
    &&& forall|i: int|
        0 <= i < g.stack.len() ==> g.visited.contains(fkey(u, root, #[trigger] g.stack[i]))
    &&& forall|i: int|
        0 <= i < g.out.len() ==> g.visited.contains(okey(u, root, #[trigger] g.out[i]))
    &&& forall|i: int, j: int|
        0 <= i < j < g.stack.len() ==> fkey(u, root, #[trigger] g.stack[i]) != fkey(
            u,
            root,
            #[trigger] g.stack[j],
        )
    &&& forall|i: int, j: int|
        0 <= i < j < g.out.len() ==> okey(u, root, #[trigger] g.out[i]) != okey(
            u,
            root,
            #[trigger] g.out[j],
        )
    &&& forall|i: int, j: int|
        0 <= i < g.stack.len() && 0 <= j < g.out.len() ==> fkey(u, root, #[trigger] g.stack[i])
            != okey(u, root, #[trigger] g.out[j])
    &&& g.stack.len() + g.out.len() == g.visited.len()
}

/// One transition preserves the machine invariant.
proof fn lemma_step_inv(t: Seq<SatEntry>, u: Seq<PackageInfo>, root: PackageInfo, opt: bool, st: GState)
    requires
        !state_done(st),
        machine_inv(t, u, root, opt, st),
    ensures
        machine_inv(t, u, root, opt, step(t, u, root, opt, st)),
        st.visited.is_prefix_of(step(t, u, root, opt, st).visited),
{
    let st2 = step(t, u, root, opt, st);
    let f = st.stack.last();
    let top = st.stack.len() - 1;
    let p = src_pkg(u, root, f.src);
    let list = cur_list(p, f.in_opt);
    assert(frame_ok(t, u, root, opt, f));
    if f.idx < 0 || f.idx >= list.len() {
        if !f.in_opt && opt {
            let f2 = GFrame { in_opt: true, idx: 0, ..f };
            assert(f.idx == list.len());
            assert(f2.no =~= rewrite_prefix(t, u, cur_list(p, true), 0));
            assert(f.nd == rewrite_prefix(t, u, cur_list(p, false), cur_list(p, false).len() as int));
            assert(frame_ok(t, u, root, opt, f2));
            assert(fkey(u, root, f2) == fkey(u, root, f));
            assert(st2.visited == st.visited);
            assert(st.visited.is_prefix_of(st2.visited)) by {
                assert(st.visited =~= st2.visited.subrange(0, st.visited.len() as int));
            }
        } else {
            let o = GOut { src: f.src, nd: f.nd, no: f.no, opt_replaced: opt };
            assert(out_ok(t, u, root, opt, o)) by {
                if f.in_opt {
                    assert(f.idx == cur_list(p, true).len());
                } else {
                    assert(!opt);
                    assert(f.idx == cur_list(p, false).len());
                    assert(f.no =~= Seq::<GDep>::empty());
                }
            }
            assert(okey(u, root, o) == fkey(u, root, f));
            assert(forall|i: int|
                0 <= i < st2.stack.len() ==> st2.stack[i] == st.stack[i]);
            assert(forall|i: int|
                0 <= i < st2.out.len() - 1 ==> st2.out[i] == st.out[i]);
            assert(st2.out.last() == o);
            assert(st.visited.is_prefix_of(st2.visited)) by {
                assert(st.visited =~= st2.visited.subrange(0, st.visited.len() as int));
            }
        }
    } else {
        let d = list[f.idx];
        let g = rewrite_dep(t, u, d);
        let f2 = if f.in_opt {
            GFrame { idx: f.idx + 1, no: f.no.push(g), ..f }
        } else {
            GFrame { idx: f.idx + 1, nd: f.nd.push(g), ..f }
        };
        assert(frame_ok(t, u, root, opt, f2)) by {
            if f.in_opt {
                assert(f.no.push(g) =~= rewrite_prefix(t, u, cur_list(p, true), f.idx + 1));
            } else {
                assert(f.nd.push(g) =~= rewrite_prefix(t, u, cur_list(p, false), f.idx + 1));
            }
        }
        assert(fkey(u, root, f2) == fkey(u, root, f));
        let stack2 = st.stack.update(top, f2);
        assert(forall|i: int| 0 <= i < top ==> stack2[i] == st.stack[i]);
        match table_sat(t, u.len() as int, d.dep_string@) {
            Option::None => {
                assert(st.visited.is_prefix_of(st2.visited)) by {
                    assert(st.visited =~= st2.visited.subrange(0, st.visited.len() as int));
                }
            },
            Option::Some(j) => {
                lemma_table_sat_range(t, u.len() as int, d.dep_string@, 0);
                let k = pkg_key(u[j]);
                if st.visited.contains(k) {
                    assert(st.visited.is_prefix_of(st2.visited)) by {
                        assert(st.visited =~= st2.visited.subrange(0, st.visited.len() as int));
                    }
                } else {
                    let child = GFrame {
                        src: RecSrc::Pkg(j),
                        idx: 0,
                        in_opt: false,
                        nd: Seq::empty(),
                        no: Seq::empty(),
                    };
                    assert(frame_ok(t, u, root, opt, child)) by {
                        assert(child.nd =~= rewrite_prefix(
                            t,
                            u,
                            cur_list(src_pkg(u, root, child.src), false),
                            0,
                        ));
                    }
                    assert(fkey(u, root, child) == k);
                    let v2 = st.visited.push(k);
                    assert(distinct_seq(v2)) by {
                        assert forall|a: int, b: int| 0 <= a < b < v2.len() implies v2[a]
                            != v2[b] by {
                            if b == v2.len() - 1 {
                                assert(v2[b] == k);
                                if v2[a] == k {
                                    assert(st.visited[a] == k);
                                    assert(st.visited.contains(k));
                                }
                            }
                        }
                    }
                    assert(st2.stack == stack2.push(child));
                    assert(forall|i: int| 0 <= i < stack2.len() ==> st2.stack[i] == stack2[i]);
                    assert(st2.stack.last() == child);
                    // visited membership of the old keys carries over to the push
                    assert forall|i: int|
                        0 <= i < st2.stack.len() implies v2.contains(
                        fkey(u, root, #[trigger] st2.stack[i]),
                    ) by {
                        if i < st2.stack.len() - 1 {
                            let kk = fkey(u, root, st.stack[i]);
                            assert(st.visited.contains(kk));
                            let w = choose|w: int|
                                0 <= w < st.visited.len() && st.visited[w] == kk;
                            assert(v2[w] == kk);
                        } else {
                            assert(v2[v2.len() - 1] == k);
                        }
                    }
                    assert forall|i: int|
                        0 <= i < st2.out.len() implies v2.contains(
                        okey(u, root, #[trigger] st2.out[i]),
                    ) by {
                        let kk = okey(u, root, st.out[i]);
                        assert(st.visited.contains(kk));
                        let w = choose|w: int| 0 <= w < st.visited.len() && st.visited[w] == kk;
                        assert(v2[w] == kk);
                    }
                    // the fresh key differs from every pending and finished key
                    assert forall|i: int|
                        0 <= i < st2.stack.len() - 1 implies fkey(u, root, st2.stack[i]) != k by {
                        let kk = fkey(u, root, st.stack[i]);
                        assert(st.visited.contains(kk));
                        if kk == k {
                            assert(st.visited.contains(k));
                        }
                    }
                    assert forall|i: int|
                        0 <= i < st2.out.len() implies okey(u, root, st2.out[i]) != k by {
                        let kk = okey(u, root, st.out[i]);
                        assert(st.visited.contains(kk));
                        if kk == k {
                            assert(st.visited.contains(k));
                        }
                    }
                    assert(st.visited.is_prefix_of(st2.visited)) by {
                        assert(st.visited =~= st2.visited.subrange(0, st.visited.len() as int));
                    }
                }
            },
        }
    }
}

/// Running a machine from any state satisfying the invariant ends in a done
/// state that still satisfies it, with the visited keys only extended.
pub proof fn lemma_run_inv(t: Seq<SatEntry>, u: Seq<PackageInfo>, root: PackageInfo, opt: bool, st: GState)
    requires
        machine_inv(t, u, root, opt, st),
    ensures
        machine_inv(t, u, root, opt, run(t, u, root, opt, st)),
        state_done(run(t, u, root, opt, st)),
        st.visited.is_prefix_of(run(t, u, root, opt, st).visited),
    decreases unvisited_count(u, st.visited), stack_work(u, root, opt, st.stack),
{
    if state_done(st) {
        assert(st.visited =~= st.visited.subrange(0, st.visited.len() as int));
    } else {
        lemma_step_measure(t, u, root, opt, st);
        lemma_step_inv(t, u, root, opt, st);
        let st2 = step(t, u, root, opt, st);
        lemma_run_inv(t, u, root, opt, st2);
        let fin = run(t, u, root, opt, st);
        assert(fin == run(t, u, root, opt, st2));
        assert(st.visited.is_prefix_of(fin.visited)) by {
            assert(st.visited =~= st2.visited.subrange(0, st.visited.len() as int));
            assert(st2.visited =~= fin.visited.subrange(0, st2.visited.len() as int));
            assert(st.visited =~= fin.visited.subrange(0, st.visited.len() as int));
        }
    }
}


// ------------------------------------------------------------------
// The executable resolver.
// ------------------------------------------------------------------

/// One executable work-list frame; `src` of `None` is the root record.
pub struct Frame {
    pub src: Option<usize>,
    pub idx: usize,
    pub in_opt: bool,
    pub nd: Vec<DepInfo>,
    pub no: Vec<DepInfo>,
}

/// The ghost image of a frame source.
pub open spec fn src_view(s: Option<usize>) -> RecSrc {
    match s {
        Option::None => RecSrc::Root,
        Option::Some(i) => RecSrc::Pkg(i as int),
    }
}

/// The ghost image of an executable frame.
pub open spec fn frame_view(f: Frame) -> GFrame {
    GFrame {
        src: src_view(f.src),
        idx: f.idx as int,
        in_opt: f.in_opt,
        nd: deps_gview(f.nd@),
        no: deps_gview(f.no@),
    }
}

/// The executable stack mirrors the ghost stack frame by frame.
pub open spec fn frames_correspond(stack: Seq<Frame>, gs: Seq<GFrame>) -> bool {
    &&& gs.len() == stack.len()
    &&& forall|i: int| 0 <= i < stack.len() ==> frame_view(#[trigger] stack[i]) == gs[i]
}

/// An emitted record equals the record its source stands for, except that
/// its dependency lists carry the rewritten specifications.
pub open spec fn out_matches(u: Seq<PackageInfo>, root: PackageInfo, o: GOut, p: PackageInfo) -> bool {
    let base = src_pkg(u, root, o.src);
    &&& p.repository == base.repository
    &&& p.name == base.name
    &&& p.version == base.version
    &&& p.description == base.description
    &&& p.architecture == base.architecture
    &&& p.url == base.url
    &&& p.licenses.0@ == base.licenses.0@
    &&& p.groups.0@ == base.groups.0@
    &&& p.provides.0@ == base.provides.0@
    &&& deps_gview(p.depends_on.0@) == o.nd
    &&& if o.opt_replaced {
        deps_gview(p.optional_deps.0@) == o.no
    } else {
        p.optional_deps.0@ == base.optional_deps.0@
    }
    &&& p.makedepends.0@ == base.makedepends.0@
    &&& p.checkdepends.0@ == base.checkdepends.0@
    &&& p.conflicts_with.0@ == base.conflicts_with.0@
    &&& p.replaces.0@ == base.replaces.0@
    &&& p.required_by.0@ == base.required_by.0@
    &&& p.optional_for.0@ == base.optional_for.0@
    &&& p.required_by_make.0@ == base.required_by_make.0@
    &&& p.required_by_check.0@ == base.required_by_check.0@
    &&& p.download_size == base.download_size
    &&& p.installed_size == base.installed_size
    &&& p.packager == base.packager
    &&& p.build_date == base.build_date
    &&& p.install_date == base.install_date
    &&& p.install_reason == base.install_reason
    &&& p.install_script == base.install_script
    &&& p.md5_sum == base.md5_sum
    &&& p.sha_256_sum == base.sha_256_sum
    &&& p.signatures == base.signatures
    &&& keyid_equiv(base.key_id, p.key_id)
    &&& match (base.sync_with, p.sync_with) {
        (Option::None, Option::None) => true,
        (Option::Some(a), Option::Some(b)) => pkg_equiv(*a, *b),
        _ => false,
    }
    &&& p.validated_by == base.validated_by
}

/// The emitted records mirror the ghost records one for one.
pub open spec fn out_corresponds(
    u: Seq<PackageInfo>,
    root: PackageInfo,
    gouts: Seq<GOut>,
    recs: Seq<PackageInfo>,
) -> bool {
    &&& recs.len() == gouts.len()
    &&& forall|i: int| 0 <= i < gouts.len() ==> out_matches(u, root, gouts[i], #[trigger] recs[i])
}

/// The machine's starting state: the root's frame pending and the root's key
/// already visited.
pub open spec fn init_gstate(root: PackageInfo) -> GState {
    GState {
        stack: seq![
            GFrame {
                src: RecSrc::Root,
                idx: 0,
                in_opt: false,
                nd: Seq::empty(),
                no: Seq::empty(),
            },
        ],
        visited: seq![pkg_key(root)],
        out: Seq::empty(),
    }
}

/// The starting state satisfies the machine invariant.
pub proof fn lemma_init_inv(t: Seq<SatEntry>, u: Seq<PackageInfo>, root: PackageInfo, opt: bool)
    ensures
        machine_inv(t, u, root, opt, init_gstate(root)),
{
    let g0 = init_gstate(root);
    assert(g0.stack[0].nd =~= rewrite_prefix(t, u, cur_list(root, false), 0));
    assert(frame_ok(t, u, root, opt, g0.stack[0]));
    assert(fkey(u, root, g0.stack[0]) == pkg_key(root));
    assert(g0.visited[0] == pkg_key(root));
    assert(g0.visited.contains(pkg_key(root)));
}

/// Mapping a dependency list to its images distributes over push.
proof fn lemma_deps_gview_push(s: Seq<DepInfo>, d: DepInfo)
    ensures
        deps_gview(s.push(d)) == deps_gview(s).push(dep_view(d)),
{
    assert(deps_gview(s.push(d)) =~= deps_gview(s).push(dep_view(d)));
}

/// The record a frame source stands for.
fn src_record<'a>(universe: &'a Vec<PackageInfo>, root: &'a PackageInfo, src: Option<usize>) -> (r:
    &'a PackageInfo)
    requires
        src_ok(universe@, src_view(src)),
    ensures
        *r == src_pkg(universe@, *root, src_view(src)),
{
    match src {
        Option::None => root,
        Option::Some(j) => &universe[j],
    }
}

/// Finds the first package of the universe carrying the given name, if
/// any.
pub fn find_by_name(universe: &Vec<PackageInfo>, name: &String) -> (r: Option<usize>)
    ensures
        match find_named(universe@, name@) {
            Option::None => r is None,
            Option::Some(j) => r matches Some(i) && i as int == j,
        },
{
    let mut i: usize = 0;
    while i < universe.len()
        invariant
            i <= universe.len(),
            forall|k: int| 0 <= k < i ==> universe@[k].name@ != name@,
        decreases universe.len() - i,
    {
        if universe[i].name == *name {
            proof {
                lemma_find_named_props(universe@, name@, 0);
                match find_named(universe@, name@) {
                    Option::None => {
                        assert(universe@[i as int].name@ != name@);
                    },
                    Option::Some(w) => {
                        if w < i as int {
                            assert(universe@[w].name@ != name@);
                        }
                        if (i as int) < w {
                            assert(universe@[i as int].name@ != name@);
                        }
                    },
                }
            }
            return Option::Some(i);
        }
        i = i + 1;
    }
    proof {
        lemma_find_named_props(universe@, name@, 0);
        match find_named(universe@, name@) {
            Option::None => {},
            Option::Some(w) => {
                assert(universe@[w].name@ != name@);
            },
        }
    }
    Option::None
}

/// The outcome of one closure computation: the visited `name=version` keys
/// in discovery order, and the resolved records in post order (dependencies
/// before their dependents).
pub struct DepsClosure {
    pub visited: Vec<String>,
    pub packages: Vec<PackageInfo>,
}

/// Recurses the dependency tree of the root record over the given package
/// universe. Each declared runtime dependency (and, when `include_optional`
/// is set, each optional dependency) is resolved through the satisfier
/// table — the database's find-satisfier answers, handed in as data — and
/// the found satisfiers' keys are recorded on the rewritten dependency
/// lists; a specification the table does not satisfy keeps its slot unset
/// while its siblings proceed. Every package enters the visited set at most
/// once, which both breaks dependency cycles and expands shared (diamond)
/// dependencies only once. With `summary` set only the visited keys are
/// reported and the record list stays empty; the visited keys themselves do
/// not depend on `summary`.
pub fn recurse_dependencies(
    universe: &Vec<PackageInfo>,
    root: &PackageInfo,
    table: &SatisfierTable,
    include_optional: bool,
    summary: bool,
) -> (r: DepsClosure)
    ensures
        ({
            let fin = run(table.entries@, universe@, *root, include_optional, init_gstate(*root));
            &&& r.visited@.len() == fin.visited.len()
            &&& (forall|i: int| 0 <= i < r.visited@.len() ==> r.visited@[i]@ == fin.visited[i])
            &&& r.visited@.len() >= 1
            &&& r.visited@[0]@ == pkg_key(*root)
            &&& (forall|i: int, j: int|
                0 <= i < j < r.visited@.len() ==> r.visited@[i]@ != r.visited@[j]@)
            &&& (summary ==> r.packages@.len() == 0)
            &&& (!summary ==> out_corresponds(universe@, *root, fin.out, r.packages@))
            &&& (!summary ==> r.packages@.len() == fin.visited.len())
            &&& (!summary ==> (forall|i: int, j: int|
                0 <= i < j < r.packages@.len() ==> pkg_key(r.packages@[i]) != pkg_key(
                    r.packages@[j],
                )))
            &&& (!summary ==> (forall|i: int|
                0 <= i < r.packages@.len() ==> fin.visited.contains(
                    pkg_key(#[trigger] r.packages@[i]),
                )))
        }),
{
    let ghost u = universe@;
    let ghost rootv = *root;
    let ghost tv = table.entries@;
    let ghost g0 = init_gstate(rootv);
    let mut stack: Vec<Frame> = Vec::new();
    stack.push(Frame { src: Option::None, idx: 0, in_opt: false, nd: Vec::new(), no: Vec::new() });
    let mut visited = visited_new();
    let rootkey = make_key(root.name.as_str(), root.version.as_str());
    let _added_root = visited_insert(&mut visited, rootkey);
    let mut out: Vec<PackageInfo> = Vec::new();
    let ghost mut g = g0;
    proof {
        lemma_init_inv(tv, u, rootv, include_optional);
        assert(set_elems(visited) =~= g0.visited);
        assert(deps_gview(Seq::<DepInfo>::empty()) =~= Seq::<GDep>::empty());
        assert(frame_view(stack@[0]) == g0.stack[0]);
    }
    while stack.len() > 0
        invariant
            u == universe@,
            rootv == *root,
            tv == table.entries@,
            g0 == init_gstate(rootv),
            machine_inv(tv, u, rootv, include_optional, g),
            g.visited == set_elems(visited),
            frames_correspond(stack@, g.stack),
            out_corresponds(u, rootv, g.out, out@),
            run(tv, u, rootv, include_optional, g) == run(tv, u, rootv, include_optional, g0),
        decreases unvisited_count(u, g.visited), stack_work(u, rootv, include_optional, g.stack),
    {
        proof {
            lemma_step_measure(tv, u, rootv, include_optional, g);
            lemma_step_inv(tv, u, rootv, include_optional, g);
        }
        let ghost gpre = g;
        let ghost gnext = step(tv, u, rootv, include_optional, gpre);
        let ghost stack_pre = stack@;
        let ghost out_pre = out@;
        proof {
            assert(run(tv, u, rootv, include_optional, gpre) == run(tv, u, rootv, include_optional, gnext));
        }
        let fr = stack.pop().unwrap();
        let ghost gf = gpre.stack.last();
        proof {
            assert(frame_view(stack_pre.last()) == gf);
            assert(fr == stack_pre.last());
            assert(frame_ok(tv, u, rootv, include_optional, gf));
        }
        let pref = src_record(universe, root, fr.src);
        let ghost pv = src_pkg(u, rootv, gf.src);
        let list_len = if fr.in_opt {
            pref.optional_deps.0.len()
        } else {
            pref.depends_on.0.len()
        };
        proof {
            assert(list_len as int == cur_list(pv, gf.in_opt).len());
        }
        if fr.idx >= list_len {
            if !fr.in_opt && include_optional {
                let f2 = Frame { in_opt: true, idx: 0, ..fr };
                stack.push(f2);
                proof {
                    let gf2 = GFrame { in_opt: true, idx: 0, ..gf };
                    assert(frame_view(f2) == gf2);
                    assert(gnext.stack == gpre.stack.update(gpre.stack.len() - 1, gf2));
                    assert forall|i: int| 0 <= i < stack@.len() implies frame_view(
                        #[trigger] stack@[i],
                    ) == gnext.stack[i] by {
                        if i < stack@.len() - 1 {
                            assert(stack@[i] == stack_pre[i]);
                            assert(frame_view(stack_pre[i]) == gpre.stack[i]);
                        }
                    }
                    assert(frames_correspond(stack@, gnext.stack));
                }
            } else {
                let Frame { src, idx: _, in_opt: _, nd, no } = fr;
                let mut rec = match src {
                    Option::None => root.clone(),
                    Option::Some(j) => universe[j].clone(),
                };
                proof {
                    assert(pkg_equiv(pv, rec));
                }
                rec.depends_on = PacList(nd);
                if include_optional {
                    rec.optional_deps = PacList(no);
                }
                out.push(rec);
                proof {
                    let o = GOut {
                        src: gf.src,
                        nd: gf.nd,
                        no: gf.no,
                        opt_replaced: include_optional,
                    };
                    assert(gnext.out == gpre.out.push(o));
                    assert(gnext.stack == gpre.stack.drop_last());
                    assert(out_matches(u, rootv, o, rec));
                    assert forall|i: int| 0 <= i < stack@.len() implies frame_view(
                        #[trigger] stack@[i],
                    ) == gnext.stack[i] by {
                        assert(stack@[i] == stack_pre[i]);
                        assert(frame_view(stack_pre[i]) == gpre.stack[i]);
                    }
                    assert(frames_correspond(stack@, gnext.stack));
                    assert forall|i: int| 0 <= i < gnext.out.len() implies out_matches(
                        u,
                        rootv,
                        gnext.out[i],
                        #[trigger] out@[i],
                    ) by {
                        if i < gnext.out.len() - 1 {
                            assert(out@[i] == out_pre[i]);
                            assert(out_matches(u, rootv, gpre.out[i], out_pre[i]));
                        }
                    }
                    assert(out_corresponds(u, rootv, gnext.out, out@));
                }
            }
        } else {
            let d_clone: DepInfo = if fr.in_opt {
                pref.optional_deps.0[fr.idx].clone()
            } else {
                pref.depends_on.0[fr.idx].clone()
            };
            let ghost dspec = cur_list(pv, gf.in_opt)[gf.idx];
            proof {
                assert(d_clone == dspec);
            }
            let sat = table_lookup(table, universe.len(), &d_clone.dep_string);
            let mut fr2 = fr;
            fr2.idx = fr2.idx + 1;
            match sat {
                Option::None => {
                    if fr2.in_opt {
                        fr2.no.push(d_clone);
                    } else {
                        fr2.nd.push(d_clone);
                    }
                    stack.push(fr2);
                    proof {
                        let gd = rewrite_dep(tv, u, dspec);
                        assert(gd == dep_view(d_clone));
                        let gf2 = if gf.in_opt {
                            GFrame { idx: gf.idx + 1, no: gf.no.push(gd), ..gf }
                        } else {
                            GFrame { idx: gf.idx + 1, nd: gf.nd.push(gd), ..gf }
                        };
                        if gf.in_opt {
                            lemma_deps_gview_push(stack_pre.last().no@, d_clone);
                        } else {
                            lemma_deps_gview_push(stack_pre.last().nd@, d_clone);
                        }
                        assert(frame_view(fr2) == gf2);
                        assert(gnext.stack == gpre.stack.update(gpre.stack.len() - 1, gf2));
                        assert forall|i: int| 0 <= i < stack@.len() implies frame_view(
                            #[trigger] stack@[i],
                        ) == gnext.stack[i] by {
                            if i < stack@.len() - 1 {
                                assert(stack@[i] == stack_pre[i]);
                                assert(frame_view(stack_pre[i]) == gpre.stack[i]);
                            }
                        }
                        assert(frames_correspond(stack@, gnext.stack));
                    }
                },
                Option::Some(j) => {
                    proof {
                        lemma_table_sat_range(tv, u.len() as int, d_clone.dep_string@, 0);
                        assert((j as int) < u.len());
                    }
                    let key = make_key(universe[j].name.as_str(), universe[j].version.as_str());
                    proof {
                        assert(key@ == pkg_key(u[j as int]));
                    }
                    let mut newdep = d_clone;
                    newdep.satisfier = Option::Some(key.clone());
                    if fr2.in_opt {
                        fr2.no.push(newdep);
                    } else {
                        fr2.nd.push(newdep);
                    }
                    stack.push(fr2);
                    let added = visited_insert(&mut visited, key);
                    if added {
                        stack.push(
                            Frame {
                                src: Option::Some(j),
                                idx: 0,
                                in_opt: false,
                                nd: Vec::new(),
                                no: Vec::new(),
                            },
                        );
                    }
                    proof {
                        let gd = rewrite_dep(tv, u, dspec);
                        assert(gd == dep_view(newdep));
                        let gf2 = if gf.in_opt {
                            GFrame { idx: gf.idx + 1, no: gf.no.push(gd), ..gf }
                        } else {
                            GFrame { idx: gf.idx + 1, nd: gf.nd.push(gd), ..gf }
                        };
                        if gf.in_opt {
                            lemma_deps_gview_push(stack_pre.last().no@, newdep);
                        } else {
                            lemma_deps_gview_push(stack_pre.last().nd@, newdep);
                        }
                        assert(frame_view(fr2) == gf2);
                        let stack2 = gpre.stack.update(gpre.stack.len() - 1, gf2);
                        let k = pkg_key(u[j as int]);
                        assert(added == !gpre.visited.contains(k));
                        if added {
                            let child = GFrame {
                                src: RecSrc::Pkg(j as int),
                                idx: 0,
                                in_opt: false,
                                nd: Seq::empty(),
                                no: Seq::empty(),
                            };
                            assert(deps_gview(Seq::<DepInfo>::empty()) =~= Seq::<GDep>::empty());
                            assert(frame_view(stack@.last()) == child);
                            assert(gnext.stack == stack2.push(child));
                            assert(gnext.visited == gpre.visited.push(k));
                            assert forall|i: int| 0 <= i < stack@.len() implies frame_view(
                                #[trigger] stack@[i],
                            ) == gnext.stack[i] by {
                                if i < stack@.len() - 2 {
                                    assert(stack@[i] == stack_pre[i]);
                                    assert(frame_view(stack_pre[i]) == gpre.stack[i]);
                                } else if i == stack@.len() - 2 {
                                    assert(stack@[i] == fr2);
                                }
                            }
                            assert(frames_correspond(stack@, gnext.stack));
                        } else {
                            assert(gnext.stack == stack2);
                            assert forall|i: int| 0 <= i < stack@.len() implies frame_view(
                                #[trigger] stack@[i],
                            ) == gnext.stack[i] by {
                                if i < stack@.len() - 1 {
                                    assert(stack@[i] == stack_pre[i]);
                                    assert(frame_view(stack_pre[i]) == gpre.stack[i]);
                                }
                            }
                            assert(frames_correspond(stack@, gnext.stack));
                        }
                    }
                },
            }
        }
        proof {
            g = gnext;
        }
    }
    let visited_vec = visited_to_vec(&visited);
    let packages = if summary {
        Vec::new()
    } else {
        out
    };
    let r = DepsClosure { visited: visited_vec, packages };
    proof {
        let fin = run(tv, u, rootv, include_optional, g0);
        assert(state_done(g));
        assert(run(tv, u, rootv, include_optional, g) == g);
        assert(fin == g);
        lemma_init_inv(tv, u, rootv, include_optional);
        lemma_run_inv(tv, u, rootv, include_optional, g0);
        assert(g0.visited.is_prefix_of(fin.visited));
        assert(fin.visited[0] == pkg_key(rootv)) by {
            assert(fin.visited.subrange(0, 1)[0] == fin.visited[0]);
        }
        assert forall|i: int, j: int|
            0 <= i < j < r.visited@.len() implies r.visited@[i]@ != r.visited@[j]@ by {
            assert(r.visited@[i]@ == fin.visited[i]);
            assert(r.visited@[j]@ == fin.visited[j]);
            assert(fin.visited[i] != fin.visited[j]);
        }
        if !summary {
            assert forall|i: int, j: int|
                0 <= i < j < r.packages@.len() implies pkg_key(r.packages@[i]) != pkg_key(
                r.packages@[j],
            ) by {
                assert(out_matches(u, rootv, fin.out[i], r.packages@[i]));
                assert(out_matches(u, rootv, fin.out[j], r.packages@[j]));
                assert(pkg_key(r.packages@[i]) == okey(u, rootv, fin.out[i]));
                assert(pkg_key(r.packages@[j]) == okey(u, rootv, fin.out[j]));
            }
            assert forall|i: int|
                0 <= i < r.packages@.len() implies fin.visited.contains(
                pkg_key(r.packages@[i]),
            ) by {
                assert(out_matches(u, rootv, fin.out[i], r.packages@[i]));
                assert(pkg_key(r.packages@[i]) == okey(u, rootv, fin.out[i]));
                assert(fin.visited.contains(okey(u, rootv, fin.out[i])));
            }
        }
    }
    r
}



// ------------------------------------------------------------------
// Laws of closure resolution.
// ------------------------------------------------------------------

/// Closure resolution ends in a finished state on every universe — cyclic
/// dependency graphs included (termination is part of `run`'s definition) —
/// and visits each `name=version` key at most once: the visited keys of the
/// finished machine are pairwise distinct.
pub proof fn lemma_closure_visits_once(
    t: Seq<SatEntry>,
    u: Seq<PackageInfo>,
    root: PackageInfo,
    opt: bool,
)
    ensures
        state_done(run(t, u, root, opt, init_gstate(root))),
        distinct_seq(run(t, u, root, opt, init_gstate(root)).visited),
{
    lemma_init_inv(t, u, root, opt);
    lemma_run_inv(t, u, root, opt, init_gstate(root));
}

/// Each package is emitted at most once: the records of the finished machine
/// carry pairwise distinct keys, so a dependency shared along several paths
/// (a diamond) appears once in the output.
pub proof fn lemma_closure_outputs_once(
    t: Seq<SatEntry>,
    u: Seq<PackageInfo>,
    root: PackageInfo,
    opt: bool,
)
    ensures
        ({
            let fin = run(t, u, root, opt, init_gstate(root));
            forall|i: int, j: int|
                0 <= i < j < fin.out.len() ==> okey(u, root, #[trigger] fin.out[i]) != okey(
                    u,
                    root,
                    #[trigger] fin.out[j],
                )
        }),
{
    lemma_init_inv(t, u, root, opt);
    lemma_run_inv(t, u, root, opt, init_gstate(root));
}

/// Every emitted record's dependency lists are the pointwise rewrites of the
/// lists its package declares: each specification is resolved on its own, so
/// one specification's missing satisfier leaves its siblings untouched.
pub proof fn lemma_closure_rewrites_pointwise(
    t: Seq<SatEntry>,
    u: Seq<PackageInfo>,
    root: PackageInfo,
    opt: bool,
)
    ensures
        ({
            let fin = run(t, u, root, opt, init_gstate(root));
            forall|i: int| 0 <= i < fin.out.len() ==> out_ok(t, u, root, opt, #[trigger] fin.out[i])
        }),
{
    lemma_init_inv(t, u, root, opt);
    lemma_run_inv(t, u, root, opt, init_gstate(root));
}

/// In full resolution the emitted records' keys are exactly the visited
/// keys: every visited package appears in the output, and only visited
/// packages do.
pub proof fn lemma_closure_outputs_cover_visited(
    t: Seq<SatEntry>,
    u: Seq<PackageInfo>,
    root: PackageInfo,
    opt: bool,
)
    ensures
        ({
            let fin = run(t, u, root, opt, init_gstate(root));
            forall|k: Seq<char>|
                #[trigger] fin.visited.contains(k) <==> exists|i: int|
                    0 <= i < fin.out.len() && okey(u, root, #[trigger] fin.out[i]) == k
        }),
{
    lemma_init_inv(t, u, root, opt);
    lemma_run_inv(t, u, root, opt, init_gstate(root));
    let fin = run(t, u, root, opt, init_gstate(root));
    let oks = Seq::new(fin.out.len(), |i: int| okey(u, root, fin.out[i]));
    assert(oks.no_duplicates()) by {
        assert forall|i: int, j: int|
            0 <= i < oks.len() && 0 <= j < oks.len() && i != j implies oks[i] != oks[j] by {
            if i < j {
                assert(okey(u, root, fin.out[i]) != okey(u, root, fin.out[j]));
            } else {
                assert(okey(u, root, fin.out[j]) != okey(u, root, fin.out[i]));
            }
        }
    }
    assert(fin.visited.no_duplicates());
    oks.unique_seq_to_set();
    fin.visited.unique_seq_to_set();
    assert(oks.to_set().subset_of(fin.visited.to_set())) by {
        assert forall|k: Seq<char>| oks.to_set().contains(k) implies fin.visited.to_set().contains(
            k,
        ) by {
            let i = choose|i: int| 0 <= i < oks.len() && oks[i] == k;
            assert(fin.visited.contains(okey(u, root, fin.out[i])));
        }
    }
    assert(oks.len() == fin.visited.len());
    vstd::set_lib::lemma_subset_equality(oks.to_set(), fin.visited.to_set());
    assert forall|k: Seq<char>|
        #[trigger] fin.visited.contains(k) implies exists|i: int|
            0 <= i < fin.out.len() && okey(u, root, #[trigger] fin.out[i]) == k by {
        assert(fin.visited.to_set().contains(k));
        assert(oks.to_set().contains(k));
        let i = choose|i: int| 0 <= i < oks.len() && oks[i] == k;
        assert(okey(u, root, fin.out[i]) == k);
    }
    assert forall|k: Seq<char>|
        (exists|i: int| 0 <= i < fin.out.len() && okey(u, root, #[trigger] fin.out[i])
            == k) implies #[trigger] fin.visited.contains(k) by {
        let i = choose|i: int| 0 <= i < fin.out.len() && okey(u, root, fin.out[i]) == k;
        assert(fin.visited.contains(okey(u, root, fin.out[i])));
    }
}

/// Two dependency specifications with unset satisfier slots and the same
/// specification string are rewritten with the same satisfier key: both
/// edges into a diamond's shared dependency reference one key.
pub proof fn lemma_same_spec_same_satisfier(
    t: Seq<SatEntry>,
    u: Seq<PackageInfo>,
    a: DepInfo,
    b: DepInfo,
)
    requires
        a.dep_string@ == b.dep_string@,
        a.satisfier is None,
        b.satisfier is None,
    ensures
        rewrite_dep(t, u, a).sat == rewrite_dep(t, u, b).sat,
{
}

/// A dependency specification the database found no satisfier for keeps its
/// satisfier slot unset.
pub proof fn lemma_unsatisfiable_spec_left_unset(t: Seq<SatEntry>, u: Seq<PackageInfo>, d: DepInfo)
    requires
        table_sat(t, u.len() as int, d.dep_string@) is None,
        d.satisfier is None,
    ensures
        rewrite_dep(t, u, d).sat is None,
{
}

/// A satisfied dependency specification receives exactly its satisfier's
/// `name=version` key.
pub proof fn lemma_satisfiable_spec_keyed(
    t: Seq<SatEntry>,
    u: Seq<PackageInfo>,
    d: DepInfo,
    j: int,
)
    requires
        table_sat(t, u.len() as int, d.dep_string@) == Option::Some(j),
    ensures
        0 <= j < u.len(),
        rewrite_dep(t, u, d).sat == Option::Some(pkg_key(u[j])),
{
    lemma_table_sat_range(t, u.len() as int, d.dep_string@, 0);
}

} // verus!
