use vstd::prelude::*;
use vstd::set_lib::{lemma_int_range, lemma_len_subset, set_int_range};

use crate::heap::{refs_of, target_ok, target_ref_ok, FrozenHeap, Heap};
use crate::value::{fits, memory_size, Field, Payload, Value, ValueError};

verus! {

/// Whether every entry of a migration map points into a target of `len` cells.
pub open spec fn map_ok(map: Seq<Option<usize>>, len: int) -> bool {
    forall|c: int| 0 <= c < map.len() && (#[trigger] map[c]) is Some ==> map[c]->Some_0 < len
}

/// The reference to cell `j` of the target.
pub open spec fn target_ref(j: int, to_frozen: bool) -> Value {
    if to_frozen {
        Value::Frozen(j as usize)
    } else {
        Value::Mutable(j as usize)
    }
}

/// `b` agrees with `a` on every entry that `a` has.
pub open spec fn map_extends(a: Seq<Option<usize>>, b: Seq<Option<usize>>) -> bool {
    &&& a.len() <= b.len()
    &&& forall|c: int| 0 <= c < a.len() && (#[trigger] a[c]) is Some ==> b[c] == a[c]
}

/// Every cell of `b` is the cell of `a` or the tombstone of it.
pub open spec fn only_tombstoned(a: Seq<Payload>, b: Seq<Payload>) -> bool {
    &&& a.len() == b.len()
    &&& forall|c: int|
        0 <= c < a.len() ==> (#[trigger] b[c] == a[c] || b[c] == Payload::Tombstone(
            memory_size(a[c]) as usize,
        ))
}

/// Whether reference `r`, found in a source heap of `hlen` cells, can be
/// migrated into a target of `tlen` cells.
pub open spec fn source_ref_ok(r: Value, hlen: int, tlen: int, to_frozen: bool) -> bool {
    match r {
        Value::Mutable(k) => k < hlen,
        Value::Frozen(k) => !to_frozen || k < tlen,
    }
}

/// Whether reference `r` can be migrated and, when it is mutable, leads
/// to a cell of `s`.
pub open spec fn ref_within(r: Value, hlen: int, tlen: int, to_frozen: bool, s: Set<int>) -> bool {
    &&& source_ref_ok(r, hlen, tlen, to_frozen)
    &&& r is Mutable ==> s.contains(r->Mutable_0 as int)
}

/// Whether the cells of `s` can be migrated without meeting a broken
/// reference: they are cells of `h`, their references can be migrated and
/// stay within `s`, and each tombstone among them stands for a cell that
/// `map` says was migrated already.
pub open spec fn migratable_within(h: Seq<Payload>, map: Seq<Option<usize>>, tlen: int, to_frozen: bool, s: Set<int>) -> bool {
    &&& forall|c: int| #[trigger] s.contains(c) ==> 0 <= c < h.len() && (h[c] is Tombstone ==> c < map.len() && map[c] is Some)
    &&& forall|c: int, k: int|
        s.contains(c) && 0 <= k < refs_of(h[c]).len() ==> ref_within(
            #[trigger] refs_of(h[c])[k],
            h.len() as int,
            tlen,
            to_frozen,
            s,
        )
}

/// Whether a migration from `root` meets no broken reference: the cells it
/// can reach lie in a set that is migratable.
pub open spec fn can_migrate(h: Seq<Payload>, map: Seq<Option<usize>>, tlen: int, to_frozen: bool, root: Value) -> bool {
    exists|s: Set<int>| #[trigger] migratable_within(h, map, tlen, to_frozen, s) && ref_within(root, h.len() as int, tlen, to_frozen, s)
}

/// A migration that only tombstones migrated cells, extends the map and
/// grows the target keeps every migratable set migratable.
proof fn lemma_within_kept(
    h0: Seq<Payload>,
    hc: Seq<Payload>,
    mo: Seq<Option<usize>>,
    m: Seq<Option<usize>>,
    t0: int,
    t: int,
    to_frozen: bool,
)
    requires
        only_tombstoned(h0, hc),
        forall|c: int| 0 <= c < h0.len() && #[trigger] hc[c] != h0[c] ==> c < m.len() && m[c] is Some,
        map_extends(mo, m),
        t0 <= t,
    ensures
        forall|s: Set<int>| #[trigger] migratable_within(h0, mo, t0, to_frozen, s) ==> migratable_within(hc, m, t, to_frozen, s),
{
    assert forall|s: Set<int>| #[trigger] migratable_within(h0, mo, t0, to_frozen, s) implies migratable_within(hc, m, t, to_frozen, s) by {
        assert forall|c: int| #[trigger] s.contains(c) implies 0 <= c < hc.len() && (hc[c] is Tombstone ==> c < m.len() && m[c] is Some) by {
            if hc[c] == h0[c] && h0[c] is Tombstone {
                assert(mo[c] is Some);
            }
        }
        assert forall|c: int, k: int|
            s.contains(c) && 0 <= k < refs_of(hc[c]).len() implies ref_within(#[trigger] refs_of(hc[c])[k], hc.len() as int, t, to_frozen, s) by {
            assert(hc[c] == h0[c]);
            assert(ref_within(refs_of(h0[c])[k], h0.len() as int, t0, to_frozen, s));
        }
    }
}

/// The reference that `x` becomes in the target, by `map`.
pub open spec fn moved_ref(x: Value, map: Seq<Option<usize>>, to_frozen: bool) -> Value {
    match x {
        Value::Mutable(k) => if k < map.len() && map[k as int] is Some {
            target_ref(map[k as int]->Some_0 as int, to_frozen)
        } else {
            x
        },
        Value::Frozen(_) => x,
    }
}

/// Whether every mutable reference of `s` is mapped.
pub open spec fn refs_mapped(s: Payload, map: Seq<Option<usize>>) -> bool {
    forall|k: int|
        0 <= k < refs_of(s).len() && (#[trigger] refs_of(s)[k]) is Mutable ==> refs_of(s)[k]->Mutable_0
            < map.len() && map[refs_of(s)[k]->Mutable_0 as int] is Some
}

/// Whether target payload `d` is source payload `s` moved, each of its
/// references replaced by what `map` makes of it.
pub open spec fn moved_payload(s: Payload, d: Payload, map: Seq<Option<usize>>, to_frozen: bool) -> bool {
    match s {
        Payload::List(xs) => {
            &&& d is List
            &&& d->List_0@.len() == xs@.len()
            &&& forall|q: int| 0 <= q < xs@.len() ==> #[trigger] d->List_0@[q] == moved_ref(xs@[q], map, to_frozen)
        },
        Payload::Record(fs) => {
            &&& d is Record
            &&& d->Record_0@.len() == fs@.len()
            &&& forall|q: int|
                0 <= q < fs@.len() ==> (#[trigger] d->Record_0@[q]).name == fs@[q].name && d->Record_0@[q].value
                    == moved_ref(fs@[q].value, map, to_frozen)
        },
        _ => d == s,
    }
}

/// A migrated cell: its payload moved, with every reference mapped.
pub open spec fn migrated(s: Payload, d: Payload, map: Seq<Option<usize>>, to_frozen: bool) -> bool {
    moved_payload(s, d, map, to_frozen) && refs_mapped(s, map)
}

proof fn lemma_migrated_stable(s: Payload, d: Payload, m: Seq<Option<usize>>, m2: Seq<Option<usize>>, to_frozen: bool)
    requires
        migrated(s, d, m, to_frozen),
        map_extends(m, m2),
    ensures
        migrated(s, d, m2, to_frozen),
{
    assert forall|k: int| 0 <= k < refs_of(s).len() && (#[trigger] refs_of(s)[k]) is Mutable implies refs_of(s)[k]->Mutable_0
        < m2.len() && m2[refs_of(s)[k]->Mutable_0 as int] is Some by {
        assert(m[refs_of(s)[k]->Mutable_0 as int] is Some);
    }
    match s {
        Payload::List(xs) => {
            assert forall|q: int| 0 <= q < xs@.len() implies #[trigger] d->List_0@[q] == moved_ref(xs@[q], m2, to_frozen) by {
                assert(refs_of(s)[q] == xs@[q]);
                if xs@[q] is Mutable {
                    assert(m[xs@[q]->Mutable_0 as int] is Some);
                }
            }
        },
        Payload::Record(fs) => {
            assert forall|q: int| 0 <= q < fs@.len() implies (#[trigger] d->Record_0@[q]).name == fs@[q].name
                && d->Record_0@[q].value == moved_ref(fs@[q].value, m2, to_frozen) by {
                assert(refs_of(s)[q] == fs@[q].value);
                if fs@[q].value is Mutable {
                    assert(m[fs@[q].value->Mutable_0 as int] is Some);
                }
            }
        },
        _ => {},
    }
}

/// `b` is `a` with `None` entries appended.
spec fn padded(a: Seq<Option<usize>>, b: Seq<Option<usize>>) -> bool {
    &&& b.len() >= a.len()
    &&& forall|c: int| 0 <= c < b.len() ==> #[trigger] b[c] == if c < a.len() { a[c] } else { None }
}

/// Whether cell `c` was migrated by a pass that started from map `before`
/// and ended with map `after`.
pub open spec fn newly_migrated(before: Seq<Option<usize>>, after: Seq<Option<usize>>, c: int) -> bool {
    &&& 0 <= c < after.len()
    &&& after[c] is Some
    &&& !(c < before.len() && before[c] is Some)
}

/// State of one migration pass: the cells whose contents still have to
/// move, with the target cells reserved for them, and (as a ghost) the set
/// of cells the pass has reserved so far.
struct Pass {
    pending: Vec<(usize, usize)>,
    newly: Ghost<Set<int>>,
}

/// Nothing changed.
spec fn kept(
    m: Seq<Option<usize>>,
    m2: Seq<Option<usize>>,
    t: Seq<Payload>,
    t2: Seq<Payload>,
    p: Pass,
    pn: Pass,
) -> bool {
    &&& m2 == m
    &&& t2 == t
    &&& pn.pending@ == p.pending@
    &&& pn.newly@ == p.newly@
}

/// Cell `k` was reserved the next target cell, and queued.
spec fn reserved(
    m: Seq<Option<usize>>,
    m2: Seq<Option<usize>>,
    t: Seq<Payload>,
    t2: Seq<Payload>,
    p: Pass,
    pn: Pass,
    k: int,
) -> bool {
    &&& m2 == m.update(k, Some(t.len() as usize))
    &&& t2 == t.push(Payload::NoneValue)
    &&& pn.pending@ == p.pending@.push((k as usize, t.len() as usize))
    &&& pn.newly@ == p.newly@.insert(k)
}

/// The invariant of the pass over the queued cells.
spec fn pass_inv(
    t: Seq<Payload>,
    m: Seq<Option<usize>>,
    hc: Seq<Payload>,
    h0: Seq<Payload>,
    m0: Seq<Option<usize>>,
    p: Pass,
    to_frozen: bool,
    except: int,
) -> bool {
    &&& target_ok(t, to_frozen)
    &&& map_ok(m, t.len() as int)
    &&& m.len() == m0.len()
    &&& m0.len() >= h0.len()
    &&& map_extends(m0, m)
    &&& only_tombstoned(h0, hc)
    &&& forall|c: int| 0 <= c < h0.len() && #[trigger] hc[c] != h0[c] ==> p.newly@.contains(c)
    &&& forall|c1: int, c2: int|
        #[trigger] p.newly@.contains(c1) && #[trigger] p.newly@.contains(c2) && c1 != c2 ==> m[c1] != m[c2]
    &&& forall|c: int|
        #[trigger] p.newly@.contains(c) && hc[c] == h0[c] ==> exists|n: int|
            0 <= n < p.pending@.len() && (#[trigger] p.pending@[n]).0 == c
    &&& forall|c: int|
        #[trigger] p.newly@.contains(c) && hc[c] != h0[c] && c != except ==> migrated(
            h0[c],
            t[m[c]->Some_0 as int],
            m,
            to_frozen,
        )
    &&& forall|c: int| 0 <= c < hc.len() ==> fits(#[trigger] hc[c])
    &&& p.newly@.finite()
    &&& forall|c: int| #[trigger] p.newly@.contains(c) <==> (0 <= c < h0.len() && m0[c] is None && m[c] is Some)
    &&& forall|n: int| 0 <= n < p.pending@.len() ==> {
        let (k, j) = #[trigger] p.pending@[n];
        &&& k < h0.len()
        &&& j < t.len()
        &&& m[k as int] == Some(j)
        &&& p.newly@.contains(k as int)
        &&& hc[k as int] == h0[k as int]
        &&& !(h0[k as int] is Tombstone)
    }
    &&& forall|n1: int, n2: int|
        0 <= n1 < n2 < p.pending@.len() ==> (#[trigger] p.pending@[n1]).0 != (#[trigger] p.pending@[n2]).0
}

/// The invariant while the references of popped cell `i`, bound for target
/// cell `j`, are being moved; `bound` caps the pass's termination measure.
spec fn cell_inv(
    t: Seq<Payload>,
    m: Seq<Option<usize>>,
    hc: Seq<Payload>,
    h0: Seq<Payload>,
    m0: Seq<Option<usize>>,
    p: Pass,
    to_frozen: bool,
    i: usize,
    j: usize,
    bound: int,
) -> bool {
    &&& pass_inv(t, m, hc, h0, m0, p, to_frozen, i as int)
    &&& i < h0.len()
    &&& j < t.len()
    &&& p.newly@.contains(i as int)
    &&& m[i as int] == Some(j)
    &&& 2 * (h0.len() - p.newly@.len()) + p.pending@.len() <= bound
}

/// The target reference for `x`, reserving a target cell for a mutable cell
/// met for the first time.
fn migrate_ref(
    target: &mut Vec<Payload>,
    map: &mut Vec<Option<usize>>,
    heap: &Heap,
    to_frozen: bool,
    x: Value,
    pass: &mut Pass,
    Ghost(h0): Ghost<Seq<Payload>>,
    Ghost(m0): Ghost<Seq<Option<usize>>>,
    Ghost(except): Ghost<int>,
) -> (r: Result<Value, ValueError>)
    requires
        pass_inv(old(target)@, old(map)@, heap.cells@, h0, m0, *old(pass), to_frozen, except),
    ensures
        pass_inv(final(target)@, final(map)@, heap.cells@, h0, m0, *final(pass), to_frozen, except),
        map_extends(old(map)@, final(map)@),
        target_ok(final(target)@, to_frozen),
        map_ok(final(map)@, final(target)@.len() as int),
        r is Ok ==> target_ref_ok(r->Ok_0, final(target)@.len() as int, to_frozen),
        r is Err ==> kept(old(map)@, final(map)@, old(target)@, final(target)@, *old(pass), *final(pass)),
        match x {
            Value::Frozen(k) => {
                &&& kept(old(map)@, final(map)@, old(target)@, final(target)@, *old(pass), *final(pass))
                &&& r == if to_frozen && k >= old(target)@.len() {
                    Err::<Value, ValueError>(ValueError::Dangling)
                } else {
                    Ok(x)
                }
            },
            Value::Mutable(k) => if k >= heap.cells@.len() {
                &&& kept(old(map)@, final(map)@, old(target)@, final(target)@, *old(pass), *final(pass))
                &&& r == Err::<Value, ValueError>(ValueError::Dangling)
            } else if old(map)@[k as int] is Some {
                &&& kept(old(map)@, final(map)@, old(target)@, final(target)@, *old(pass), *final(pass))
                &&& r == Ok::<Value, ValueError>(target_ref(old(map)@[k as int]->Some_0 as int, to_frozen))
            } else if heap.cells@[k as int] is Tombstone {
                &&& kept(old(map)@, final(map)@, old(target)@, final(target)@, *old(pass), *final(pass))
                &&& r == Err::<Value, ValueError>(ValueError::Tombstone)
            } else {
                &&& reserved(old(map)@, final(map)@, old(target)@, final(target)@, *old(pass), *final(pass), k as int)
                &&& r == Ok::<Value, ValueError>(target_ref(old(target)@.len() as int, to_frozen))
            },
        },
{
    match x {
        Value::Frozen(k) => {
            if to_frozen && k >= target.len() {
                Err(ValueError::Dangling)
            } else {
                Ok(x)
            }
        },
        Value::Mutable(k) => {
            if k >= heap.cells.len() {
                return Err(ValueError::Dangling);
            }
            if let Some(j) = map[k] {
                return Ok(if to_frozen { Value::Frozen(j) } else { Value::Mutable(j) });
            }
            if let Payload::Tombstone(_) = &heap.cells[k] {
                return Err(ValueError::Tombstone);
            }
            let ghost t = target@;
            let ghost m = map@;
            let ghost p = *pass;
            let j = target.len();
            target.push(Payload::NoneValue);
            map.set(k, Some(j));
            pass.pending.push((k, j));
            pass.newly = Ghost(pass.newly@.insert(k as int));
            proof {
                let hc = heap.cells@;
                let t2 = target@;
                let m2 = map@;
                let pn = *pass;
                assert(hc[k as int] == h0[k as int]);
                assert(m0[k as int] is None) by {
                    if m0[k as int] is Some {
                        assert(m[k as int] == m0[k as int]);
                    }
                }
                assert(map_extends(m0, m2));
                assert forall|c: int| #[trigger] pn.newly@.contains(c) <==> (0 <= c < h0.len() && m0[c] is None && m2[c] is Some) by {
                    if c != k {
                        assert(p.newly@.contains(c) == pn.newly@.contains(c));
                    }
                }
                assert forall|n: int| 0 <= n < pn.pending@.len() implies {
                    let (k1, j1) = #[trigger] pn.pending@[n];
                    &&& k1 < h0.len()
                    &&& j1 < t2.len()
                    &&& m2[k1 as int] == Some(j1)
                    &&& pn.newly@.contains(k1 as int)
                    &&& hc[k1 as int] == h0[k1 as int]
                    &&& !(h0[k1 as int] is Tombstone)
                } by {
                    if n < p.pending@.len() {
                        assert(pn.pending@[n] == p.pending@[n]);
                        let (k1, j1) = p.pending@[n];
                        assert(m[k1 as int] == Some(j1));
                    }
                }
                assert forall|n1: int, n2: int|
                    0 <= n1 < n2 < pn.pending@.len() implies (#[trigger] pn.pending@[n1]).0 != (#[trigger] pn.pending@[n2]).0 by {
                    if n2 == p.pending@.len() {
                        let (k1, j1) = p.pending@[n1];
                        assert(m[k1 as int] == Some(j1));
                    } else {
                        assert(pn.pending@[n1] == p.pending@[n1]);
                        assert(pn.pending@[n2] == p.pending@[n2]);
                    }
                }
                assert forall|c1: int, c2: int|
                    #[trigger] pn.newly@.contains(c1) && #[trigger] pn.newly@.contains(c2) && c1 != c2 implies m2[c1] != m2[c2] by {
                    if c1 != k && c2 != k {
                        assert(p.newly@.contains(c1) && p.newly@.contains(c2));
                    } else if c1 == k {
                        assert(m[c2] is Some);
                    } else {
                        assert(m[c1] is Some);
                    }
                }
                assert forall|c: int|
                    #[trigger] pn.newly@.contains(c) && hc[c] == h0[c] implies exists|n: int|
                        0 <= n < pn.pending@.len() && (#[trigger] pn.pending@[n]).0 == c by {
                    if c == k {
                        assert(pn.pending@[p.pending@.len() as int].0 == c);
                    } else {
                        assert(p.newly@.contains(c));
                        let n = choose|n: int| 0 <= n < p.pending@.len() && (#[trigger] p.pending@[n]).0 == c;
                        assert(pn.pending@[n] == p.pending@[n]);
                    }
                }
                assert forall|c: int|
                    #[trigger] pn.newly@.contains(c) && hc[c] != h0[c] && c != except implies migrated(
                        h0[c],
                        t2[m2[c]->Some_0 as int],
                        m2,
                        to_frozen,
                    ) by {
                    assert(c != k);
                    assert(p.newly@.contains(c));
                    assert(m2[c] == m[c]);
                    assert(t2[m[c]->Some_0 as int] == t[m[c]->Some_0 as int]);
                    lemma_migrated_stable(h0[c], t[m[c]->Some_0 as int], m, m2, to_frozen);
                }
                assert forall|c: int| 0 <= c < h0.len() && #[trigger] hc[c] != h0[c] implies pn.newly@.contains(c) by {
                    assert(p.newly@.contains(c));
                }
            }
            Ok(if to_frozen { Value::Frozen(j) } else { Value::Mutable(j) })
        },
    }
}

/// Moves the cells reachable from `root` out of `heap` into `target`,
/// leaving tombstones behind; `map` records where each cell went.
fn migrate(
    target: &mut Vec<Payload>,
    map: &mut Vec<Option<usize>>,
    heap: &mut Heap,
    to_frozen: bool,
    root: Value,
) -> (r: Result<Value, ValueError>)
    requires
        old(heap).wf(),
        target_ok(old(target)@, to_frozen),
        map_ok(old(map)@, old(target)@.len() as int),
    ensures
        final(heap).wf(),
        target_ok(final(target)@, to_frozen),
        map_ok(final(map)@, final(target)@.len() as int),
        map_extends(old(map)@, final(map)@),
        final(map)@.len() >= old(heap).cells@.len(),
        final(target)@.len() >= old(target)@.len(),
        only_tombstoned(old(heap).cells@, final(heap).cells@),
        r is Err ==> r->Err_0 == ValueError::Dangling || r->Err_0 == ValueError::Tombstone,
        r is Ok ==> forall|c: int|
            0 <= c < old(heap).cells@.len() && #[trigger] newly_migrated(old(map)@, final(map)@, c) ==> {
                &&& final(heap).cells@[c] == Payload::Tombstone(memory_size(old(heap).cells@[c]) as usize)
                &&& migrated(old(heap).cells@[c], final(target)@[final(map)@[c]->Some_0 as int], final(map)@, to_frozen)
            },
        can_migrate(old(heap).cells@, old(map)@, old(target)@.len() as int, to_frozen, root) ==> r is Ok,
        forall|s: Set<int>| #[trigger] migratable_within(old(heap).cells@, old(map)@, old(target)@.len() as int, to_frozen, s)
            ==> migratable_within(final(heap).cells@, final(map)@, final(target)@.len() as int, to_frozen, s),
        match root {
            Value::Frozen(k) => if to_frozen && k >= old(target)@.len() {
                r == Err::<Value, ValueError>(ValueError::Dangling)
            } else {
                &&& r == Ok::<Value, ValueError>(root)
                &&& final(heap).cells@ == old(heap).cells@
                &&& final(target)@ == old(target)@
            },
            Value::Mutable(i) => {
                &&& i >= old(heap).cells@.len() ==> r == Err::<Value, ValueError>(ValueError::Dangling)
                &&& (i < old(heap).cells@.len() && i < old(map)@.len() && old(map)@[i as int] is Some) ==> {
                    &&& r == Ok::<Value, ValueError>(target_ref(old(map)@[i as int]->Some_0 as int, to_frozen))
                    &&& final(heap).cells@ == old(heap).cells@
                    &&& final(target)@ == old(target)@
                }
                &&& r is Ok ==> i < final(map)@.len() && final(map)@[i as int] is Some && r->Ok_0
                    == target_ref(final(map)@[i as int]->Some_0 as int, to_frozen)
            },
        },
{
    // Give every source cell an entry in the map.
    while map.len() < heap.cells.len()
        invariant
            map_ok(map@, target@.len() as int),
            map_extends(old(map)@, map@),
            heap.cells@ == old(heap).cells@,
            target@ == old(target)@,
            padded(old(map)@, map@),
        decreases heap.cells@.len() - map@.len(),
    {
        map.push(None);
    }
    let ghost mo = old(map)@;
    let ghost t0 = target@;
    let ghost h0 = heap.cells@;
    let ghost m0 = map@;
    let ghost good = can_migrate(h0, mo, t0.len() as int, to_frozen, root);
    let ghost s: Set<int> = if good {
        choose|s: Set<int>| #[trigger] migratable_within(h0, mo, t0.len() as int, to_frozen, s) && ref_within(root, h0.len() as int, t0.len() as int, to_frozen, s)
    } else {
        Set::empty()
    };
    proof {
        if good {
            assert forall|c: int| #[trigger] s.contains(c) implies 0 <= c < h0.len() && (h0[c] is Tombstone ==> c < m0.len() && m0[c] is Some) by {
                if h0[c] is Tombstone {
                    assert(mo[c] is Some);
                }
            }
            assert(migratable_within(h0, m0, t0.len() as int, to_frozen, s));
        }
    }
    let mut pass = Pass { pending: Vec::new(), newly: Ghost(Set::empty()) };
    let out = migrate_ref(target, map, heap, to_frozen, root, &mut pass, Ghost(h0), Ghost(m0), Ghost(-1));
    proof {
        if let Value::Mutable(i) = root {
            if i < mo.len() && mo[i as int] is Some {
                assert(map_extends(mo, m0));
                assert(m0[i as int] == mo[i as int]);
            }
        }
    }
    let out = match out {
        Ok(v) => v,
        Err(e) => {
            proof {
                if good {
                    if let Value::Mutable(k) = root {
                        if h0[k as int] is Tombstone {
                            assert(m0[k as int] is Some);
                        }
                    }
                }
                lemma_within_kept(h0, heap.cells@, mo, map@, t0.len() as int, target@.len() as int, to_frozen);
            }
            return Err(e);
        },
    };
    let ghost m1 = map@;
    let ghost t1 = target@;
    let ghost start_empty = pass.pending@.len() == 0;
    proof {
        if good {
            assert forall|p: int| 0 <= p < pass.pending@.len() implies s.contains(#[trigger] pass.pending@[p].0 as int) by {}
        }
    }
    proof {
        if let Value::Mutable(i) = root {
            assert(i < m1.len() && m1[i as int] is Some && out == target_ref(m1[i as int]->Some_0 as int, to_frozen));
        }
    }
    proof {
        lemma_int_range(0, h0.len() as int);
    }
    // Work list: a queued cell already owns its target cell, so references
    // to it (cycles included) resolve through the map while its contents
    // move; no recursion, and each cell is queued at most once.
    while pass.pending.len() > 0
        invariant
            pass_inv(target@, map@, heap.cells@, h0, m0, pass, to_frozen, -1),
            map_extends(mo, map@),
            map_extends(m1, map@),
            target@.len() >= t0.len(),
            old(map)@ == mo,
            old(heap).cells@ == h0,
            old(target)@ == t0,
            start_empty ==> pass.pending@.len() == 0 && heap.cells@ == h0 && target@ == t1,
            !start_empty ==> root is Mutable && root->Mutable_0 < h0.len() && !(root->Mutable_0 < mo.len() && mo[root->Mutable_0 as int] is Some),
            good ==> migratable_within(h0, m0, t0.len() as int, to_frozen, s),
            good ==> forall|p: int| 0 <= p < pass.pending@.len() ==> s.contains(#[trigger] pass.pending@[p].0 as int),
            good == can_migrate(h0, mo, t0.len() as int, to_frozen, root),
            set_int_range(0, h0.len() as int).finite(),
            set_int_range(0, h0.len() as int).len() == h0.len(),
            padded(mo, m0),
        decreases 2 * (h0.len() - pass.newly@.len()) + pass.pending@.len(),
    {
        proof {
            assert(pass.newly@.subset_of(set_int_range(0, h0.len() as int)));
            lemma_len_subset(pass.newly@, set_int_range(0, h0.len() as int));
        }
        let ghost pend = pass.pending@;
        let ghost hcb = heap.cells@;
        let (i, j) = pass.pending.pop().unwrap();
        let ghost bound = 2 * (h0.len() - pass.newly@.len()) + pass.pending@.len();
        // Take the payload out and leave a tombstone of its size.
        let mut cell = Payload::NoneValue;
        heap.cells.set_and_swap(i, &mut cell);
        let size = cell.memory_size();
        heap.cells.set(i, Payload::Tombstone(size));
        proof {
            let last = pend.len() - 1;
            assert(pend[last] == (i, j));
            let hc = heap.cells@;
            let pp = pass.pending@;
            assert(cell == h0[i as int]);
            assert(hc == hcb.update(i as int, Payload::Tombstone(size)));
            assert forall|n: int| 0 <= n < pp.len() implies {
                let (k1, j1) = #[trigger] pp[n];
                &&& k1 < h0.len()
                &&& j1 < target@.len()
                &&& map@[k1 as int] == Some(j1)
                &&& pass.newly@.contains(k1 as int)
                &&& hc[k1 as int] == h0[k1 as int]
                &&& !(h0[k1 as int] is Tombstone)
            } by {
                assert(pp[n] == pend[n]);
                assert(pend[n].0 != pend[last].0);
            }
            assert forall|n1: int, n2: int|
                0 <= n1 < n2 < pp.len() implies (#[trigger] pp[n1]).0 != (#[trigger] pp[n2]).0 by {
                assert(pp[n1] == pend[n1]);
                assert(pp[n2] == pend[n2]);
            }
            assert forall|c: int|
                #[trigger] pass.newly@.contains(c) && hc[c] == h0[c] implies exists|n: int|
                    0 <= n < pp.len() && (#[trigger] pp[n]).0 == c by {
                assert(c != i);
                assert(hcb[c] == h0[c]);
                let n = choose|n: int| 0 <= n < pend.len() && (#[trigger] pend[n]).0 == c;
                assert(n != last);
                assert(pp[n] == pend[n]);
            }
            assert forall|c: int| 0 <= c < h0.len() && #[trigger] hc[c] != h0[c] implies pass.newly@.contains(c) by {
                if c != i {
                    assert(hcb[c] != h0[c]);
                }
            }
            assert forall|c: int|
                #[trigger] pass.newly@.contains(c) && hc[c] != h0[c] && c != i implies migrated(
                    h0[c],
                    target@[map@[c]->Some_0 as int],
                    map@,
                    to_frozen,
                ) by {
                assert(hcb[c] != h0[c]);
            }
            assert(only_tombstoned(h0, hc));
            assert forall|c: int| 0 <= c < hc.len() implies fits(#[trigger] hc[c]) by {
                if c != i {
                    assert(fits(hcb[c]));
                }
            }
        }
        let moved = match cell {
            Payload::List(xs) => {
                proof {
                    if good {
                        assert(refs_of(h0[i as int]) == xs@);
                        assert forall|q: int| 0 <= q < xs@.len() implies ref_within(#[trigger] xs@[q], h0.len() as int, t0.len() as int, to_frozen, s) by {
                            assert(ref_within(refs_of(h0[i as int])[q], h0.len() as int, t0.len() as int, to_frozen, s));
                        }
                    }
                }
                let mut ys: Vec<Value> = Vec::new();
                let mut n: usize = 0;
                while n < xs.len()
                    invariant
                        cell_inv(target@, map@, heap.cells@, h0, m0, pass, to_frozen, i, j, bound),
                        n <= xs@.len(),
                        map_extends(mo, map@),
                        map_extends(m1, map@),
                        target@.len() >= t0.len(),
                        old(map)@ == mo,
                        old(heap).cells@ == h0,
                        old(target)@ == t0,
                        !start_empty,
                        root is Mutable && root->Mutable_0 < h0.len() && !(root->Mutable_0 < mo.len() && mo[root->Mutable_0 as int] is Some),
                        ys@.len() == n,
                        forall|q: int| 0 <= q < n ==> #[trigger] ys@[q] == moved_ref(xs@[q], map@, to_frozen),
                        forall|q: int| 0 <= q < n && (#[trigger] xs@[q]) is Mutable ==> xs@[q]->Mutable_0 < map@.len() && map@[xs@[q]->Mutable_0 as int] is Some,
                        h0[i as int] == Payload::List(xs),
                        good ==> migratable_within(h0, m0, t0.len() as int, to_frozen, s),
                        good ==> forall|p: int| 0 <= p < pass.pending@.len() ==> s.contains(#[trigger] pass.pending@[p].0 as int),
                        good == can_migrate(h0, mo, t0.len() as int, to_frozen, root),
                        good ==> forall|q: int| n <= q < xs@.len() ==> ref_within(#[trigger] xs@[q], h0.len() as int, t0.len() as int, to_frozen, s),
                        forall|q: int| 0 <= q < ys@.len() ==> target_ref_ok(#[trigger] ys@[q], target@.len() as int, to_frozen),
                    decreases xs@.len() - n,
                {
                    let ghost prev = pass.pending@;
                    let y = migrate_ref(target, map, heap, to_frozen, xs[n], &mut pass, Ghost(h0), Ghost(m0), Ghost(i as int));
                    proof {
                        if good {
                            assert(ref_within(xs@[n as int], h0.len() as int, t0.len() as int, to_frozen, s));
                            assert forall|p: int| 0 <= p < pass.pending@.len() implies s.contains(#[trigger] pass.pending@[p].0 as int) by {
                                if p < prev.len() {
                                    assert(pass.pending@[p] == prev[p]);
                                }
                            }
                        }
                    }
                    match y {
                        Ok(y) => ys.push(y),
                        Err(e) => {
                            proof {
                                if good {
                                    assert(ref_within(xs@[n as int], h0.len() as int, t0.len() as int, to_frozen, s));
                                    if let Value::Mutable(k) = xs@[n as int] {
                                        assert(k < heap.cells@.len());
                                        if heap.cells@[k as int] is Tombstone {
                                            if heap.cells@[k as int] == h0[k as int] {
                                                assert(m0[k as int] is Some);
                                                assert(map@[k as int] == m0[k as int]);
                                            } else {
                                                assert(map@[k as int] is Some);
                                            }
                                        }
                                    }
                                }
                                lemma_within_kept(h0, heap.cells@, mo, map@, t0.len() as int, target@.len() as int, to_frozen);
                            }
                            return Err(e);
                        },
                    }
                    n = n + 1;
                }
                Payload::List(ys)
            },
            Payload::Record(fs) => {
                let mut gs: Vec<Field> = Vec::new();
                let mut n: usize = 0;
                proof {
                    if good {
                        assert(refs_of(h0[i as int]) == fs@.map_values(|f: Field| f.value));
                        assert forall|q: int| 0 <= q < fs@.len() implies ref_within(#[trigger] fs@[q].value, h0.len() as int, t0.len() as int, to_frozen, s) by {
                            assert(ref_within(refs_of(h0[i as int])[q], h0.len() as int, t0.len() as int, to_frozen, s));
                        }
                    }
                }
                let mut fs = fs;
                let ghost fs_len = fs@.len();
                let ghost fs0 = fs@;
                while n < fs.len()
                    invariant
                        cell_inv(target@, map@, heap.cells@, h0, m0, pass, to_frozen, i, j, bound),
                        n <= fs@.len(),
                        map_extends(mo, map@),
                        map_extends(m1, map@),
                        target@.len() >= t0.len(),
                        old(map)@ == mo,
                        old(heap).cells@ == h0,
                        old(target)@ == t0,
                        !start_empty,
                        root is Mutable && root->Mutable_0 < h0.len() && !(root->Mutable_0 < mo.len() && mo[root->Mutable_0 as int] is Some),
                        gs@.len() == n,
                        fs@.len() == fs_len,
                        fs0.len() == fs_len,
                        h0[i as int] is Record && h0[i as int]->Record_0@ == fs0,
                        forall|q: int| n <= q < fs_len ==> #[trigger] fs@[q] == fs0[q],
                        forall|q: int| 0 <= q < n ==> (#[trigger] gs@[q]).name == fs0[q].name && gs@[q].value == moved_ref(fs0[q].value, map@, to_frozen),
                        forall|q: int| 0 <= q < n && (#[trigger] fs0[q]).value is Mutable ==> fs0[q].value->Mutable_0 < map@.len() && map@[fs0[q].value->Mutable_0 as int] is Some,
                        good ==> migratable_within(h0, m0, t0.len() as int, to_frozen, s),
                        good ==> forall|p: int| 0 <= p < pass.pending@.len() ==> s.contains(#[trigger] pass.pending@[p].0 as int),
                        good == can_migrate(h0, mo, t0.len() as int, to_frozen, root),
                        good ==> forall|q: int| n <= q < fs@.len() ==> ref_within(#[trigger] fs@[q].value, h0.len() as int, t0.len() as int, to_frozen, s),
                        forall|q: int| 0 <= q < gs@.len() ==> target_ref_ok(#[trigger] gs@[q].value, target@.len() as int, to_frozen),
                    decreases fs@.len() - n,
                {
                    let ghost fv = fs@[n as int].value;
                    let mut f = Field { name: String::new(), value: Value::Frozen(0) };
                    fs.set_and_swap(n, &mut f);
                    let ghost prev = pass.pending@;
                    let y = migrate_ref(target, map, heap, to_frozen, f.value, &mut pass, Ghost(h0), Ghost(m0), Ghost(i as int));
                    proof {
                        if good {
                            assert(ref_within(fv, h0.len() as int, t0.len() as int, to_frozen, s));
                            assert forall|p: int| 0 <= p < pass.pending@.len() implies s.contains(#[trigger] pass.pending@[p].0 as int) by {
                                if p < prev.len() {
                                    assert(pass.pending@[p] == prev[p]);
                                }
                            }
                        }
                    }
                    match y {
                        Ok(y) => gs.push(Field { name: f.name, value: y }),
                        Err(e) => {
                            proof {
                                if good {
                                    assert(ref_within(fv, h0.len() as int, t0.len() as int, to_frozen, s));
                                    if let Value::Mutable(k) = fv {
                                        assert(k < heap.cells@.len());
                                        if heap.cells@[k as int] is Tombstone {
                                            if heap.cells@[k as int] == h0[k as int] {
                                                assert(m0[k as int] is Some);
                                                assert(map@[k as int] == m0[k as int]);
                                            } else {
                                                assert(map@[k as int] is Some);
                                            }
                                        }
                                    }
                                }
                                lemma_within_kept(h0, heap.cells@, mo, map@, t0.len() as int, target@.len() as int, to_frozen);
                            }
                            return Err(e);
                        },
                    }
                    n = n + 1;
                }
                Payload::Record(gs)
            },
            other => other,
        };
        proof {
            assert(fits(moved));
            assert(migrated(h0[i as int], moved, map@, to_frozen));
            assert(forall|k: int| 0 <= k < refs_of(moved).len() ==> target_ref_ok(#[trigger] refs_of(moved)[k], target@.len() as int, to_frozen));
        }
        let ghost tb = target@;
        target.set(j, moved);
        proof {
            let t2 = target@;
            assert(t2 == tb.update(j as int, moved));
            assert forall|c: int|
                #[trigger] pass.newly@.contains(c) && heap.cells@[c] != h0[c] && c != -1 implies migrated(
                    h0[c],
                    t2[map@[c]->Some_0 as int],
                    map@,
                    to_frozen,
                ) by {
                if c != i {
                    assert(map@[c] != map@[i as int]);
                    assert(t2[map@[c]->Some_0 as int] == tb[map@[c]->Some_0 as int]);
                }
            }
            assert forall|a: int, k: int|
                0 <= a < t2.len() && 0 <= k < refs_of(t2[a]).len() implies target_ref_ok(
                    #[trigger] refs_of(t2[a])[k],
                    t2.len() as int,
                    to_frozen,
                ) by {
                if a != j {
                    assert(t2[a] == tb[a]);
                }
            }
            assert forall|a: int| 0 <= a < t2.len() implies fits(#[trigger] t2[a]) by {
                if a != j {
                    assert(t2[a] == tb[a]);
                }
            }
        }
        proof {
            assert(pass.newly@.subset_of(set_int_range(0, h0.len() as int)));
            lemma_len_subset(pass.newly@, set_int_range(0, h0.len() as int));
        }
    }
    proof {
        assert forall|c: int|
            0 <= c < h0.len() && #[trigger] newly_migrated(mo, map@, c) implies {
                &&& heap.cells@[c] == Payload::Tombstone(memory_size(h0[c]) as usize)
                &&& migrated(h0[c], target@[map@[c]->Some_0 as int], map@, to_frozen)
            } by {
            assert(m0[c] is None);
            assert(pass.newly@.contains(c));
            if heap.cells@[c] == h0[c] {
                let n = choose|n: int| 0 <= n < pass.pending@.len() && (#[trigger] pass.pending@[n]).0 == c;
            }
        }
        lemma_within_kept(h0, heap.cells@, mo, map@, t0.len() as int, target@.len() as int, to_frozen);
    }
    Ok(out)
}

} // verus!

verus! {

/// Drives the freeze protocol: moves mutable cells into one immutable heap,
/// remembering where each went so that shared references stay shared.
pub struct Freezer {
    pub frozen: FrozenHeap,
    /// For each cell of the mutable heap, the frozen cell it became.
    pub map: Vec<Option<usize>>,
}

impl Freezer {
    /// The frozen heap is closed and the map points into it.
    pub open spec fn wf(&self) -> bool {
        &&& self.frozen.wf()
        &&& map_ok(self.map@, self.frozen.cells@.len() as int)
    }

    /// A freezer that fills `frozen`.
    pub fn new(frozen: FrozenHeap) -> (r: Freezer)
        requires
            frozen.wf(),
        ensures
            r.wf(),
            r.frozen == frozen,
            r.map@.len() == 0,
    {
        Freezer { frozen, map: Vec::new() }
    }

    /// Freezes `v` and everything reachable from it. A value of the
    /// immutable heap comes back as it is; a cell frozen before comes back
    /// as the frozen cell it became; every other reachable cell is moved
    /// and replaced by a tombstone of its size. The heap must hold no broken
    /// reference, and a tombstone it holds must stand for a cell frozen
    /// already: running a migration hook on a tombstone is an internal
    /// invariant violation. No value type of the library fails to freeze.
    pub fn freeze(&mut self, heap: &mut Heap, v: Value) -> (r: Result<Value, ValueError>)
        requires
            old(self).wf(),
            old(heap).wf(),
            can_migrate(old(heap).cells@, old(self).map@, old(self).frozen.cells@.len() as int, true, v),
        ensures
            final(self).wf(),
            final(heap).wf(),
            forall|s: Set<int>| #[trigger] migratable_within(old(heap).cells@, old(self).map@, old(self).frozen.cells@.len() as int, true, s)
                ==> migratable_within(final(heap).cells@, final(self).map@, final(self).frozen.cells@.len() as int, true, s),
            map_extends(old(self).map@, final(self).map@),
            final(self).frozen.cells@.len() >= old(self).frozen.cells@.len(),
            only_tombstoned(old(heap).cells@, final(heap).cells@),
            r is Ok,
            r->Ok_0 is Frozen && r->Ok_0->Frozen_0 < final(self).frozen.cells@.len(),
            forall|c: int|
                0 <= c < old(heap).cells@.len() && #[trigger] newly_migrated(old(self).map@, final(self).map@, c) ==> {
                    &&& final(heap).cells@[c] == Payload::Tombstone(memory_size(old(heap).cells@[c]) as usize)
                    &&& migrated(old(heap).cells@[c], final(self).frozen.cells@[final(self).map@[c]->Some_0 as int], final(self).map@, true)
                },
            match v {
                Value::Frozen(_) => {
                    &&& r == Ok::<Value, ValueError>(v)
                    &&& final(heap).cells@ == old(heap).cells@
                    &&& final(self).frozen.cells@ == old(self).frozen.cells@
                },
                Value::Mutable(i) => {
                    &&& (i < old(self).map@.len() && old(self).map@[i as int] is Some) ==> {
                        &&& r == Ok::<Value, ValueError>(Value::Frozen(old(self).map@[i as int]->Some_0))
                        &&& final(heap).cells@ == old(heap).cells@
                        &&& final(self).frozen.cells@ == old(self).frozen.cells@
                    }
                    &&& i < final(self).map@.len() && final(self).map@[i as int] == Some(r->Ok_0->Frozen_0)
                },
            },
    {
        migrate(&mut self.frozen.cells, &mut self.map, heap, true, v)
    }

    /// The immutable heap built so far.
    pub fn into_frozen(self) -> (r: FrozenHeap)
        requires
            self.wf(),
        ensures
            r.wf(),
            r == self.frozen,
    {
        self.frozen
    }
}

/// Drives the heap-copy protocol: moves mutable cells into another mutable
/// generation, remembering where each went.
pub struct Tracer {
    pub target: Heap,
    /// For each cell of the source heap, the cell of `target` it became.
    pub map: Vec<Option<usize>>,
}

impl Tracer {
    /// The target references only itself and the frozen heap, and the map
    /// points into it.
    pub open spec fn wf(&self) -> bool {
        &&& target_ok(self.target.cells@, false)
        &&& map_ok(self.map@, self.target.cells@.len() as int)
    }

    /// A tracer that fills `target`.
    pub fn new(target: Heap) -> (r: Tracer)
        requires
            target_ok(target.cells@, false),
        ensures
            r.wf(),
            r.target == target,
            r.map@.len() == 0,
    {
        Tracer { target, map: Vec::new() }
    }

    /// Copies `v` and everything reachable from it into the target. Values
    /// of the immutable heap are shared, not copied; a cell copied before
    /// comes back as its copy; every other reachable cell is moved and
    /// replaced by a tombstone of its size. As for freezing, the heap must
    /// hold no broken reference and no tombstone that was not copied.
    pub fn trace(&mut self, heap: &mut Heap, v: Value) -> (r: Value)
        requires
            old(self).wf(),
            old(heap).wf(),
            can_migrate(old(heap).cells@, old(self).map@, old(self).target.cells@.len() as int, false, v),
        ensures
            final(self).wf(),
            final(heap).wf(),
            forall|s: Set<int>| #[trigger] migratable_within(old(heap).cells@, old(self).map@, old(self).target.cells@.len() as int, false, s)
                ==> migratable_within(final(heap).cells@, final(self).map@, final(self).target.cells@.len() as int, false, s),
            map_extends(old(self).map@, final(self).map@),
            final(self).target.cells@.len() >= old(self).target.cells@.len(),
            only_tombstoned(old(heap).cells@, final(heap).cells@),
            forall|c: int|
                0 <= c < old(heap).cells@.len() && #[trigger] newly_migrated(old(self).map@, final(self).map@, c) ==> {
                    &&& final(heap).cells@[c] == Payload::Tombstone(memory_size(old(heap).cells@[c]) as usize)
                    &&& migrated(old(heap).cells@[c], final(self).target.cells@[final(self).map@[c]->Some_0 as int], final(self).map@, false)
                },
            match v {
                Value::Frozen(_) => {
                    &&& r == v
                    &&& final(heap).cells@ == old(heap).cells@
                    &&& final(self).target.cells@ == old(self).target.cells@
                },
                Value::Mutable(i) => {
                    &&& (i < old(self).map@.len() && old(self).map@[i as int] is Some) ==> {
                        &&& r == Value::Mutable(old(self).map@[i as int]->Some_0)
                        &&& final(heap).cells@ == old(heap).cells@
                        &&& final(self).target.cells@ == old(self).target.cells@
                    }
                    &&& r is Mutable && i < final(self).map@.len() && final(self).map@[i as int] == Some(r->Mutable_0)
                },
            },
    {
        match migrate(&mut self.target.cells, &mut self.map, heap, false, v) {
            Ok(r) => r,
            Err(_) => v,
        }
    }

    /// The generation built so far.
    pub fn into_heap(self) -> (r: Heap)
        requires
            self.wf(),
        ensures
            r.wf(),
            r == self.target,
    {
        self.target
    }
}

} // verus!
