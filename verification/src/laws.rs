//! Laws of the engine, stated over the document models the operations'
//! contracts use: running the same add twice leaves the documents exactly
//! as one run leaves them; an added name a member lacked becomes an
//! indirect reference there; and every operation keeps the tables to one
//! entry per name.
use vstd::prelude::*;

use crate::add::{add_indirect, rc_names, rc_val, upsert_all, upsert_one};
use crate::alist::{ghas_key, gkey_ix, gkey_val, guniq, lemma_gkey_ix};
use crate::registry::ResolvedCrate;
use crate::remove::{remove_keys, sweep_shared};
use crate::sync::sync_entries;
use crate::workspace::{DepEntry, DepVal, MemberDoc};

verus! {

/// A key is in a list iff some pair holds it.
proof fn lemma_ghas_iff<V>(m: Seq<(Seq<char>, V)>, k: Seq<char>)
    ensures
        ghas_key(m, k) <==> exists|i: int| 0 <= i < m.len() && m[i].0 == k,
{
    lemma_gkey_ix(m, k);
    if ghas_key(m, k) {
        assert(m[gkey_ix(m, k)].0 == k);
    }
}

/// Two lists with the same keys in the same places are searched alike.
proof fn lemma_gkey_ix_same_keys<V>(a: Seq<(Seq<char>, V)>, b: Seq<(Seq<char>, V)>, k: Seq<char>)
    requires
        a.len() == b.len(),
        forall|i: int| 0 <= i < a.len() ==> a[i].0 == b[i].0,
    ensures
        gkey_ix(a, k) == gkey_ix(b, k),
    decreases a.len(),
{
    if a.len() > 0 && a[0].0 != k {
        lemma_gkey_ix_same_keys(a.drop_first(), b.drop_first(), k);
    }
}

/// Appending a pair moves a search for its key to the old end, and leaves
/// every other search alone.
proof fn lemma_gkey_ix_push<V>(m: Seq<(Seq<char>, V)>, p: (Seq<char>, V), k: Seq<char>)
    ensures
        ghas_key(m, k) ==> gkey_ix(m.push(p), k) == gkey_ix(m, k),
        !ghas_key(m, k) && p.0 == k ==> gkey_ix(m.push(p), k) == m.len(),
        !ghas_key(m, k) && p.0 != k ==> gkey_ix(m.push(p), k) == m.len() + 1,
    decreases m.len(),
{
    lemma_gkey_ix(m, k);
    if m.len() == 0 {
        assert(m.push(p).drop_first() =~= Seq::<(Seq<char>, V)>::empty());
        assert(gkey_ix(Seq::<(Seq<char>, V)>::empty(), k) == 0);
        assert(m.push(p)[0] == p);
        if p.0 != k {
            assert(gkey_ix(m.push(p), k) == 1 + gkey_ix(m.push(p).drop_first(), k));
        }
    } else if m[0].0 != k {
        lemma_gkey_ix(m.drop_first(), k);
        lemma_gkey_ix_push(m.drop_first(), p, k);
        assert(m.push(p)[0] == m[0]);
        assert(m.push(p).drop_first() =~= m.drop_first().push(p));
    } else {
        assert(m.push(p)[0] == m[0]);
    }
}

/// Overwriting a key with the value it already has changes nothing.
proof fn lemma_upsert_one_identity(m: Seq<(Seq<char>, DepVal)>, name: Seq<char>, v: DepVal)
    requires
        ghas_key(m, name),
        gkey_val(m, name) == v,
    ensures
        upsert_one(m, name, v) == m,
{
    lemma_gkey_ix(m, name);
    assert(upsert_one(m, name, v) =~= m);
}

/// After an upsert, the written key holds the written value.
proof fn lemma_upsert_one_sets(m: Seq<(Seq<char>, DepVal)>, name: Seq<char>, v: DepVal)
    ensures
        ghas_key(upsert_one(m, name, v), name),
        gkey_val(upsert_one(m, name, v), name) == v,
{
    lemma_gkey_ix(m, name);
    let r = upsert_one(m, name, v);
    if gkey_ix(m, name) < m.len() {
        lemma_gkey_ix_same_keys(r, m, name);
    } else {
        lemma_gkey_ix_push(m, (name, v), name);
    }
}

/// An upsert leaves every other key's entry alone.
proof fn lemma_upsert_one_preserves(
    m: Seq<(Seq<char>, DepVal)>,
    name: Seq<char>,
    v: DepVal,
    other: Seq<char>,
)
    requires
        other != name,
    ensures
        ghas_key(upsert_one(m, name, v), other) == ghas_key(m, other),
        ghas_key(m, other) ==> gkey_val(upsert_one(m, name, v), other) == gkey_val(m, other),
{
    lemma_gkey_ix(m, name);
    lemma_gkey_ix(m, other);
    let r = upsert_one(m, name, v);
    if gkey_ix(m, name) < m.len() {
        lemma_gkey_ix_same_keys(r, m, other);
    } else {
        lemma_gkey_ix_push(m, (name, v), other);
    }
}

/// The names within one add call are pairwise distinct.
pub open spec fn distinct_names(rcs: Seq<ResolvedCrate>) -> bool {
    forall|i: int, j: int| 0 <= i < j < rcs.len() ==> rcs[i].name@ != rcs[j].name@
}

/// After writing distinct dependencies, each name holds its own value.
proof fn lemma_upsert_all_sets(m: Seq<(Seq<char>, DepVal)>, rcs: Seq<ResolvedCrate>, k: int)
    requires
        distinct_names(rcs),
        0 <= k < rcs.len(),
    ensures
        ghas_key(upsert_all(m, rcs), rcs[k].name@),
        gkey_val(upsert_all(m, rcs), rcs[k].name@) == rc_val(rcs[k]),
    decreases rcs.len(),
{
    let prev = upsert_all(m, rcs.drop_last());
    if k == rcs.len() - 1 {
        lemma_upsert_one_sets(prev, rcs.last().name@, rc_val(rcs.last()));
    } else {
        assert(rcs.drop_last()[k] == rcs[k]);
        lemma_upsert_all_sets(m, rcs.drop_last(), k);
        lemma_upsert_one_preserves(prev, rcs.last().name@, rc_val(rcs.last()), rcs[k].name@);
    }
}

/// Writing dependencies whose entries are already in place changes nothing.
proof fn lemma_upsert_all_fixed(s: Seq<(Seq<char>, DepVal)>, rcs: Seq<ResolvedCrate>)
    requires
        forall|k: int|
            0 <= k < rcs.len() ==> ghas_key(s, #[trigger] rcs[k].name@) && gkey_val(s, rcs[k].name@)
                == rc_val(rcs[k]),
    ensures
        upsert_all(s, rcs) == s,
    decreases rcs.len(),
{
    if rcs.len() > 0 {
        assert(forall|k: int| 0 <= k < rcs.len() - 1 ==> rcs.drop_last()[k] == rcs[k]);
        lemma_upsert_all_fixed(s, rcs.drop_last());
        lemma_upsert_one_identity(s, rcs.last().name@, rc_val(rcs.last()));
    }
}

/// Adding the same distinct dependencies a second time leaves the shared
/// table exactly as the first add left it: the second pass overwrites each
/// entry with the identical value.
pub proof fn lemma_add_shared_idempotent(m: Seq<(Seq<char>, DepVal)>, rcs: Seq<ResolvedCrate>)
    requires
        distinct_names(rcs),
    ensures
        upsert_all(upsert_all(m, rcs), rcs) == upsert_all(m, rcs),
{
    let s = upsert_all(m, rcs);
    assert forall|k: int| 0 <= k < rcs.len() implies ghas_key(s, #[trigger] rcs[k].name@)
        && gkey_val(s, rcs[k].name@) == rc_val(rcs[k]) by {
        lemma_upsert_all_sets(m, rcs, k);
    }
    lemma_upsert_all_fixed(s, rcs);
}

/// A key is in the table after the inserts iff it was there before or is
/// one of the inserted names.
proof fn lemma_add_indirect_has(
    d: Seq<(Seq<char>, DepEntry)>,
    names: Seq<Seq<char>>,
    nm: Seq<char>,
)
    ensures
        ghas_key(add_indirect(d, names), nm) == (ghas_key(d, nm) || names.contains(nm)),
    decreases names.len(),
{
    if names.len() > 0 {
        lemma_add_indirect_has(d, names.drop_last(), nm);
        let p = add_indirect(d, names.drop_last());
        lemma_gkey_ix(p, names.last());
        if !ghas_key(p, names.last()) {
            lemma_gkey_ix_push(p, (names.last(), DepEntry::Indirect), nm);
        }
        assert(names.contains(nm) == (names.drop_last().contains(nm) || names.last() == nm)) by {
            if names.contains(nm) {
                let w = choose|w: int| 0 <= w < names.len() && names[w] == nm;
                if w < names.len() - 1 {
                    assert(names.drop_last()[w] == nm);
                }
            }
            if names.drop_last().contains(nm) {
                let w = choose|w: int| 0 <= w < names.drop_last().len() && names.drop_last()[w]
                    == nm;
                assert(names[w] == nm);
            }
        }
    }
}

/// Inserting names a member already lists changes nothing.
proof fn lemma_add_indirect_fixed(d: Seq<(Seq<char>, DepEntry)>, names: Seq<Seq<char>>)
    requires
        forall|k: int| 0 <= k < names.len() ==> ghas_key(d, #[trigger] names[k]),
    ensures
        add_indirect(d, names) == d,
    decreases names.len(),
{
    if names.len() > 0 {
        assert(forall|k: int| 0 <= k < names.len() - 1 ==> names.drop_last()[k] == names[k]);
        lemma_add_indirect_fixed(d, names.drop_last());
        assert(ghas_key(d, names.last()));
    }
}

/// Running the same add a second time adds no member reference: every
/// resolved name is already present after the first run, so the second
/// run's presence check skips them all.
pub proof fn lemma_add_indirect_idempotent(
    d: Seq<(Seq<char>, DepEntry)>,
    names: Seq<Seq<char>>,
)
    ensures
        add_indirect(add_indirect(d, names), names) == add_indirect(d, names),
{
    let s = add_indirect(d, names);
    assert forall|k: int| 0 <= k < names.len() implies ghas_key(s, #[trigger] names[k]) by {
        lemma_add_indirect_has(d, names, names[k]);
    }
    lemma_add_indirect_fixed(s, names);
}

/// A name a member did not list before an add is listed afterwards, as an
/// indirect reference into the shared table — so a listing taken after the
/// add reports that member as a user of the name.
pub proof fn lemma_added_name_indirect(
    d: Seq<(Seq<char>, DepEntry)>,
    names: Seq<Seq<char>>,
    nm: Seq<char>,
)
    requires
        names.contains(nm),
        !ghas_key(d, nm),
    ensures
        ghas_key(add_indirect(d, names), nm),
        gkey_val(add_indirect(d, names), nm) == DepEntry::Indirect,
    decreases names.len(),
{
    let p = add_indirect(d, names.drop_last());
    lemma_gkey_ix(p, names.last());
    let w = choose|w: int| 0 <= w < names.len() && names[w] == nm;
    if w < names.len() - 1 {
        assert(names.drop_last()[w] == nm);
        lemma_added_name_indirect(d, names.drop_last(), nm);
        if !ghas_key(p, names.last()) {
            lemma_gkey_ix_push(p, (names.last(), DepEntry::Indirect), nm);
            lemma_gkey_ix(p, nm);
            assert(p.push((names.last(), DepEntry::Indirect))[gkey_ix(p, nm)] == p[gkey_ix(
                p,
                nm,
            )]);
        }
    } else {
        assert(names.last() == nm);
        lemma_add_indirect_has(d, names.drop_last(), nm);
        if ghas_key(p, nm) {
            if names.drop_last().contains(nm) {
                lemma_added_name_indirect(d, names.drop_last(), nm);
            }
        } else {
            lemma_gkey_ix_push(p, (nm, DepEntry::Indirect), nm);
        }
    }
}

/// An upsert never makes a second entry for a name.
proof fn lemma_upsert_one_uniq(m: Seq<(Seq<char>, DepVal)>, name: Seq<char>, v: DepVal)
    requires
        guniq(m),
    ensures
        guniq(upsert_one(m, name, v)),
{
    lemma_gkey_ix(m, name);
    let r = upsert_one(m, name, v);
    if gkey_ix(m, name) < m.len() {
        assert forall|i: int, j: int| 0 <= i < j < r.len() implies r[i].0 != r[j].0 by {
            assert(r[i].0 == m[i].0 && r[j].0 == m[j].0);
        }
    } else {
        assert forall|i: int, j: int| 0 <= i < j < r.len() implies r[i].0 != r[j].0 by {
            if j == m.len() {
                assert(m[i].0 != name);
            }
        }
    }
}

/// The shared table keeps one entry per name through an add: the
/// single-place invariant is preserved.
pub proof fn lemma_upsert_all_uniq(m: Seq<(Seq<char>, DepVal)>, rcs: Seq<ResolvedCrate>)
    requires
        guniq(m),
    ensures
        guniq(upsert_all(m, rcs)),
    decreases rcs.len(),
{
    if rcs.len() > 0 {
        lemma_upsert_all_uniq(m, rcs.drop_last());
        lemma_upsert_one_uniq(upsert_all(m, rcs.drop_last()), rcs.last().name@, rc_val(
            rcs.last(),
        ));
    }
}

/// A member's table keeps one entry per name through an add.
pub proof fn lemma_add_indirect_uniq(d: Seq<(Seq<char>, DepEntry)>, names: Seq<Seq<char>>)
    requires
        guniq(d),
    ensures
        guniq(add_indirect(d, names)),
    decreases names.len(),
{
    if names.len() > 0 {
        lemma_add_indirect_uniq(d, names.drop_last());
        let p = add_indirect(d, names.drop_last());
        if !ghas_key(p, names.last()) {
            lemma_ghas_iff(p, names.last());
            let r = p.push((names.last(), DepEntry::Indirect));
            assert forall|i: int, j: int| 0 <= i < j < r.len() implies r[i].0 != r[j].0 by {
                if j == p.len() {
                    assert(p[i].0 != names.last());
                }
            }
        }
    }
}

/// A name left by the removal phase was there before it.
proof fn lemma_remove_keys_sub(d: Seq<(Seq<char>, DepEntry)>, names: Seq<Seq<char>>, k: Seq<char>)
    ensures
        ghas_key(remove_keys(d, names), k) ==> ghas_key(d, k),
    decreases d.len(),
{
    lemma_ghas_iff(remove_keys(d, names), k);
    lemma_ghas_iff(d, k);
    if d.len() > 0 {
        lemma_remove_keys_sub(d.drop_last(), names, k);
        lemma_ghas_iff(remove_keys(d.drop_last(), names), k);
        lemma_ghas_iff(d.drop_last(), k);
        let p = remove_keys(d.drop_last(), names);
        if ghas_key(remove_keys(d, names), k) {
            let w = choose|w: int|
                0 <= w < remove_keys(d, names).len() && remove_keys(d, names)[w].0 == k;
            if !names.contains(d.last().0) && w == p.len() {
                assert(d.last().0 == k);
            } else {
                assert(p[w].0 == k);
            }
            if ghas_key(d.drop_last(), k) {
                let x = choose|x: int| 0 <= x < d.drop_last().len() && d.drop_last()[x].0 == k;
                assert(d[x].0 == k);
            }
        }
    }
}

/// A member's table keeps one entry per name through a removal.
pub proof fn lemma_remove_keys_uniq(d: Seq<(Seq<char>, DepEntry)>, names: Seq<Seq<char>>)
    requires
        guniq(d),
    ensures
        guniq(remove_keys(d, names)),
    decreases d.len(),
{
    if d.len() > 0 {
        assert(forall|i: int| 0 <= i < d.len() - 1 ==> d.drop_last()[i] == d[i]);
        lemma_remove_keys_uniq(d.drop_last(), names);
        let p = remove_keys(d.drop_last(), names);
        if !names.contains(d.last().0) {
            lemma_remove_keys_sub(d.drop_last(), names, d.last().0);
            lemma_ghas_iff(p, d.last().0);
            lemma_ghas_iff(d.drop_last(), d.last().0);
            let r = p.push(d.last());
            assert forall|i: int, j: int| 0 <= i < j < r.len() implies r[i].0 != r[j].0 by {
                if j == p.len() {
                    assert(!ghas_key(p, d.last().0));
                }
            }
        }
    }
}

/// A kept shared entry keeps its one place through the sweep.
proof fn lemma_sweep_sub(
    m: Seq<(Seq<char>, DepVal)>,
    docs: Seq<MemberDoc>,
    members: Seq<Seq<char>>,
    ts: Seq<Seq<char>>,
    names: Seq<Seq<char>>,
    k: Seq<char>,
)
    ensures
        ghas_key(sweep_shared(m, docs, members, ts, names), k) ==> ghas_key(m, k),
    decreases m.len(),
{
    let r = sweep_shared(m, docs, members, ts, names);
    lemma_ghas_iff(r, k);
    lemma_ghas_iff(m, k);
    if m.len() > 0 {
        lemma_sweep_sub(m.drop_last(), docs, members, ts, names, k);
        let p = sweep_shared(m.drop_last(), docs, members, ts, names);
        lemma_ghas_iff(p, k);
        lemma_ghas_iff(m.drop_last(), k);
        if ghas_key(r, k) {
            let w = choose|w: int| 0 <= w < r.len() && r[w].0 == k;
            if w < p.len() {
                assert(p[w].0 == k);
            } else {
                assert(m.last().0 == k);
            }
            if ghas_key(m.drop_last(), k) {
                let x = choose|x: int| 0 <= x < m.drop_last().len() && m.drop_last()[x].0 == k;
                assert(m[x].0 == k);
            }
        }
    }
}

/// The shared table keeps one entry per name through a removal's sweep.
pub proof fn lemma_sweep_uniq(
    m: Seq<(Seq<char>, DepVal)>,
    docs: Seq<MemberDoc>,
    members: Seq<Seq<char>>,
    ts: Seq<Seq<char>>,
    names: Seq<Seq<char>>,
)
    requires
        guniq(m),
    ensures
        guniq(sweep_shared(m, docs, members, ts, names)),
    decreases m.len(),
{
    if m.len() > 0 {
        assert(forall|i: int| 0 <= i < m.len() - 1 ==> m.drop_last()[i] == m[i]);
        lemma_sweep_uniq(m.drop_last(), docs, members, ts, names);
        let p = sweep_shared(m.drop_last(), docs, members, ts, names);
        if !(names.contains(m.last().0) && !crate::remove::still_used(
            docs,
            members,
            ts,
            names,
            m.last().0,
        )) {
            lemma_sweep_sub(m.drop_last(), docs, members, ts, names, m.last().0);
            lemma_ghas_iff(p, m.last().0);
            lemma_ghas_iff(m.drop_last(), m.last().0);
            let r = p.push(m.last());
            assert forall|i: int, j: int| 0 <= i < j < r.len() implies r[i].0 != r[j].0 by {
                if j == p.len() {
                    assert(!ghas_key(p, m.last().0));
                }
            }
        }
    }
}

/// A sync changes no key, so a member's table keeps one entry per name.
pub proof fn lemma_sync_uniq(
    d: Seq<(Seq<char>, DepEntry)>,
    shared: Seq<(Seq<char>, DepVal)>,
)
    requires
        guniq(d),
    ensures
        guniq(sync_entries(d, shared)),
{
    assert forall|i: int, j: int| 0 <= i < j < sync_entries(d, shared).len() implies sync_entries(
        d,
        shared,
    )[i].0 != sync_entries(d, shared)[j].0 by {
        assert(sync_entries(d, shared)[i].0 == d[i].0);
        assert(sync_entries(d, shared)[j].0 == d[j].0);
    }
}

} // verus!
