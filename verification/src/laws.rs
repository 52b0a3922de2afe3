use vstd::prelude::*;
use crate::cache::apply_op;
use crate::cache::set_or_empty;
use crate::cache::spec_algebra;
use crate::cache::spec_algebra_step;
use crate::cache::spec_obj_get;
use crate::cache::spec_obj_insert;
use crate::cache::spec_set_add;
use crate::cache::spec_set_move;
use crate::cache::spec_set_rem;
use crate::cache::strs_set;
use crate::cache::SetOp;
use crate::cache::entry_live;
use crate::errors::CacheError;
use crate::expiration::Expiration;
use crate::keys::spec_gen_key;
use crate::object::EntryModel;
use crate::object::ObjModel;

verus! {

/// Round trip: inserting an object and reading it back under its own type
/// identity and the same caller key, at any time at which its expiration has
/// not elapsed, returns exactly the stored object and leaves the store as
/// the insertion left it.
pub proof fn law_insert_get_round_trip(
    m: Map<Seq<char>, EntryModel>,
    key: Seq<char>,
    obj: ObjModel,
    exp: Option<Expiration>,
    now: u64,
)
    requires
        entry_live((EntryModel { obj: obj, exp: exp }), now),
    ensures
        ({
            let m2 = spec_obj_insert(m, key, obj, exp);
            spec_obj_get(m2, obj.model_name, key, now) == (
                Ok::<Option<ObjModel>, CacheError>(Some(obj)),
                m2,
            )
        }),
{
}

/// Expiry with the documented presence quirk: after inserting with a
/// time-to-live that has elapsed by `now`, a read at `now` returns `None`
/// and removes the entry, while raw presence — what `contains_key` reports —
/// still held before that read.
pub proof fn law_ttl_expiry(
    m: Map<Seq<char>, EntryModel>,
    key: Seq<char>,
    obj: ObjModel,
    ttl_secs: u64,
    t0: u64,
    now: u64,
)
    requires
        now - t0 >= ttl_secs,
    ensures
        ({
            let exp = Some(Expiration { insertion_time: t0, ttl_secs });
            let m2 = spec_obj_insert(m, key, obj, exp);
            let nskey = spec_gen_key(obj.model_name, key);
            &&& m2.dom().contains(nskey)
            &&& spec_obj_get(m2, obj.model_name, key, now) == (
                Ok::<Option<ObjModel>, CacheError>(None),
                m2.remove(nskey),
            )
            &&& !m2.remove(nskey).dom().contains(nskey)
        }),
{
}

/// With both containers present, the n-ary algebra over a two-key list is
/// exactly the binary set operation, in list order.
pub proof fn law_algebra_pair(op: SetOp, m: Map<Seq<char>, Set<Seq<char>>>, a: Seq<char>, b: Seq<char>)
    requires
        m.dom().contains(a),
        m.dom().contains(b),
    ensures
        spec_algebra(op, m, seq![a, b]) == apply_op(op, m[a], m[b]),
{
    let ks = seq![a, b];
    assert(ks.drop_first() =~= seq![b]);
    assert(seq![b].drop_first() =~= Seq::<Seq<char>>::empty());
    assert(spec_algebra_step(op, m, ks, None) == spec_algebra_step(
        op,
        m,
        seq![b],
        Some(m[a]),
    ));
    assert(spec_algebra_step(op, m, seq![b], Some(m[a])) == spec_algebra_step(
        op,
        m,
        Seq::<Seq<char>>::empty(),
        Some(apply_op(op, m[a], m[b])),
    ));
}

/// Adding members depends only on the set they name, never on the order or
/// multiplicity in which a caller lists them.
pub proof fn law_set_add_order_independent(
    m: Map<Seq<char>, Set<Seq<char>>>,
    k: Seq<char>,
    ms1: Seq<&str>,
    ms2: Seq<&str>,
)
    requires
        strs_set(ms1) == strs_set(ms2),
    ensures
        spec_set_add(m, k, strs_set(ms1)) == spec_set_add(m, k, strs_set(ms2)),
{
}

/// An add and a remove on the same key commute whenever the removed member
/// is not among the added ones: the sequential core of the no-lost-update
/// guarantee for concurrent writers with disjoint member sets.
pub proof fn law_add_remove_commute(
    m: Map<Seq<char>, Set<Seq<char>>>,
    k: Seq<char>,
    xs: Set<Seq<char>>,
    y: Seq<char>,
)
    requires
        !xs.contains(y),
    ensures
        spec_set_rem(spec_set_add(m, k, xs), k, y) == spec_set_add(spec_set_rem(m, k, y), k, xs),
{
    if m.dom().contains(k) {
        assert(m[k].union(xs).remove(y) =~= m[k].remove(y).union(xs));
        assert(spec_set_rem(spec_set_add(m, k, xs), k, y) =~= spec_set_add(
            spec_set_rem(m, k, y),
            k,
            xs,
        ));
    } else {
        assert(Set::<Seq<char>>::empty().union(xs).remove(y) =~= Set::<Seq<char>>::empty().union(
            xs,
        ));
        assert(spec_set_rem(spec_set_add(m, k, xs), k, y) =~= spec_set_add(
            spec_set_rem(m, k, y),
            k,
            xs,
        ));
    }
}

/// Move semantics: with distinct source and destination keys, a move
/// succeeds exactly when the source holds the member and the destination
/// container exists; on success the member has left the source and is in
/// the destination, and on a missing destination nothing at all changes.
pub proof fn law_move_semantics(
    m: Map<Seq<char>, Set<Seq<char>>>,
    src: Seq<char>,
    dst: Seq<char>,
    x: Seq<char>,
)
    requires
        src != dst,
    ensures
        ({
            let r = spec_set_move(m, src, dst, x);
            &&& r.0 == (m.dom().contains(src) && m[src].contains(x) && m.dom().contains(dst))
            &&& !m.dom().contains(dst) ==> !r.0 && r.1 == m
            &&& r.0 ==> !r.1[src].contains(x) && r.1[dst].contains(x) && r.1[src] == m[src].remove(
                x,
            ) && r.1[dst] == m[dst].insert(x)
        }),
{
}

/// Adds on distinct members accumulate: after adding two member sets in
/// either order, the container holds their union.
pub proof fn law_add_add_accumulate(
    m: Map<Seq<char>, Set<Seq<char>>>,
    k: Seq<char>,
    xs: Set<Seq<char>>,
    ys: Set<Seq<char>>,
)
    ensures
        spec_set_add(spec_set_add(m, k, xs), k, ys) == spec_set_add(m, k, xs.union(ys)),
        spec_set_add(spec_set_add(m, k, xs), k, ys) == spec_set_add(spec_set_add(m, k, ys), k, xs),
{
    assert(set_or_empty(m, k).union(xs).union(ys) =~= set_or_empty(m, k).union(xs.union(ys)));
    assert(set_or_empty(m, k).union(xs).union(ys) =~= set_or_empty(m, k).union(ys).union(xs));
    assert(spec_set_add(spec_set_add(m, k, xs), k, ys) =~= spec_set_add(m, k, xs.union(ys)));
    assert(spec_set_add(spec_set_add(m, k, xs), k, ys) =~= spec_set_add(
        spec_set_add(m, k, ys),
        k,
        xs,
    ));
}

} // verus!
