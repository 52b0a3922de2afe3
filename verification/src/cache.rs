use vstd::prelude::*;
use vstd::hash_map::StringHashMap;
use crate::clock;
use crate::errors::CacheError;
use crate::expiration::spec_expired;
use crate::expiration::Expiration;
use crate::field_table::FieldTable;
use crate::keys::gen_key;
use crate::keys::spec_gen_key;
use crate::member_set::str_seq_set;
use crate::member_set::views_distinct;
use crate::member_set::MemberSet;
use crate::object::CacheObject;
use crate::object::EntryModel;
use crate::object::ObjModel;
use crate::object::StoredEntry;
use crate::strutil::str_eq;

verus! {

/// The three n-ary set-algebra operations.
#[derive(Clone, Copy, Debug, PartialEq, Eq, Structural)]
pub enum SetOp {
    Difference,
    Intersection,
    Union,
}

// ---------------------------------------------------------------------
// Abstract semantics of the operations, over plain maps and sets.
// ---------------------------------------------------------------------

/// Stamps an optional time-to-live at an explicit insertion time.
pub open spec fn spec_ttl_exp(ttl: Option<usize>, now: u64) -> Option<Expiration> {
    match ttl {
        None => None,
        Some(t) => Some(Expiration { insertion_time: now, ttl_secs: t as u64 }),
    }
}

/// Inserting an object: an unconditional overwrite under its namespaced key.
pub open spec fn spec_obj_insert(
    m: Map<Seq<char>, EntryModel>,
    key: Seq<char>,
    obj: ObjModel,
    exp: Option<Expiration>,
) -> Map<Seq<char>, EntryModel> {
    m.insert(spec_gen_key(obj.model_name, key), EntryModel { obj: obj, exp: exp })
}

/// An entry is live when it has no expiration or its expiration has not
/// elapsed.
pub open spec fn entry_live(e: EntryModel, now: u64) -> bool {
    match e.exp {
        None => true,
        Some(x) => !spec_expired(x, now),
    }
}

/// Reading an object at time `now`: the returned value and the store left
/// behind. An absent entry reads as `None`; an expired entry reads as `None`
/// and is removed; a live entry whose type identity differs from the request
/// fails loudly; otherwise the object is returned and the store is
/// unchanged.
pub open spec fn spec_obj_get(
    m: Map<Seq<char>, EntryModel>,
    model_name: Seq<char>,
    key: Seq<char>,
    now: u64,
) -> (Result<Option<ObjModel>, CacheError>, Map<Seq<char>, EntryModel>) {
    let nskey = spec_gen_key(model_name, key);
    if !m.dom().contains(nskey) {
        (Ok(None), m)
    } else {
        let e = m[nskey];
        if !entry_live(e, now) {
            (Ok(None), m.remove(nskey))
        } else if e.obj.model_name != model_name {
            (Err(CacheError::TypeMismatch), m)
        } else {
            (Ok(Some(e.obj)), m)
        }
    }
}

/// The mathematical value of an executable object-read result.
pub open spec fn obj_result_model(r: Result<Option<CacheObject>, CacheError>) -> Result<
    Option<ObjModel>,
    CacheError,
> {
    match r {
        Ok(None) => Ok(None),
        Ok(Some(o)) => Ok(Some(o@)),
        Err(e) => Err(e),
    }
}

/// The field-value container stored under a key, or the empty container.
pub open spec fn container_or_empty(
    h: Map<Seq<char>, Map<Seq<char>, Seq<char>>>,
    k: Seq<char>,
) -> Map<Seq<char>, Seq<char>> {
    if h.dom().contains(k) {
        h[k]
    } else {
        Map::empty()
    }
}

/// Writing one field auto-creates the container, then binds the field.
pub open spec fn spec_hash_set(
    h: Map<Seq<char>, Map<Seq<char>, Seq<char>>>,
    k: Seq<char>,
    f: Seq<char>,
    v: Seq<char>,
) -> Map<Seq<char>, Map<Seq<char>, Seq<char>>> {
    h.insert(k, container_or_empty(h, k).insert(f, v))
}

/// Binding a sequence of field-value pairs, left to right.
pub open spec fn spec_set_pairs(
    c: Map<Seq<char>, Seq<char>>,
    pairs: Seq<(Seq<char>, Seq<char>)>,
) -> Map<Seq<char>, Seq<char>>
    decreases pairs.len(),
{
    if pairs.len() == 0 {
        c
    } else {
        spec_set_pairs(c.insert(pairs[0].0, pairs[0].1), pairs.drop_first())
    }
}

/// Removing a sequence of fields, left to right.
pub open spec fn spec_remove_fields(
    c: Map<Seq<char>, Seq<char>>,
    fields: Seq<Seq<char>>,
) -> Map<Seq<char>, Seq<char>>
    decreases fields.len(),
{
    if fields.len() == 0 {
        c
    } else {
        spec_remove_fields(c.remove(fields[0]), fields.drop_first())
    }
}

/// The views of a sequence of string slices.
pub open spec fn strs_views(xs: Seq<&str>) -> Seq<Seq<char>> {
    xs.map_values(|s: &str| s@)
}

/// The views of a sequence of field-value pairs.
pub open spec fn pairs_views(ps: Seq<(String, String)>) -> Seq<(Seq<char>, Seq<char>)> {
    ps.map_values(|p: (String, String)| (p.0@, p.1@))
}

/// The set named by a sequence of string slices.
pub open spec fn strs_set(ms: Seq<&str>) -> Set<Seq<char>> {
    Set::new(|x: Seq<char>| exists|i: int| 0 <= i < ms.len() && ms[i]@ == x)
}

/// The member set stored under a key, or the empty set.
pub open spec fn set_or_empty(m: Map<Seq<char>, Set<Seq<char>>>, k: Seq<char>) -> Set<Seq<char>> {
    if m.dom().contains(k) {
        m[k]
    } else {
        Set::empty()
    }
}

/// Adding members auto-creates the container and unions the members in.
pub open spec fn spec_set_add(
    m: Map<Seq<char>, Set<Seq<char>>>,
    k: Seq<char>,
    xs: Set<Seq<char>>,
) -> Map<Seq<char>, Set<Seq<char>>> {
    m.insert(k, set_or_empty(m, k).union(xs))
}

/// Removing one member; an absent container is left untouched.
pub open spec fn spec_set_rem(
    m: Map<Seq<char>, Set<Seq<char>>>,
    k: Seq<char>,
    x: Seq<char>,
) -> Map<Seq<char>, Set<Seq<char>>> {
    if m.dom().contains(k) {
        m.insert(k, m[k].remove(x))
    } else {
        m
    }
}

/// Moving a member: only when the source holds the member and the
/// destination container exists is the member inserted into the destination
/// and then removed from the source; otherwise nothing changes.
pub open spec fn spec_set_move(
    m: Map<Seq<char>, Set<Seq<char>>>,
    src: Seq<char>,
    dst: Seq<char>,
    x: Seq<char>,
) -> (bool, Map<Seq<char>, Set<Seq<char>>>) {
    if m.dom().contains(src) && m[src].contains(x) && m.dom().contains(dst) {
        let m1 = m.insert(dst, m[dst].insert(x));
        let m2 = m1.insert(src, m1[src].remove(x));
        (true, m2)
    } else {
        (false, m)
    }
}

/// One binary step of the algebra.
pub open spec fn apply_op(op: SetOp, a: Set<Seq<char>>, b: Set<Seq<char>>) -> Set<Seq<char>> {
    match op {
        SetOp::Difference => a.difference(b),
        SetOp::Intersection => a.intersect(b),
        SetOp::Union => a.union(b),
    }
}

/// Folds the algebra over the listed keys, left to right. A key with no
/// existing container is skipped — it is not an empty set. The accumulator
/// is seeded by the first existing container.
pub open spec fn spec_algebra_step(
    op: SetOp,
    m: Map<Seq<char>, Set<Seq<char>>>,
    keys: Seq<Seq<char>>,
    acc: Option<Set<Seq<char>>>,
) -> Option<Set<Seq<char>>>
    decreases keys.len(),
{
    if keys.len() == 0 {
        acc
    } else {
        let acc2 = if m.dom().contains(keys[0]) {
            match acc {
                None => Some(m[keys[0]]),
                Some(a) => Some(apply_op(op, a, m[keys[0]])),
            }
        } else {
            acc
        };
        spec_algebra_step(op, m, keys.drop_first(), acc2)
    }
}

/// The n-ary algebra result: the fold above, or the empty set when no
/// listed key resolves to an existing container.
pub open spec fn spec_algebra(
    op: SetOp,
    m: Map<Seq<char>, Set<Seq<char>>>,
    keys: Seq<Seq<char>>,
) -> Set<Seq<char>> {
    match spec_algebra_step(op, m, keys, None) {
        None => Set::empty(),
        Some(s) => s,
    }
}

/// The abstract value of the running algebra accumulator.
spec fn acc_model(a: Option<MemberSet>) -> Option<Set<Seq<char>>> {
    match a {
        None => None,
        Some(s) => Some(s@),
    }
}

/// Extending a prefix of a slice-view sequence by one element adds exactly
/// its view to the named set.
proof fn lemma_strs_set_extend(s: Seq<&str>, i: int)
    requires
        0 <= i < s.len(),
    ensures
        strs_set(s.subrange(0, i + 1)) == strs_set(s.subrange(0, i)).insert(s[i]@),
{
    let a = s.subrange(0, i);
    let b = s.subrange(0, i + 1);
    assert(strs_set(b) =~= strs_set(a).insert(s[i]@)) by {
        assert forall|y: Seq<char>| strs_set(b).contains(y) implies strs_set(a).insert(
            s[i]@,
        ).contains(y) by {
            let j = choose|j: int| 0 <= j < b.len() && b[j]@ == y;
            if j < i {
                assert(a[j]@ == y);
                assert(strs_set(a).contains(y));
            } else {
                assert(b[j]@ == s[i]@);
            }
        };
        assert forall|y: Seq<char>| strs_set(a).insert(s[i]@).contains(y) implies strs_set(
            b,
        ).contains(y) by {
            if y == s[i]@ {
                assert(b[i]@ == y);
            } else {
                let j = choose|j: int| 0 <= j < a.len() && a[j]@ == y;
                assert(b[j]@ == y);
            }
        };
    };
}

// ---------------------------------------------------------------------
// The engine.
// ---------------------------------------------------------------------

/// The in-memory cache engine: a typed object store with lazy expiration,
/// a store of field-value containers, and a store of unique-member sets
/// with n-ary set algebra. Containers are created lazily on first write and
/// never destroyed by the engine.
pub struct MemoryCache {
    objects: StringHashMap<StoredEntry>,
    hashes: StringHashMap<FieldTable>,
    sets: StringHashMap<MemberSet>,
}

impl MemoryCache {
    /// The abstract value of the typed object store.
    pub closed spec fn objects_model(self) -> Map<Seq<char>, EntryModel> {
        Map::new(
            |k: Seq<char>| self.objects@.dom().contains(k),
            |k: Seq<char>| self.objects@[k]@,
        )
    }

    /// The abstract value of the field-value container store.
    pub closed spec fn hashes_model(self) -> Map<Seq<char>, Map<Seq<char>, Seq<char>>> {
        Map::new(|k: Seq<char>| self.hashes@.dom().contains(k), |k: Seq<char>| self.hashes@[k]@)
    }

    /// The abstract value of the set container store.
    pub closed spec fn sets_model(self) -> Map<Seq<char>, Set<Seq<char>>> {
        Map::new(|k: Seq<char>| self.sets@.dom().contains(k), |k: Seq<char>| self.sets@[k]@)
    }

    /// Creates an empty cache.
    pub fn new() -> (r: MemoryCache)
        ensures
            r.objects_model() == Map::<Seq<char>, EntryModel>::empty(),
            r.hashes_model() == Map::<Seq<char>, Map<Seq<char>, Seq<char>>>::empty(),
            r.sets_model() == Map::<Seq<char>, Set<Seq<char>>>::empty(),
    {
        let r = MemoryCache {
            objects: StringHashMap::new(),
            hashes: StringHashMap::new(),
            sets: StringHashMap::new(),
        };
        proof {
            assert(r.objects_model() =~= Map::<Seq<char>, EntryModel>::empty());
            assert(r.hashes_model() =~= Map::<Seq<char>, Map<Seq<char>, Seq<char>>>::empty());
            assert(r.sets_model() =~= Map::<Seq<char>, Set<Seq<char>>>::empty());
        }
        r
    }

    // -----------------------------------------------------------------
    // Typed object store.
    // -----------------------------------------------------------------

    /// Stores an object under its own declared default time-to-live,
    /// stamped with the engine clock; an unconditional overwrite.
    pub fn insert(&mut self, key: &str, obj: CacheObject) -> (r: Result<(), CacheError>)
        ensures
            r == Ok::<(), CacheError>(()),
            exists|now: u64|
                final(self).objects_model() == spec_obj_insert(
                    old(self).objects_model(),
                    key@,
                    obj@,
                    spec_ttl_exp(obj.default_ttl, now),
                ),
            final(self).hashes_model() == old(self).hashes_model(),
            final(self).sets_model() == old(self).sets_model(),
    {
        let ttl = obj.default_ttl;
        self.insert_with(key, obj, ttl)
    }

    /// Stores an object with an explicit time-to-live, stamped with the
    /// engine clock; `None` means no expiration.
    pub fn insert_with(&mut self, key: &str, obj: CacheObject, expires_after: Option<usize>) -> (r:
        Result<(), CacheError>)
        ensures
            r == Ok::<(), CacheError>(()),
            exists|now: u64|
                final(self).objects_model() == spec_obj_insert(
                    old(self).objects_model(),
                    key@,
                    obj@,
                    spec_ttl_exp(expires_after, now),
                ),
            final(self).hashes_model() == old(self).hashes_model(),
            final(self).sets_model() == old(self).sets_model(),
    {
        let now = clock::now_seconds();
        let r = self.insert_with_at(key, obj, expires_after, now);
        proof {
            assert(final(self).objects_model() == spec_obj_insert(
                old(self).objects_model(),
                key@,
                obj@,
                spec_ttl_exp(expires_after, now),
            ));
        }
        r
    }

    /// Stores an object with an explicit time-to-live at an explicit
    /// insertion time.
    pub fn insert_with_at(
        &mut self,
        key: &str,
        obj: CacheObject,
        expires_after: Option<usize>,
        now: u64,
    ) -> (r: Result<(), CacheError>)
        ensures
            r == Ok::<(), CacheError>(()),
            final(self).objects_model() == spec_obj_insert(
                old(self).objects_model(),
                key@,
                obj@,
                spec_ttl_exp(expires_after, now),
            ),
            final(self).hashes_model() == old(self).hashes_model(),
            final(self).sets_model() == old(self).sets_model(),
    {
        let ghost m0 = self.objects_model();
        let exp = match expires_after {
            Some(t) => Some(Expiration::new_at(now, t as u64)),
            None => None,
        };
        let nskey = gen_key(obj.model_name.as_str(), key);
        let ghost obj_model = obj@;
        let entry = StoredEntry { obj, exp };
        self.objects.insert(nskey, entry);
        proof {
            assert(self.objects_model() =~= spec_obj_insert(
                m0,
                key@,
                obj_model,
                spec_ttl_exp(expires_after, now),
            ));
        }
        Ok(())
    }

    /// Reads an object at the engine clock. The exact behaviour for every
    /// clock value is that of `get_at`.
    pub fn get(&mut self, model_name: &str, key: &str) -> (r: Result<
        Option<CacheObject>,
        CacheError,
    >)
        ensures
            exists|now: u64|
                {
                    &&& obj_result_model(r) == spec_obj_get(
                        old(self).objects_model(),
                        model_name@,
                        key@,
                        now,
                    ).0
                    &&& final(self).objects_model() == spec_obj_get(
                        old(self).objects_model(),
                        model_name@,
                        key@,
                        now,
                    ).1
                },
            final(self).hashes_model() == old(self).hashes_model(),
            final(self).sets_model() == old(self).sets_model(),
    {
        let now = clock::now_seconds();
        let r = self.get_at(model_name, key, now);
        proof {
            assert(obj_result_model(r) == spec_obj_get(
                old(self).objects_model(),
                model_name@,
                key@,
                now,
            ).0);
        }
        r
    }

    /// Reads an object at an explicit time. An absent entry yields
    /// `Ok(None)`. An entry whose expiration has elapsed yields `Ok(None)`
    /// and is removed — lazily, on this access. A live entry is returned
    /// only after its stored type identity is confirmed; a mismatch is a
    /// loud `TypeMismatch` error, never a silent `None`.
    pub fn get_at(&mut self, model_name: &str, key: &str, now: u64) -> (r: Result<
        Option<CacheObject>,
        CacheError,
    >)
        ensures
            obj_result_model(r) == spec_obj_get(
                old(self).objects_model(),
                model_name@,
                key@,
                now,
            ).0,
            final(self).objects_model() == spec_obj_get(
                old(self).objects_model(),
                model_name@,
                key@,
                now,
            ).1,
            final(self).hashes_model() == old(self).hashes_model(),
            final(self).sets_model() == old(self).sets_model(),
    {
        let ghost m0 = self.objects_model();
        let nskey = gen_key(model_name, key);
        let mut delete_entry = false;
        let mut result: Result<Option<CacheObject>, CacheError> = Ok(None);
        match self.objects.get(nskey.as_str()) {
            None => {},
            Some(entry) => {
                let expired = match entry.exp {
                    Some(e) => e.is_expired_at(now),
                    None => false,
                };
                if expired {
                    delete_entry = true;
                } else if !str_eq(entry.obj.model_name.as_str(), model_name) {
                    result = Err(CacheError::TypeMismatch);
                } else {
                    result = Ok(Some(entry.obj.duplicate()));
                }
            },
        }
        if delete_entry {
            self.objects.remove(nskey.as_str());
            proof {
                assert(self.objects_model() =~= m0.remove(nskey@));
            }
        }
        result
    }

    /// Reports raw presence of the namespaced key, deliberately without
    /// checking expiration: an expired but not yet accessed entry is still
    /// reported present. Callers that need liveness must use `get`.
    pub fn contains_key(&self, model_name: &str, key: &str) -> (r: Result<bool, CacheError>)
        ensures
            r == Ok::<bool, CacheError>(
                self.objects_model().dom().contains(spec_gen_key(model_name@, key@)),
            ),
    {
        let nskey = gen_key(model_name, key);
        Ok(self.objects.contains_key(nskey.as_str()))
    }

    /// Removes an object unconditionally; no error if absent.
    pub fn remove(&mut self, model_name: &str, key: &str) -> (r: Result<(), CacheError>)
        ensures
            r == Ok::<(), CacheError>(()),
            final(self).objects_model() == old(self).objects_model().remove(
                spec_gen_key(model_name@, key@),
            ),
            final(self).hashes_model() == old(self).hashes_model(),
            final(self).sets_model() == old(self).sets_model(),
    {
        let ghost m0 = self.objects_model();
        let nskey = gen_key(model_name, key);
        self.objects.remove(nskey.as_str());
        proof {
            assert(self.objects_model() =~= m0.remove(nskey@));
        }
        Ok(())
    }

    // -----------------------------------------------------------------
    // Field-value container store.
    // -----------------------------------------------------------------

    /// Idempotent container creation: a no-op if the container exists.
    pub fn ensure_hash_exists(&mut self, key: &str) -> (r: Result<(), CacheError>)
        ensures
            r == Ok::<(), CacheError>(()),
            final(self).hashes_model() == (if old(self).hashes_model().dom().contains(key@) {
                old(self).hashes_model()
            } else {
                old(self).hashes_model().insert(key@, Map::<Seq<char>, Seq<char>>::empty())
            }),
            final(self).objects_model() == old(self).objects_model(),
            final(self).sets_model() == old(self).sets_model(),
    {
        let ghost h0 = self.hashes_model();
        if !self.hashes.contains_key(key) {
            self.hashes.insert(key.to_owned(), FieldTable::new());
            proof {
                assert(self.hashes_model() =~= h0.insert(
                    key@,
                    Map::<Seq<char>, Seq<char>>::empty(),
                ));
            }
        }
        Ok(())
    }

    /// Writes one field, auto-creating the container.
    pub fn hash_set(&mut self, key: &str, field: &str, value: &str) -> (r: Result<
        bool,
        CacheError,
    >)
        ensures
            r == Ok::<bool, CacheError>(true),
            final(self).hashes_model() == spec_hash_set(
                old(self).hashes_model(),
                key@,
                field@,
                value@,
            ),
            final(self).objects_model() == old(self).objects_model(),
            final(self).sets_model() == old(self).sets_model(),
    {
        let ghost h0 = self.hashes_model();
        let mut table = match self.hashes.get(key) {
            Some(t) => t.duplicate(),
            None => FieldTable::new(),
        };
        proof {
            assert(table@ == container_or_empty(h0, key@));
        }
        table.set(field.to_owned(), value.to_owned());
        self.hashes.insert(key.to_owned(), table);
        proof {
            assert(self.hashes_model() =~= spec_hash_set(h0, key@, field@, value@));
        }
        Ok(true)
    }

    /// Writes one field only if it is absent, auto-creating the container;
    /// returns false without touching an already present field.
    pub fn hash_set_if_not_exists(&mut self, key: &str, field: &str, value: &str) -> (r: Result<
        bool,
        CacheError,
    >)
        ensures
            final(self).objects_model() == old(self).objects_model(),
            final(self).sets_model() == old(self).sets_model(),
            ({
                let h = old(self).hashes_model();
                let c = container_or_empty(h, key@);
                if c.dom().contains(field@) {
                    r == Ok::<bool, CacheError>(false) && final(self).hashes_model() == h.insert(
                        key@,
                        c,
                    )
                } else {
                    r == Ok::<bool, CacheError>(true) && final(self).hashes_model()
                        == spec_hash_set(h, key@, field@, value@)
                }
            }),
    {
        let ghost h0 = self.hashes_model();
        let mut table = match self.hashes.get(key) {
            Some(t) => t.duplicate(),
            None => FieldTable::new(),
        };
        proof {
            assert(table@ == container_or_empty(h0, key@));
        }
        if table.contains_field(field) {
            self.hashes.insert(key.to_owned(), table);
            proof {
                assert(self.hashes_model() =~= h0.insert(key@, container_or_empty(h0, key@)));
            }
            Ok(false)
        } else {
            table.set(field.to_owned(), value.to_owned());
            self.hashes.insert(key.to_owned(), table);
            proof {
                assert(self.hashes_model() =~= spec_hash_set(h0, key@, field@, value@));
            }
            Ok(true)
        }
    }

    /// Writes several fields at once, auto-creating the container; later
    /// pairs overwrite earlier ones with the same field name.
    pub fn hash_multiple_set(&mut self, key: &str, fv_pairs: &[(String, String)]) -> (r: Result<
        bool,
        CacheError,
    >)
        ensures
            r == Ok::<bool, CacheError>(true),
            final(self).hashes_model() == old(self).hashes_model().insert(
                key@,
                spec_set_pairs(
                    container_or_empty(old(self).hashes_model(), key@),
                    pairs_views(fv_pairs@),
                ),
            ),
            final(self).objects_model() == old(self).objects_model(),
            final(self).sets_model() == old(self).sets_model(),
    {
        let ghost h0 = self.hashes_model();
        let ghost pv = pairs_views(fv_pairs@);
        let mut table = match self.hashes.get(key) {
            Some(t) => t.duplicate(),
            None => FieldTable::new(),
        };
        proof {
            assert(table@ == container_or_empty(h0, key@));
            assert(pv.skip(0) =~= pv);
        }
        let mut i: usize = 0;
        while i < fv_pairs.len()
            invariant
                i <= fv_pairs@.len(),
                pv == pairs_views(fv_pairs@),
                spec_set_pairs(table@, pv.skip(i as int)) == spec_set_pairs(
                    container_or_empty(h0, key@),
                    pv,
                ),
            decreases fv_pairs@.len() - i,
        {
            proof {
                assert(pv.skip(i as int)[0] == (fv_pairs@[i as int].0@, fv_pairs@[i as int].1@));
                assert(pv.skip(i as int).drop_first() =~= pv.skip(i + 1));
            }
            let f = fv_pairs[i].0.clone();
            let v = fv_pairs[i].1.clone();
            table.set(f, v);
            i += 1;
        }
        proof {
            assert(pv.skip(fv_pairs@.len() as int) =~= Seq::<(Seq<char>, Seq<char>)>::empty());
        }
        self.hashes.insert(key.to_owned(), table);
        proof {
            assert(self.hashes_model() =~= h0.insert(
                key@,
                spec_set_pairs(container_or_empty(h0, key@), pv),
            ));
        }
        Ok(true)
    }

    /// Removes the listed fields; a missing container or missing fields are
    /// silently ignored.
    pub fn hash_delete(&mut self, key: &str, fields: &[&str]) -> (r: Result<bool, CacheError>)
        ensures
            r == Ok::<bool, CacheError>(true),
            final(self).hashes_model() == (if old(self).hashes_model().dom().contains(key@) {
                old(self).hashes_model().insert(
                    key@,
                    spec_remove_fields(old(self).hashes_model()[key@], strs_views(fields@)),
                )
            } else {
                old(self).hashes_model()
            }),
            final(self).objects_model() == old(self).objects_model(),
            final(self).sets_model() == old(self).sets_model(),
    {
        let ghost h0 = self.hashes_model();
        let ghost fv = strs_views(fields@);
        let mut table = match self.hashes.get(key) {
            Some(t) => t.duplicate(),
            None => { return Ok(true) },
        };
        proof {
            assert(table@ == h0[key@]);
            assert(fv.skip(0) =~= fv);
        }
        let mut i: usize = 0;
        while i < fields.len()
            invariant
                i <= fields@.len(),
                fv == strs_views(fields@),
                spec_remove_fields(table@, fv.skip(i as int)) == spec_remove_fields(h0[key@], fv),
            decreases fields@.len() - i,
        {
            proof {
                assert(fv.skip(i as int)[0] == fields@[i as int]@);
                assert(fv.skip(i as int).drop_first() =~= fv.skip(i + 1));
            }
            table.remove_field(fields[i]);
            i += 1;
        }
        proof {
            assert(fv.skip(fields@.len() as int) =~= Seq::<Seq<char>>::empty());
        }
        self.hashes.insert(key.to_owned(), table);
        proof {
            assert(self.hashes_model() =~= h0.insert(
                key@,
                spec_remove_fields(h0[key@], fv),
            ));
        }
        Ok(true)
    }

    /// Is this field present in this container?
    pub fn hash_exists(&self, key: &str, field: &str) -> (r: Result<bool, CacheError>)
        ensures
            r == Ok::<bool, CacheError>(
                container_or_empty(self.hashes_model(), key@).dom().contains(field@),
            ),
    {
        match self.hashes.get(key) {
            Some(t) => Ok(t.contains_field(field)),
            None => Ok(false),
        }
    }

    /// Reads one field's raw string value.
    pub fn hash_get(&self, key: &str, field: &str) -> (r: Result<Option<String>, CacheError>)
        ensures
            ({
                let c = container_or_empty(self.hashes_model(), key@);
                match r {
                    Ok(Some(s)) => c.dom().contains(field@) && s@ == c[field@],
                    Ok(None) => !c.dom().contains(field@),
                    Err(_) => false,
                }
            }),
    {
        match self.hashes.get(key) {
            Some(t) => match t.get(field) {
                Some(v) => Ok(Some(v.clone())),
                None => Ok(None),
            },
            None => Ok(None),
        }
    }

    /// Reads one field and parses its value as an unsigned decimal number.
    /// An absent container or field is `Ok(None)`; a present value that is
    /// not a decimal number that fits is a reported `Parse` error, never a
    /// silent `None`.
    pub fn hash_get_u64(&self, key: &str, field: &str) -> (r: Result<Option<u64>, CacheError>)
        ensures
            ({
                let c = container_or_empty(self.hashes_model(), key@);
                if !c.dom().contains(field@) {
                    r == Ok::<Option<u64>, CacheError>(None)
                } else if crate::parse::spec_is_u64_str(c[field@]) {
                    r == Ok::<Option<u64>, CacheError>(
                        Some(crate::parse::spec_digits_val(c[field@]) as u64),
                    )
                } else {
                    r == Err::<Option<u64>, CacheError>(CacheError::Parse)
                }
            }),
    {
        match self.hashes.get(key) {
            Some(t) => match t.get(field) {
                Some(v) => match crate::parse::parse_u64(v.as_str()) {
                    Ok(n) => Ok(Some(n)),
                    Err(e) => Err(e),
                },
                None => Ok(None),
            },
            None => Ok(None),
        }
    }

    /// Reads one field and parses its value as a signed decimal number.
    /// An absent container or field is `Ok(None)`; a present value that is
    /// not a decimal number that fits is a reported `Parse` error, never a
    /// silent `None`.
    pub fn hash_get_i64(&self, key: &str, field: &str) -> (r: Result<Option<i64>, CacheError>)
        ensures
            ({
                let c = container_or_empty(self.hashes_model(), key@);
                if !c.dom().contains(field@) {
                    r == Ok::<Option<i64>, CacheError>(None)
                } else if crate::parse::spec_is_i64_str(c[field@]) {
                    r == Ok::<Option<i64>, CacheError>(
                        Some(crate::parse::spec_i64_val(c[field@]) as i64),
                    )
                } else {
                    r == Err::<Option<i64>, CacheError>(CacheError::Parse)
                }
            }),
    {
        match self.hashes.get(key) {
            Some(t) => match t.get(field) {
                Some(v) => match crate::parse::parse_i64(v.as_str()) {
                    Ok(n) => Ok(Some(n)),
                    Err(e) => Err(e),
                },
                None => Ok(None),
            },
            None => Ok(None),
        }
    }

    /// Reinterprets the whole container under this key as a typed object,
    /// by delegating to the typed object store under the same caller key:
    /// the hash view and the whole-object view share one namespace by
    /// design.
    pub fn hash_get_all(&mut self, model_name: &str, key: &str) -> (r: Result<
        Option<CacheObject>,
        CacheError,
    >)
        ensures
            exists|now: u64|
                {
                    &&& obj_result_model(r) == spec_obj_get(
                        old(self).objects_model(),
                        model_name@,
                        key@,
                        now,
                    ).0
                    &&& final(self).objects_model() == spec_obj_get(
                        old(self).objects_model(),
                        model_name@,
                        key@,
                        now,
                    ).1
                },
            final(self).hashes_model() == old(self).hashes_model(),
            final(self).sets_model() == old(self).sets_model(),
    {
        self.get(model_name, key)
    }

    /// Stores a whole object through the typed object store under the same
    /// caller key, using the object's own declared default time-to-live.
    pub fn hash_set_all(&mut self, key: &str, obj: CacheObject) -> (r: Result<bool, CacheError>)
        ensures
            r == Ok::<bool, CacheError>(true),
            exists|now: u64|
                final(self).objects_model() == spec_obj_insert(
                    old(self).objects_model(),
                    key@,
                    obj@,
                    spec_ttl_exp(obj.default_ttl, now),
                ),
            final(self).hashes_model() == old(self).hashes_model(),
            final(self).sets_model() == old(self).sets_model(),
    {
        match self.insert(key, obj) {
            Ok(()) => Ok(true),
            Err(e) => Err(e),
        }
    }

    /// A snapshot of the container's field names; empty if the container is
    /// absent. No order is promised.
    pub fn hash_keys(&self, key: &str) -> (r: Result<Vec<String>, CacheError>)
        ensures
            ({
                let c = container_or_empty(self.hashes_model(), key@);
                r matches Ok(v) && views_distinct(v@) && str_seq_set(v@) == c.dom() && v@.len()
                    == c.dom().len()
            }),
    {
        match self.hashes.get(key) {
            Some(t) => Ok(t.keys()),
            None => {
                let v: Vec<String> = Vec::new();
                proof {
                    assert(str_seq_set(v@) =~= Map::<Seq<char>, Seq<char>>::empty().dom());
                    assert(Map::<Seq<char>, Seq<char>>::empty().dom() =~= Set::<Seq<char>>::empty());
                }
                Ok(v)
            },
        }
    }

    /// A snapshot of the container's values; empty if the container is
    /// absent. Some ordering of the fields pairs each returned value with
    /// its field; no order is promised.
    pub fn hash_values(&self, key: &str) -> (r: Result<Vec<String>, CacheError>)
        ensures
            ({
                let c = container_or_empty(self.hashes_model(), key@);
                r matches Ok(v) && v@.len() == c.dom().len() && exists|ks: Seq<Seq<char>>|
                    {
                        &&& ks.no_duplicates()
                        &&& ks.len() == v@.len()
                        &&& forall|i: int|
                            0 <= i < ks.len() ==> c.dom().contains(ks[i]) && v@[i]@ == c[ks[i]]
                        &&& forall|f: Seq<char>| c.dom().contains(f) ==> ks.contains(f)
                    }
            }),
    {
        match self.hashes.get(key) {
            Some(t) => Ok(t.values()),
            None => {
                let v: Vec<String> = Vec::new();
                proof {
                    assert(Map::<Seq<char>, Seq<char>>::empty().dom() =~= Set::<Seq<char>>::empty());
                    let ks = Seq::<Seq<char>>::empty();
                    assert(ks.no_duplicates());
                }
                Ok(v)
            },
        }
    }

    /// The number of fields in the container; zero if absent.
    pub fn hash_len(&self, key: &str) -> (r: Result<usize, CacheError>)
        ensures
            r == Ok::<usize, CacheError>(
                container_or_empty(self.hashes_model(), key@).dom().len() as usize,
            ),
            container_or_empty(self.hashes_model(), key@).dom().finite(),
    {
        match self.hashes.get(key) {
            Some(t) => Ok(t.len()),
            None => {
                proof {
                    assert(Map::<Seq<char>, Seq<char>>::empty().dom() =~= Set::<Seq<char>>::empty());
                }
                Ok(0)
            },
        }
    }

    /// Reads several fields at once: the result has the same length and
    /// order as the request, with `None` for each absent field.
    pub fn hash_multiple_get(&self, key: &str, fields: &[&str]) -> (r: Result<
        Vec<Option<String>>,
        CacheError,
    >)
        ensures
            ({
                let c = container_or_empty(self.hashes_model(), key@);
                r matches Ok(v) && v@.len() == fields@.len() && forall|i: int|
                    #![trigger v@[i]]
                    0 <= i < v@.len() ==> match v@[i] {
                        Some(s) => c.dom().contains(fields@[i]@) && s@ == c[fields@[i]@],
                        None => !c.dom().contains(fields@[i]@),
                    }
            }),
    {
        let mut out: Vec<Option<String>> = Vec::new();
        match self.hashes.get(key) {
            Some(t) => {
                let mut i: usize = 0;
                while i < fields.len()
                    invariant
                        i <= fields@.len(),
                        out@.len() == i,
                        t@ == container_or_empty(self.hashes_model(), key@),
                        forall|j: int|
                            #![trigger out@[j]]
                            0 <= j < i ==> match out@[j] {
                                Some(s) => t@.dom().contains(fields@[j]@) && s@ == t@[fields@[j]@],
                                None => !t@.dom().contains(fields@[j]@),
                            },
                    decreases fields@.len() - i,
                {
                    match t.get(fields[i]) {
                        Some(v) => out.push(Some(v.clone())),
                        None => out.push(None),
                    }
                    i += 1;
                }
            },
            None => {
                let mut i: usize = 0;
                while i < fields.len()
                    invariant
                        i <= fields@.len(),
                        out@.len() == i,
                        forall|j: int| 0 <= j < i ==> out@[j] is None,
                    decreases fields@.len() - i,
                {
                    out.push(None);
                    i += 1;
                }
            },
        }
        Ok(out)
    }

    // -----------------------------------------------------------------
    // Set container store.
    // -----------------------------------------------------------------

    /// Idempotent container creation: a no-op if the container exists.
    pub fn ensure_set_exists(&mut self, key: &str) -> (r: Result<(), CacheError>)
        ensures
            r == Ok::<(), CacheError>(()),
            final(self).sets_model() == (if old(self).sets_model().dom().contains(key@) {
                old(self).sets_model()
            } else {
                old(self).sets_model().insert(key@, Set::<Seq<char>>::empty())
            }),
            final(self).objects_model() == old(self).objects_model(),
            final(self).hashes_model() == old(self).hashes_model(),
    {
        let ghost s0 = self.sets_model();
        if !self.sets.contains_key(key) {
            self.sets.insert(key.to_owned(), MemberSet::new());
            proof {
                assert(self.sets_model() =~= s0.insert(key@, Set::<Seq<char>>::empty()));
            }
        }
        Ok(())
    }

    /// Adds all listed members, auto-creating the container; duplicates
    /// collapse.
    pub fn set_add(&mut self, key: &str, members: &[&str]) -> (r: Result<bool, CacheError>)
        ensures
            r == Ok::<bool, CacheError>(true),
            final(self).sets_model() == spec_set_add(
                old(self).sets_model(),
                key@,
                strs_set(members@),
            ),
            final(self).objects_model() == old(self).objects_model(),
            final(self).hashes_model() == old(self).hashes_model(),
    {
        let ghost s0 = self.sets_model();
        let mut ms = match self.sets.get(key) {
            Some(s) => s.duplicate(),
            None => MemberSet::new(),
        };
        proof {
            assert(ms@ == set_or_empty(s0, key@));
            assert(strs_set(members@.subrange(0, 0)) =~= Set::<Seq<char>>::empty());
            assert(ms@ =~= set_or_empty(s0, key@).union(strs_set(members@.subrange(0, 0))));
        }
        let mut i: usize = 0;
        while i < members.len()
            invariant
                i <= members@.len(),
                ms@ == set_or_empty(s0, key@).union(strs_set(members@.subrange(0, i as int))),
            decreases members@.len() - i,
        {
            proof {
                lemma_strs_set_extend(members@, i as int);
            }
            ms.insert(members[i].to_owned());
            proof {
                assert(ms@ =~= set_or_empty(s0, key@).union(
                    strs_set(members@.subrange(0, i + 1)),
                ));
            }
            i += 1;
        }
        proof {
            assert(members@.subrange(0, members@.len() as int) =~= members@);
        }
        self.sets.insert(key.to_owned(), ms);
        proof {
            assert(self.sets_model() =~= spec_set_add(s0, key@, strs_set(members@)));
        }
        Ok(true)
    }

    /// The cardinality of the container; zero if absent.
    pub fn set_card(&self, key: &str) -> (r: Result<u64, CacheError>)
        ensures
            r == Ok::<u64, CacheError>(set_or_empty(self.sets_model(), key@).len() as u64),
            set_or_empty(self.sets_model(), key@).finite(),
    {
        match self.sets.get(key) {
            Some(s) => {
                let n = s.len();
                Ok(n as u64)
            },
            None => {
                proof {
                    assert(Set::<Seq<char>>::empty().len() == 0);
                }
                Ok(0)
            },
        }
    }

    /// Membership test; false if the container is absent.
    pub fn set_ismember(&self, key: &str, member: &str) -> (r: Result<bool, CacheError>)
        ensures
            r == Ok::<bool, CacheError>(set_or_empty(self.sets_model(), key@).contains(member@)),
    {
        match self.sets.get(key) {
            Some(s) => Ok(s.contains(member)),
            None => Ok(false),
        }
    }

    /// A snapshot of the members; empty if the container is absent. No
    /// order is promised.
    pub fn set_members(&self, key: &str) -> (r: Result<Vec<String>, CacheError>)
        ensures
            ({
                let c = set_or_empty(self.sets_model(), key@);
                r matches Ok(v) && views_distinct(v@) && str_seq_set(v@) == c && v@.len()
                    == c.len()
            }),
    {
        match self.sets.get(key) {
            Some(s) => Ok(s.members()),
            None => {
                let v: Vec<String> = Vec::new();
                proof {
                    assert(str_seq_set(v@) =~= Set::<Seq<char>>::empty());
                }
                Ok(v)
            },
        }
    }

    /// Removes one member; true iff it was present. An absent container or
    /// member yields false.
    pub fn set_rem(&mut self, key: &str, member: &str) -> (r: Result<bool, CacheError>)
        ensures
            final(self).sets_model() == spec_set_rem(old(self).sets_model(), key@, member@),
            r == Ok::<bool, CacheError>(
                set_or_empty(old(self).sets_model(), key@).contains(member@),
            ),
            final(self).objects_model() == old(self).objects_model(),
            final(self).hashes_model() == old(self).hashes_model(),
    {
        let ghost s0 = self.sets_model();
        let mut ms = match self.sets.get(key) {
            Some(s) => s.duplicate(),
            None => { return Ok(false) },
        };
        let removed = ms.remove(member);
        self.sets.insert(key.to_owned(), ms);
        proof {
            assert(self.sets_model() =~= spec_set_rem(s0, key@, member@));
        }
        Ok(removed)
    }

    /// Moves a member from one container to another. The member is checked
    /// in the source; it is inserted into the destination and only then
    /// removed from the source, and only when the destination container
    /// exists — a missing destination fails without touching the source.
    pub fn set_move(&mut self, key1: &str, key2: &str, member: &str) -> (r: Result<
        bool,
        CacheError,
    >)
        ensures
            r == Ok::<bool, CacheError>(
                spec_set_move(old(self).sets_model(), key1@, key2@, member@).0,
            ),
            final(self).sets_model() == spec_set_move(
                old(self).sets_model(),
                key1@,
                key2@,
                member@,
            ).1,
            final(self).objects_model() == old(self).objects_model(),
            final(self).hashes_model() == old(self).hashes_model(),
    {
        let ghost s0 = self.sets_model();
        let member_in_src = match self.sets.get(key1) {
            Some(s) => s.contains(member),
            None => { return Ok(false) },
        };
        if !member_in_src {
            return Ok(false);
        }
        let mut dstset = match self.sets.get(key2) {
            Some(s) => s.duplicate(),
            None => { return Ok(false) },
        };
        dstset.insert(member.to_owned());
        self.sets.insert(key2.to_owned(), dstset);
        proof {
            assert(self.sets_model() =~= s0.insert(key2@, s0[key2@].insert(member@)));
            assert(self.sets@.dom().contains(key1@));
        }
        let ghost s1 = self.sets_model();
        let mut srcset = match self.sets.get(key1) {
            Some(s) => s.duplicate(),
            None => {
                proof {
                    assert(false);
                }
                MemberSet::new()
            },
        };
        srcset.remove(member);
        self.sets.insert(key1.to_owned(), srcset);
        proof {
            assert(self.sets_model() =~= s1.insert(key1@, s1[key1@].remove(member@)));
            assert(self.sets_model() =~= spec_set_move(s0, key1@, key2@, member@).1);
        }
        Ok(true)
    }

    /// The running algebra result over the listed keys.
    fn algebra_set(&self, op: SetOp, keys: &[&str]) -> (r: MemberSet)
        ensures
            r@ == spec_algebra(op, self.sets_model(), strs_views(keys@)),
    {
        let ghost m = self.sets_model();
        let ghost kv = strs_views(keys@);
        let mut acc: Option<MemberSet> = None;
        proof {
            assert(kv.skip(0) =~= kv);
        }
        let mut i: usize = 0;
        while i < keys.len()
            invariant
                i <= keys@.len(),
                m == self.sets_model(),
                kv == strs_views(keys@),
                spec_algebra_step(op, m, kv, None) == spec_algebra_step(
                    op,
                    m,
                    kv.skip(i as int),
                    acc_model(acc),
                ),
            decreases keys@.len() - i,
        {
            proof {
                assert(kv.skip(i as int)[0] == keys@[i as int]@);
                assert(kv.skip(i as int).drop_first() =~= kv.skip(i + 1));
            }
            match self.sets.get(keys[i]) {
                Some(ms) => {
                    let next = match &acc {
                        None => ms.duplicate(),
                        Some(a) => match op {
                            SetOp::Difference => a.difference(ms),
                            SetOp::Intersection => a.intersect(ms),
                            SetOp::Union => a.union_with(ms),
                        },
                    };
                    acc = Some(next);
                },
                None => {},
            }
            i += 1;
        }
        proof {
            assert(kv.skip(keys@.len() as int) =~= Seq::<Seq<char>>::empty());
        }
        match acc {
            None => {
                let r = MemberSet::new();
                r
            },
            Some(a) => a,
        }
    }

    /// The n-ary set difference over the listed keys, seeded by the first
    /// existing container; keys with no container are skipped.
    pub fn set_diff(&self, keys: &[&str]) -> (r: Result<Vec<String>, CacheError>)
        ensures
            ({
                let res = spec_algebra(SetOp::Difference, self.sets_model(), strs_views(keys@));
                r matches Ok(v) && views_distinct(v@) && str_seq_set(v@) == res && v@.len()
                    == res.len()
            }),
    {
        let ms = self.algebra_set(SetOp::Difference, keys);
        Ok(ms.members())
    }

    /// The n-ary set intersection over the listed keys.
    pub fn set_inter(&self, keys: &[&str]) -> (r: Result<Vec<String>, CacheError>)
        ensures
            ({
                let res = spec_algebra(SetOp::Intersection, self.sets_model(), strs_views(keys@));
                r matches Ok(v) && views_distinct(v@) && str_seq_set(v@) == res && v@.len()
                    == res.len()
            }),
    {
        let ms = self.algebra_set(SetOp::Intersection, keys);
        Ok(ms.members())
    }

    /// The n-ary set union over the listed keys.
    pub fn set_union(&self, keys: &[&str]) -> (r: Result<Vec<String>, CacheError>)
        ensures
            ({
                let res = spec_algebra(SetOp::Union, self.sets_model(), strs_views(keys@));
                r matches Ok(v) && views_distinct(v@) && str_seq_set(v@) == res && v@.len()
                    == res.len()
            }),
    {
        let ms = self.algebra_set(SetOp::Union, keys);
        Ok(ms.members())
    }

    /// Computes the algebra over the old store, then overwrites the
    /// destination container with the result and reports its cardinality.
    /// Success is owed on every input: an error is never coerced to a
    /// cardinality of zero.
    fn algebra_store(&mut self, op: SetOp, dst: &str, keys: &[&str]) -> (r: Result<u64, CacheError>)
        ensures
            ({
                let res = spec_algebra(op, old(self).sets_model(), strs_views(keys@));
                &&& r == Ok::<u64, CacheError>(res.len() as u64)
                &&& final(self).sets_model() == old(self).sets_model().insert(dst@, res)
            }),
            final(self).objects_model() == old(self).objects_model(),
            final(self).hashes_model() == old(self).hashes_model(),
    {
        let ghost s0 = self.sets_model();
        let ms = self.algebra_set(op, keys);
        let n = ms.len();
        self.sets.insert(dst.to_owned(), ms);
        proof {
            assert(self.sets_model() =~= s0.insert(
                dst@,
                spec_algebra(op, s0, strs_views(keys@)),
            ));
        }
        Ok(n as u64)
    }

    /// Stores the n-ary difference of the listed keys into the named
    /// container and reports the resulting cardinality.
    pub fn set_diffstore(&mut self, diff_name: &str, keys: &[&str]) -> (r: Result<u64, CacheError>)
        ensures
            ({
                let res = spec_algebra(
                    SetOp::Difference,
                    old(self).sets_model(),
                    strs_views(keys@),
                );
                &&& r == Ok::<u64, CacheError>(res.len() as u64)
                &&& final(self).sets_model() == old(self).sets_model().insert(diff_name@, res)
            }),
            final(self).objects_model() == old(self).objects_model(),
            final(self).hashes_model() == old(self).hashes_model(),
    {
        self.algebra_store(SetOp::Difference, diff_name, keys)
    }

    /// Stores the n-ary intersection of the listed keys into the named
    /// container and reports the resulting cardinality.
    pub fn set_interstore(&mut self, inter_name: &str, keys: &[&str]) -> (r: Result<
        u64,
        CacheError,
    >)
        ensures
            ({
                let res = spec_algebra(
                    SetOp::Intersection,
                    old(self).sets_model(),
                    strs_views(keys@),
                );
                &&& r == Ok::<u64, CacheError>(res.len() as u64)
                &&& final(self).sets_model() == old(self).sets_model().insert(inter_name@, res)
            }),
            final(self).objects_model() == old(self).objects_model(),
            final(self).hashes_model() == old(self).hashes_model(),
    {
        self.algebra_store(SetOp::Intersection, inter_name, keys)
    }

    /// Stores the n-ary union of the listed keys into the named container
    /// and reports the resulting cardinality.
    pub fn set_unionstore(&mut self, union_name: &str, keys: &[&str]) -> (r: Result<
        u64,
        CacheError,
    >)
        ensures
            ({
                let res = spec_algebra(SetOp::Union, old(self).sets_model(), strs_views(keys@));
                &&& r == Ok::<u64, CacheError>(res.len() as u64)
                &&& final(self).sets_model() == old(self).sets_model().insert(union_name@, res)
            }),
            final(self).objects_model() == old(self).objects_model(),
            final(self).hashes_model() == old(self).hashes_model(),
    {
        self.algebra_store(SetOp::Union, union_name, keys)
    }
}

} // verus!
