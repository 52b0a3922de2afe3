use vstd::prelude::*;
use crate::member_set::str_seq_set;
use crate::member_set::views_distinct;
use crate::strutil::str_eq;

verus! {

/// The field names of a sequence of field-value pairs are pairwise distinct.
pub open spec fn field_keys_distinct(s: Seq<(String, String)>) -> bool {
    forall|i: int, j: int| 0 <= i < j < s.len() ==> s[i].0@ != s[j].0@
}

/// Some pair in the sequence carries this field name.
pub open spec fn field_contains(s: Seq<(String, String)>, f: Seq<char>) -> bool {
    exists|i: int| 0 <= i < s.len() && s[i].0@ == f
}

/// The value paired with this field name.
pub open spec fn field_at(s: Seq<(String, String)>, f: Seq<char>) -> Seq<char> {
    let i = choose|i: int| 0 <= i < s.len() && s[i].0@ == f;
    s[i].1@
}

/// The field-to-value map named by a sequence of pairs.
pub open spec fn field_map(s: Seq<(String, String)>) -> Map<Seq<char>, Seq<char>> {
    Map::new(|f: Seq<char>| field_contains(s, f), |f: Seq<char>| field_at(s, f))
}

/// With distinct field names, the pair at index `i` decides the map at its
/// field name.
pub proof fn lemma_field_at(s: Seq<(String, String)>, i: int)
    requires
        field_keys_distinct(s),
        0 <= i < s.len(),
    ensures
        field_contains(s, s[i].0@),
        field_at(s, s[i].0@) == s[i].1@,
{
    assert(field_contains(s, s[i].0@));
    let j = choose|j: int| 0 <= j < s.len() && s[j].0@ == s[i].0@;
    assert(j == i);
}

/// Appending a pair whose field name is fresh inserts exactly that binding.
pub proof fn lemma_field_map_push(s: Seq<(String, String)>, p: (String, String))
    requires
        field_keys_distinct(s),
        !field_contains(s, p.0@),
    ensures
        field_keys_distinct(s.push(p)),
        field_map(s.push(p)) == field_map(s).insert(p.0@, p.1@),
{
    let t = s.push(p);
    assert(field_keys_distinct(t));
    assert(field_map(t) =~= field_map(s).insert(p.0@, p.1@)) by {
        assert forall|g: Seq<char>| field_contains(t, g) implies field_map(s).insert(
            p.0@,
            p.1@,
        ).dom().contains(g) by {
            let i = choose|i: int| 0 <= i < t.len() && t[i].0@ == g;
            if i < s.len() {
                assert(s[i].0@ == g);
            }
        };
        assert forall|g: Seq<char>|
            field_map(s).insert(p.0@, p.1@).dom().contains(g) implies field_contains(t, g) by {
            if g == p.0@ {
                assert(t[s.len() as int].0@ == g);
            } else {
                let i = choose|i: int| 0 <= i < s.len() && s[i].0@ == g;
                assert(t[i].0@ == g);
            }
        };
        assert forall|g: Seq<char>| field_contains(t, g) implies field_at(t, g) == field_map(
            s,
        ).insert(p.0@, p.1@)[g] by {
            let i = choose|i: int| 0 <= i < t.len() && t[i].0@ == g;
            if g == p.0@ {
                lemma_field_at(t, s.len() as int);
            } else {
                assert(i < s.len());
                assert(s[i].0@ == g);
                lemma_field_at(t, i);
                lemma_field_at(s, i);
            }
        };
    };
}

/// Extending a prefix of `s` by one pair inserts exactly that binding.
pub proof fn lemma_field_map_extend(s: Seq<(String, String)>, i: int)
    requires
        field_keys_distinct(s),
        0 <= i < s.len(),
    ensures
        field_map(s.subrange(0, i + 1)) == field_map(s.subrange(0, i)).insert(s[i].0@, s[i].1@),
{
    let a = s.subrange(0, i);
    assert(field_keys_distinct(a));
    assert(!field_contains(a, s[i].0@)) by {
        if field_contains(a, s[i].0@) {
            let j = choose|j: int| 0 <= j < a.len() && a[j].0@ == s[i].0@;
            assert(s[j].0@ == s[i].0@);
            assert(false);
        }
    };
    lemma_field_map_push(a, s[i]);
    assert(s.subrange(0, i + 1) =~= a.push(s[i]));
}

/// With distinct field names, the named map is finite and has one binding
/// per pair.
pub proof fn lemma_field_map_card(s: Seq<(String, String)>)
    requires
        field_keys_distinct(s),
    ensures
        field_map(s).dom().finite(),
        field_map(s).dom().len() == s.len(),
    decreases s.len(),
{
    if s.len() == 0 {
        assert(field_map(s).dom() =~= Set::<Seq<char>>::empty());
    } else {
        let pre = s.drop_last();
        assert(field_keys_distinct(pre));
        lemma_field_map_card(pre);
        assert(s.subrange(0, s.len() - 1) =~= pre);
        assert(s.subrange(0, s.len() as int) =~= s);
        lemma_field_map_extend(s, s.len() - 1);
        assert(field_map(s) == field_map(pre).insert(s[s.len() - 1].0@, s[s.len() - 1].1@));
        assert(!field_map(pre).dom().contains(s[s.len() - 1].0@)) by {
            if field_contains(pre, s[s.len() - 1].0@) {
                let j = choose|j: int| 0 <= j < pre.len() && pre[j].0@ == s[s.len() - 1].0@;
                assert(s[j].0@ == s[s.len() - 1].0@);
                assert(false);
            }
        };
        assert(field_map(s).dom() =~= field_map(pre).dom().insert(s[s.len() - 1].0@));
    }
}

/// A dynamically created field-value container: a map from field name to
/// string value, created lazily on first write to its key and never
/// destroyed by the engine.
pub struct FieldTable {
    entries: Vec<(String, String)>,
}

impl View for FieldTable {
    type V = Map<Seq<char>, Seq<char>>;

    closed spec fn view(&self) -> Map<Seq<char>, Seq<char>> {
        field_map(self.entries@)
    }
}

impl FieldTable {
    #[verifier::type_invariant]
    spec fn inv(self) -> bool {
        field_keys_distinct(self.entries@)
    }

    /// Creates an empty container.
    pub fn new() -> (r: FieldTable)
        ensures
            r@ == Map::<Seq<char>, Seq<char>>::empty(),
    {
        let r = FieldTable { entries: Vec::new() };
        proof {
            assert(r@ =~= Map::<Seq<char>, Seq<char>>::empty());
        }
        r
    }

    /// The number of fields.
    pub fn len(&self) -> (r: usize)
        ensures
            self@.dom().finite(),
            r == self@.dom().len(),
    {
        proof {
            use_type_invariant(&*self);
            lemma_field_map_card(self.entries@);
        }
        self.entries.len()
    }

    /// Is this field present?
    pub fn contains_field(&self, field: &str) -> (r: bool)
        ensures
            r == self@.dom().contains(field@),
    {
        let mut i: usize = 0;
        while i < self.entries.len()
            invariant
                i <= self.entries@.len(),
                forall|j: int| 0 <= j < i ==> self.entries@[j].0@ != field@,
            decreases self.entries@.len() - i,
        {
            if str_eq(self.entries[i].0.as_str(), field) {
                proof {
                    assert(self.entries@[i as int].0@ == field@);
                }
                return true;
            }
            i += 1;
        }
        false
    }

    /// The value stored under this field, if any.
    pub fn get(&self, field: &str) -> (r: Option<&String>)
        ensures
            match r {
                Some(v) => self@.dom().contains(field@) && v@ == self@[field@],
                None => !self@.dom().contains(field@),
            },
    {
        proof {
            use_type_invariant(&*self);
        }
        let mut i: usize = 0;
        while i < self.entries.len()
            invariant
                i <= self.entries@.len(),
                field_keys_distinct(self.entries@),
                forall|j: int| 0 <= j < i ==> self.entries@[j].0@ != field@,
            decreases self.entries@.len() - i,
        {
            if str_eq(self.entries[i].0.as_str(), field) {
                proof {
                    lemma_field_at(self.entries@, i as int);
                }
                return Some(&self.entries[i].1);
            }
            i += 1;
        }
        None
    }

    /// An identical, independently owned container.
    pub fn duplicate(&self) -> (r: FieldTable)
        ensures
            r@ == self@,
    {
        proof {
            use_type_invariant(&*self);
        }
        let mut v: Vec<(String, String)> = Vec::new();
        let mut i: usize = 0;
        while i < self.entries.len()
            invariant
                i <= self.entries@.len(),
                v@.len() == i,
                forall|j: int| 0 <= j < i ==> v@[j] == self.entries@[j],
            decreases self.entries@.len() - i,
        {
            let f = self.entries[i].0.clone();
            let w = self.entries[i].1.clone();
            v.push((f, w));
            i += 1;
        }
        proof {
            assert(v@ =~= self.entries@);
        }
        FieldTable { entries: v }
    }

    /// Removes a field; a missing field is silently ignored.
    pub fn remove_field(&mut self, field: &str)
        ensures
            final(self)@ == old(self)@.remove(field@),
    {
        proof {
            use_type_invariant(&*self);
        }
        let mut cur: Vec<(String, String)> = Vec::new();
        core::mem::swap(&mut cur, &mut self.entries);
        let mut out: Vec<(String, String)> = Vec::new();
        let mut i: usize = 0;
        proof {
            assert(field_map(out@) =~= field_map(cur@.subrange(0, 0)).remove(field@));
        }
        while i < cur.len()
            invariant
                i <= cur@.len(),
                field_keys_distinct(cur@),
                field_keys_distinct(out@),
                field_map(out@) == field_map(cur@.subrange(0, i as int)).remove(field@),
            decreases cur@.len() - i,
        {
            proof {
                lemma_field_map_extend(cur@, i as int);
            }
            if str_eq(cur[i].0.as_str(), field) {
                proof {
                    assert(cur@[i as int].0@ == field@);
                    assert(field_map(out@) =~= field_map(cur@.subrange(0, i + 1)).remove(field@));
                }
            } else {
                let ghost out0 = out@;
                let f = cur[i].0.clone();
                let w = cur[i].1.clone();
                out.push((f, w));
                proof {
                    assert(out@ =~= out0.push(cur@[i as int]));
                    assert(!field_contains(out0, cur@[i as int].0@)) by {
                        if field_contains(cur@.subrange(0, i as int), cur@[i as int].0@) {
                            let j = choose|j: int|
                                0 <= j < i && cur@.subrange(0, i as int)[j].0@
                                    == cur@[i as int].0@;
                            assert(cur@[j].0@ == cur@[i as int].0@);
                            assert(false);
                        }
                        if field_contains(out0, cur@[i as int].0@) {
                            let j = choose|j: int|
                                0 <= j < out0.len() && out0[j].0@ == cur@[i as int].0@;
                            assert(field_contains(cur@.subrange(0, i as int), out0[j].0@)) by {
                                assert(field_map(out0).dom().contains(out0[j].0@)) by {
                                    lemma_field_at(out0, j);
                                }
                            };
                            assert(false);
                        }
                    };
                    lemma_field_map_push(out0, cur@[i as int]);
                    assert(field_map(out@) =~= field_map(cur@.subrange(0, i + 1)).remove(field@));
                }
            }
            i += 1;
        }
        proof {
            assert(cur@.subrange(0, cur@.len() as int) =~= cur@);
        }
        self.entries = out;
    }

    /// Writes a field: inserts it or overwrites its previous value.
    pub fn set(&mut self, field: String, value: String)
        ensures
            final(self)@ == old(self)@.insert(field@, value@),
    {
        self.remove_field(field.as_str());
        proof {
            use_type_invariant(&*self);
        }
        let ghost mid = self.entries@;
        let mut v: Vec<(String, String)> = Vec::new();
        core::mem::swap(&mut v, &mut self.entries);
        proof {
            assert(!field_contains(mid, field@)) by {
                if field_contains(mid, field@) {
                    let j = choose|j: int| 0 <= j < mid.len() && mid[j].0@ == field@;
                    lemma_field_at(mid, j);
                    assert(field_map(mid).dom().contains(field@));
                    assert(false);
                }
            };
            lemma_field_map_push(mid, (field, value));
        }
        v.push((field, value));
        proof {
            assert(v@ =~= mid.push((field, value)));
        }
        self.entries = v;
        proof {
            assert(self@ =~= old(self)@.insert(field@, value@));
        }
    }

    /// A snapshot of the field names, in no promised order.
    pub fn keys(&self) -> (r: Vec<String>)
        ensures
            views_distinct(r@),
            str_seq_set(r@) == self@.dom(),
            r@.len() == self@.dom().len(),
            self@.dom().finite(),
    {
        proof {
            use_type_invariant(&*self);
            lemma_field_map_card(self.entries@);
        }
        let mut r: Vec<String> = Vec::new();
        let mut i: usize = 0;
        while i < self.entries.len()
            invariant
                i <= self.entries@.len(),
                r@.len() == i,
                forall|j: int| 0 <= j < i ==> r@[j] == self.entries@[j].0,
            decreases self.entries@.len() - i,
        {
            r.push(self.entries[i].0.clone());
            i += 1;
        }
        proof {
            assert(views_distinct(r@));
            assert(str_seq_set(r@) =~= self@.dom()) by {
                assert forall|y: Seq<char>| str_seq_set(r@).contains(y) implies self@.dom()
                    .contains(y) by {
                    let j = choose|j: int| 0 <= j < r@.len() && r@[j]@ == y;
                    assert(self.entries@[j].0@ == y);
                };
                assert forall|y: Seq<char>| self@.dom().contains(y) implies str_seq_set(
                    r@,
                ).contains(y) by {
                    let j = choose|j: int| 0 <= j < self.entries@.len() && self.entries@[j].0@ == y;
                    assert(r@[j]@ == y);
                };
            };
        }
        r
    }

    /// A snapshot of the field values. Some ordering of the fields pairs
    /// each returned value with its field; no order is promised.
    pub fn values(&self) -> (r: Vec<String>)
        ensures
            r@.len() == self@.dom().len(),
            self@.dom().finite(),
            exists|ks: Seq<Seq<char>>|
                {
                    &&& ks.no_duplicates()
                    &&& ks.len() == r@.len()
                    &&& forall|i: int|
                        0 <= i < ks.len() ==> self@.dom().contains(ks[i]) && r@[i]@ == self@[ks[i]]
                    &&& forall|f: Seq<char>| self@.dom().contains(f) ==> ks.contains(f)
                },
    {
        proof {
            use_type_invariant(&*self);
            lemma_field_map_card(self.entries@);
        }
        let mut r: Vec<String> = Vec::new();
        let mut i: usize = 0;
        while i < self.entries.len()
            invariant
                i <= self.entries@.len(),
                r@.len() == i,
                forall|j: int| 0 <= j < i ==> r@[j] == self.entries@[j].1,
            decreases self.entries@.len() - i,
        {
            r.push(self.entries[i].1.clone());
            i += 1;
        }
        proof {
            let s = self.entries@;
            let ks = Seq::new(s.len() as nat, |i: int| s[i].0@);
            assert(ks.no_duplicates());
            assert forall|i: int| 0 <= i < ks.len() implies self@.dom().contains(ks[i]) && r@[i]@
                == self@[ks[i]] by {
                lemma_field_at(s, i);
            };
            assert forall|f: Seq<char>| self@.dom().contains(f) implies ks.contains(f) by {
                let j = choose|j: int| 0 <= j < s.len() && s[j].0@ == f;
                assert(ks[j] == f);
            };
        }
        r
    }
}

} // verus!
