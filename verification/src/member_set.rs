use vstd::prelude::*;
use crate::strutil::str_eq;

verus! {

/// The set of character sequences named by a sequence of strings.
pub open spec fn str_seq_set(s: Seq<String>) -> Set<Seq<char>> {
    Set::new(|x: Seq<char>| exists|i: int| 0 <= i < s.len() && s[i]@ == x)
}

/// The views of the strings in the sequence are pairwise distinct.
pub open spec fn views_distinct(s: Seq<String>) -> bool {
    forall|i: int, j: int| 0 <= i < j < s.len() ==> s[i]@ != s[j]@
}

/// A sequence of strings with pairwise-distinct views names a set of the
/// same cardinality.
pub proof fn lemma_str_seq_set_card(s: Seq<String>)
    requires
        views_distinct(s),
    ensures
        str_seq_set(s).finite(),
        str_seq_set(s).len() == s.len(),
    decreases s.len(),
{
    if s.len() == 0 {
        assert(str_seq_set(s) =~= Set::<Seq<char>>::empty());
    } else {
        let pre = s.drop_last();
        assert(views_distinct(pre));
        lemma_str_seq_set_card(pre);
        let x = s.last()@;
        assert(!str_seq_set(pre).contains(x)) by {
            if str_seq_set(pre).contains(x) {
                let i = choose|i: int| 0 <= i < pre.len() && pre[i]@ == x;
                assert(s[i]@ == s[s.len() - 1]@);
                assert(false);
            }
        };
        assert(str_seq_set(s) =~= str_seq_set(pre).insert(x)) by {
            assert forall|y: Seq<char>| str_seq_set(s).contains(y) implies str_seq_set(
                pre,
            ).insert(x).contains(y) by {
                let i = choose|i: int| 0 <= i < s.len() && s[i]@ == y;
                if i < s.len() - 1 {
                    assert(pre[i]@ == y);
                    assert(str_seq_set(pre).contains(y));
                }
            };
            assert forall|y: Seq<char>| str_seq_set(pre).insert(x).contains(y) implies str_seq_set(
                s,
            ).contains(y) by {
                if y == x {
                    assert(s[s.len() - 1]@ == y);
                } else {
                    let i = choose|i: int| 0 <= i < pre.len() && pre[i]@ == y;
                    assert(s[i]@ == y);
                }
            };
        };
    }
}

/// Extending a prefix of `s` by one string adds exactly its view to the
/// named set.
pub proof fn lemma_str_seq_set_extend(s: Seq<String>, i: int)
    requires
        0 <= i < s.len(),
    ensures
        str_seq_set(s.subrange(0, i + 1)) == str_seq_set(s.subrange(0, i)).insert(s[i]@),
{
    let a = s.subrange(0, i);
    let b = s.subrange(0, i + 1);
    assert(str_seq_set(b) =~= str_seq_set(a).insert(s[i]@)) by {
        assert forall|y: Seq<char>| str_seq_set(b).contains(y) implies str_seq_set(a).insert(
            s[i]@,
        ).contains(y) by {
            let j = choose|j: int| 0 <= j < b.len() && b[j]@ == y;
            if j < i {
                assert(a[j]@ == y);
                assert(str_seq_set(a).contains(y));
            } else {
                assert(b[j]@ == s[i]@);
            }
        };
        assert forall|y: Seq<char>| str_seq_set(a).insert(s[i]@).contains(y) implies str_seq_set(
            b,
        ).contains(y) by {
            if y == s[i]@ {
                assert(b[i]@ == y);
            } else {
                let j = choose|j: int| 0 <= j < a.len() && a[j]@ == y;
                assert(b[j]@ == y);
            }
        };
    };
}

/// A dynamically created unique-member set of strings. Created lazily on
/// first write to its key and never destroyed by the engine; its abstract
/// value is the finite set of member views.
pub struct MemberSet {
    members: Vec<String>,
}

impl View for MemberSet {
    type V = Set<Seq<char>>;

    closed spec fn view(&self) -> Set<Seq<char>> {
        str_seq_set(self.members@)
    }
}

impl MemberSet {
    #[verifier::type_invariant]
    spec fn inv(self) -> bool {
        views_distinct(self.members@)
    }

    /// Creates an empty member set.
    pub fn new() -> (r: MemberSet)
        ensures
            r@ == Set::<Seq<char>>::empty(),
    {
        let r = MemberSet { members: Vec::new() };
        proof {
            assert(r@ =~= Set::<Seq<char>>::empty());
        }
        r
    }

    /// The number of members.
    pub fn len(&self) -> (r: usize)
        ensures
            self@.finite(),
            r == self@.len(),
    {
        proof {
            use_type_invariant(&*self);
            lemma_str_seq_set_card(self.members@);
        }
        self.members.len()
    }

    /// Membership test.
    pub fn contains(&self, member: &str) -> (r: bool)
        ensures
            r == self@.contains(member@),
    {
        let mut i: usize = 0;
        while i < self.members.len()
            invariant
                i <= self.members@.len(),
                forall|j: int| 0 <= j < i ==> self.members@[j]@ != member@,
            decreases self.members@.len() - i,
        {
            if str_eq(self.members[i].as_str(), member) {
                proof {
                    assert(self.members@[i as int]@ == member@);
                }
                return true;
            }
            i += 1;
        }
        false
    }

    /// A snapshot of the members, in no promised order.
    pub fn members(&self) -> (r: Vec<String>)
        ensures
            views_distinct(r@),
            str_seq_set(r@) == self@,
            r@.len() == self@.len(),
            self@.finite(),
    {
        proof {
            use_type_invariant(&*self);
            lemma_str_seq_set_card(self.members@);
        }
        let mut r: Vec<String> = Vec::new();
        let mut i: usize = 0;
        while i < self.members.len()
            invariant
                i <= self.members@.len(),
                r@.len() == i,
                forall|j: int| 0 <= j < i ==> r@[j] == self.members@[j],
            decreases self.members@.len() - i,
        {
            r.push(self.members[i].clone());
            i += 1;
        }
        proof {
            assert(r@ =~= self.members@);
        }
        r
    }

    /// An identical, independently owned member set.
    pub fn duplicate(&self) -> (r: MemberSet)
        ensures
            r@ == self@,
    {
        MemberSet { members: self.members() }
    }

    /// Inserts a member; returns true iff it was not already present.
    pub fn insert(&mut self, member: String) -> (r: bool)
        ensures
            final(self)@ == old(self)@.insert(member@),
            r == !old(self)@.contains(member@),
    {
        proof {
            use_type_invariant(&*self);
        }
        if self.contains(member.as_str()) {
            proof {
                assert(old(self)@.insert(member@) =~= old(self)@);
            }
            false
        } else {
            let mut v: Vec<String> = Vec::new();
            core::mem::swap(&mut v, &mut self.members);
            v.push(member);
            proof {
                assert(views_distinct(v@));
            }
            self.members = v;
            proof {
                assert(v@.subrange(0, v@.len() - 1) =~= old(self).members@);
                lemma_str_seq_set_extend(v@, v@.len() - 1);
                assert(v@.subrange(0, v@.len() as int) =~= v@);
                assert(str_seq_set(v@.subrange(0, v@.len() as int)) == str_seq_set(v@));
                assert(self@ =~= old(self)@.insert(member@));
            }
            true
        }
    }

    /// Removes a member; returns true iff it was present.
    pub fn remove(&mut self, member: &str) -> (r: bool)
        ensures
            final(self)@ == old(self)@.remove(member@),
            r == old(self)@.contains(member@),
    {
        proof {
            use_type_invariant(&*self);
        }
        let mut cur: Vec<String> = Vec::new();
        core::mem::swap(&mut cur, &mut self.members);
        let mut out: Vec<String> = Vec::new();
        let mut found = false;
        let mut i: usize = 0;
        while i < cur.len()
            invariant
                i <= cur@.len(),
                views_distinct(cur@),
                views_distinct(out@),
                str_seq_set(out@) == str_seq_set(cur@.subrange(0, i as int)).remove(member@),
                found == str_seq_set(cur@.subrange(0, i as int)).contains(member@),
            decreases cur@.len() - i,
        {
            proof {
                lemma_str_seq_set_extend(cur@, i as int);
            }
            if str_eq(cur[i].as_str(), member) {
                found = true;
                proof {
                    assert(cur@[i as int]@ == member@);
                    assert(str_seq_set(out@) =~= str_seq_set(cur@.subrange(0, i + 1)).remove(
                        member@,
                    ));
                }
            } else {
                let ghost out0 = out@;
                out.push(cur[i].clone());
                proof {
                    assert(out@.subrange(0, out@.len() - 1) =~= out0);
                    lemma_str_seq_set_extend(out@, out@.len() - 1);
                    assert(out@.subrange(0, out@.len() as int) =~= out@);
                    assert(!str_seq_set(out0).contains(cur@[i as int]@)) by {
                        if str_seq_set(cur@.subrange(0, i as int)).contains(cur@[i as int]@) {
                            let j = choose|j: int|
                                0 <= j < i && cur@.subrange(0, i as int)[j]@ == cur@[i as int]@;
                            assert(cur@[j]@ == cur@[i as int]@);
                            assert(false);
                        }
                    };
                    assert(views_distinct(out@));
                    assert(str_seq_set(out@) =~= str_seq_set(cur@.subrange(0, i + 1)).remove(
                        member@,
                    ));
                }
            }
            i += 1;
        }
        proof {
            assert(cur@.subrange(0, cur@.len() as int) =~= cur@);
        }
        self.members = out;
        found
    }

    /// The members of `self` that are not members of `other`.
    pub fn difference(&self, other: &MemberSet) -> (r: MemberSet)
        ensures
            r@ == self@.difference(other@),
    {
        proof {
            use_type_invariant(&*self);
        }
        let mut out: Vec<String> = Vec::new();
        let mut i: usize = 0;
        while i < self.members.len()
            invariant
                i <= self.members@.len(),
                views_distinct(self.members@),
                views_distinct(out@),
                str_seq_set(out@) == str_seq_set(self.members@.subrange(0, i as int)).difference(
                    other@,
                ),
            decreases self.members@.len() - i,
        {
            proof {
                lemma_str_seq_set_extend(self.members@, i as int);
            }
            if !other.contains(self.members[i].as_str()) {
                let ghost out0 = out@;
                out.push(self.members[i].clone());
                proof {
                    assert(out@.subrange(0, out@.len() - 1) =~= out0);
                    lemma_str_seq_set_extend(out@, out@.len() - 1);
                    assert(out@.subrange(0, out@.len() as int) =~= out@);
                    assert(!str_seq_set(out0).contains(self.members@[i as int]@)) by {
                        if str_seq_set(self.members@.subrange(0, i as int)).contains(
                            self.members@[i as int]@,
                        ) {
                            let j = choose|j: int|
                                0 <= j < i && self.members@.subrange(0, i as int)[j]@
                                    == self.members@[i as int]@;
                            assert(self.members@[j]@ == self.members@[i as int]@);
                            assert(false);
                        }
                    };
                    assert(views_distinct(out@));
                    assert(str_seq_set(out@) =~= str_seq_set(
                        self.members@.subrange(0, i + 1),
                    ).difference(other@));
                }
            } else {
                proof {
                    assert(str_seq_set(out@) =~= str_seq_set(
                        self.members@.subrange(0, i + 1),
                    ).difference(other@));
                }
            }
            i += 1;
        }
        proof {
            assert(self.members@.subrange(0, self.members@.len() as int) =~= self.members@);
        }
        MemberSet { members: out }
    }

    /// The members of `self` that are also members of `other`.
    pub fn intersect(&self, other: &MemberSet) -> (r: MemberSet)
        ensures
            r@ == self@.intersect(other@),
    {
        proof {
            use_type_invariant(&*self);
        }
        let mut out: Vec<String> = Vec::new();
        let mut i: usize = 0;
        while i < self.members.len()
            invariant
                i <= self.members@.len(),
                views_distinct(self.members@),
                views_distinct(out@),
                str_seq_set(out@) == str_seq_set(self.members@.subrange(0, i as int)).intersect(
                    other@,
                ),
            decreases self.members@.len() - i,
        {
            proof {
                lemma_str_seq_set_extend(self.members@, i as int);
            }
            if other.contains(self.members[i].as_str()) {
                let ghost out0 = out@;
                out.push(self.members[i].clone());
                proof {
                    assert(out@.subrange(0, out@.len() - 1) =~= out0);
                    lemma_str_seq_set_extend(out@, out@.len() - 1);
                    assert(out@.subrange(0, out@.len() as int) =~= out@);
                    assert(!str_seq_set(out0).contains(self.members@[i as int]@)) by {
                        if str_seq_set(self.members@.subrange(0, i as int)).contains(
                            self.members@[i as int]@,
                        ) {
                            let j = choose|j: int|
                                0 <= j < i && self.members@.subrange(0, i as int)[j]@
                                    == self.members@[i as int]@;
                            assert(self.members@[j]@ == self.members@[i as int]@);
                            assert(false);
                        }
                    };
                    assert(views_distinct(out@));
                    assert(str_seq_set(out@) =~= str_seq_set(
                        self.members@.subrange(0, i + 1),
                    ).intersect(other@));
                }
            } else {
                proof {
                    assert(str_seq_set(out@) =~= str_seq_set(
                        self.members@.subrange(0, i + 1),
                    ).intersect(other@));
                }
            }
            i += 1;
        }
        proof {
            assert(self.members@.subrange(0, self.members@.len() as int) =~= self.members@);
        }
        MemberSet { members: out }
    }

    /// All members of `self` together with all members of `other`.
    pub fn union_with(&self, other: &MemberSet) -> (r: MemberSet)
        ensures
            r@ == self@.union(other@),
    {
        proof {
            use_type_invariant(&*other);
        }
        let mut acc = self.duplicate();
        let mut i: usize = 0;
        while i < other.members.len()
            invariant
                i <= other.members@.len(),
                acc@ == self@.union(str_seq_set(other.members@.subrange(0, i as int))),
            decreases other.members@.len() - i,
        {
            proof {
                lemma_str_seq_set_extend(other.members@, i as int);
            }
            acc.insert(other.members[i].clone());
            proof {
                assert(acc@ =~= self@.union(str_seq_set(other.members@.subrange(0, i + 1))));
            }
            i += 1;
        }
        proof {
            assert(other.members@.subrange(0, other.members@.len() as int) =~= other.members@);
            assert(str_seq_set(other.members@) == other@);
        }
        acc
    }
}

} // verus!
