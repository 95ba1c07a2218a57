//! Sets of users.

use std::collections::HashSet;
use vstd::prelude::*;
use vstd::std_specs::hash::spec_hash_keys_iter;
use vstd::std_specs::iter::IteratorSpec;

verus! {

/// Whether `items` lists each member of `set` once and nothing else.
pub open spec fn enumerates<A>(items: Seq<A>, set: Set<A>) -> bool {
    items.no_duplicates() && items.to_set() == set
}

/// A set of users, by their ids.
pub struct UserSet {
    ids: HashSet<u32>,
}

impl UserSet {
    pub closed spec fn view(&self) -> Set<u32> {
        self.ids@
    }

    pub fn new() -> (users: UserSet)
        ensures
            users@ == Set::<u32>::empty(),
    {
        UserSet { ids: HashSet::new() }
    }

    pub fn contains(&self, user_id: u32) -> (contains: bool)
        ensures
            contains == self@.contains(user_id),
    {
        self.ids.contains(&user_id)
    }

    pub fn is_empty(&self) -> (empty: bool)
        ensures
            empty == (self@ == Set::<u32>::empty()),
    {
        proof {
            if self@.is_empty() {
                assert(self@ =~= Set::<u32>::empty());
            }
        }
        self.ids.is_empty()
    }

    pub fn insert(&mut self, user_id: u32)
        ensures
            final(self)@ == old(self)@.insert(user_id),
    {
        self.ids.insert(user_id);
    }

    pub fn remove(&mut self, user_id: u32)
        ensures
            final(self)@ == old(self)@.remove(user_id),
    {
        self.ids.remove(&user_id);
    }

    /// The ids, each once, in any order.
    pub fn ids(&self) -> (ids: Vec<u32>)
        ensures
            enumerates(ids@, self@),
    {
        let mut ids: Vec<u32> = Vec::new();
        let ghost all: Seq<u32> = spec_hash_keys_iter(&self.ids).remaining().unref();
        for id in it: self.ids.iter()
            invariant
                it.seq().unref() == all,
                it.seq().no_duplicates(),
                all.to_set() == self@,
                ids@ == all.take(it.index() as int),
                forall|i: int, j: int| 0 <= i < j < all.len() ==> all[i] != all[j],
        {
            ids.push(*id);
            proof {
                assert(all.take(it.index() as int).push(*id) =~= all.take(it.index() + 1));
            }
        }
        proof {
            assert(all.take(all.len() as int) =~= all);
        }
        ids
    }

    /// The ids of users that are in `other` too, each once, in any order.
    pub fn common(&self, other: &UserSet) -> (ids: Vec<u32>)
        ensures
            enumerates(ids@, self@.intersect(other@)),
    {
        let all = self.ids();
        let mut ids: Vec<u32> = Vec::new();
        let mut i: usize = 0;
        while i < all.len()
            invariant
                i <= all@.len(),
                all@.no_duplicates(),
                ids@.no_duplicates(),
                forall|u: u32| #[trigger]
                    ids@.contains(u) <==> all@.take(i as int).contains(u) && other@.contains(u),
            decreases all@.len() - i,
        {
            let ghost before = ids@;
            let id: u32 = all[i];
            let ghost shorter = all@.take(i as int);
            let ghost longer = all@.take(i + 1);
            proof {
                assert(longer =~= shorter.push(id));
                assert forall|u: u32| #[trigger]
                    longer.contains(u) <==> shorter.contains(u) || u == id by {
                    if shorter.contains(u) {
                        let j = choose|j: int| 0 <= j < shorter.len() && shorter[j] == u;
                        assert(longer[j] == u);
                    }
                    assert(longer[i as int] == id);
                }
                assert(!shorter.contains(id));
            }
            if other.contains(id) {
                proof {
                    assert(!before.contains(id));
                }
                ids.push(id);
                proof {
                    assert forall|u: u32| #[trigger]
                        ids@.contains(u) <==> before.contains(u) || u == id by {
                        if before.contains(u) {
                            let j = choose|j: int| 0 <= j < before.len() && before[j] == u;
                            assert(ids@[j] == u);
                        }
                        assert(ids@[before.len() as int] == id);
                    }
                }
            }
            i = i + 1;
            proof {
                assert forall|u: u32| #[trigger]
                    ids@.contains(u) <==> longer.contains(u) && other@.contains(u) by {
                    assert(before.contains(u) <==> shorter.contains(u) && other@.contains(u));
                }
            }
        }
        proof {
            assert(all@.take(i as int) =~= all@);
            assert forall|u: u32| #[trigger]
                ids@.to_set().contains(u) == self@.intersect(other@).contains(u) by {
                assert(all@.to_set().contains(u) == self@.contains(u));
            }
            assert(ids@.to_set() =~= self@.intersect(other@));
        }
        ids
    }
}

impl Clone for UserSet {
    fn clone(&self) -> (copy: Self)
        ensures
            copy@ == self@,
    {
        let all = self.ids();
        let mut ids: HashSet<u32> = HashSet::new();
        let mut i: usize = 0;
        proof {
            assert(all@.take(0).to_set() =~= Set::<u32>::empty());
        }
        while i < all.len()
            invariant
                i <= all@.len(),
                ids@ == all@.take(i as int).to_set(),
            decreases all@.len() - i,
        {
            ids.insert(all[i]);
            proof {
                let shorter = all@.take(i as int);
                let longer = all@.take(i + 1);
                assert(longer =~= shorter.push(all@[i as int]));
                assert(longer.to_set() =~= shorter.to_set().insert(all@[i as int])) by {
                    assert forall|u: u32| shorter.contains(u) implies longer.contains(u) by {
                        let j = choose|j: int| 0 <= j < shorter.len() && shorter[j] == u;
                        assert(longer[j] == u);
                    }
                    assert(longer[i as int] == all@[i as int]);
                }
            }
            i = i + 1;
        }
        proof {
            assert(all@.take(i as int) =~= all@);
        }
        UserSet { ids }
    }
}

/// A set of users holds exactly those who were added and not taken out since, and lists each once.
pub proof fn law_users_are_a_set(
    added: &mut UserSet,
    taken: &mut UserSet,
    user_id: u32,
    set: &UserSet,
    other: &UserSet,
    user: u32,
    contains: bool,
    empty: bool,
    new: UserSet,
    ids: Vec<u32>,
    common: Vec<u32>,
    copy: UserSet,
)
    requires
        call_ensures(UserSet::insert, (added, user_id), ()),
        call_ensures(UserSet::remove, (taken, user_id), ()),
        call_ensures(UserSet::contains, (set, user), contains),
        call_ensures(UserSet::is_empty, (set,), empty),
        call_ensures(UserSet::new, (), new),
        call_ensures(UserSet::ids, (set,), ids),
        call_ensures(UserSet::common, (set, other), common),
        call_ensures(UserSet::clone, (set,), copy),
    ensures
        final(added)@.contains(user) <==> user == user_id || old(added)@.contains(user),
        final(taken)@.contains(user) <==> user != user_id && old(taken)@.contains(user),
        contains <==> set@.contains(user),
        empty ==> !contains,
        !new@.contains(user),
        ids@.no_duplicates(),
        ids@.contains(user) <==> set@.contains(user),
        common@.no_duplicates(),
        common@.contains(user) <==> set@.contains(user) && other@.contains(user),
        copy@.contains(user) <==> set@.contains(user),
{
    assert(ids@.to_set().contains(user) <==> ids@.contains(user));
    assert(common@.to_set().contains(user) <==> common@.contains(user));
}

} // verus!
