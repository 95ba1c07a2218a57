//! The keys of cached answers about blocks that may still be reorganized.

use crate::text::same_bytes;
use std::collections::BTreeMap;
use vstd::prelude::*;
use vstd::std_specs::btree::spec_keys_iter;
use vstd::std_specs::iter::IteratorSpec;

verus! {

/// The keys of a list.
pub open spec fn key_set(keys: Seq<Vec<u8>>) -> Set<Seq<u8>> {
    Set::new(|key: Seq<u8>| exists|i: int| 0 <= i < keys.len() && (#[trigger] keys[i])@ == key)
}

/// No key stands in a list twice.
pub open spec fn distinct_keys(keys: Seq<Vec<u8>>) -> bool {
    forall|i: int, j: int|
        0 <= i < j < keys.len() ==> (#[trigger] keys[i])@ != (#[trigger] keys[j])@
}

proof fn lemma_key_count(keys: Seq<Vec<u8>>)
    requires
        distinct_keys(keys),
    ensures
        key_set(keys).finite(),
        key_set(keys).len() == keys.len(),
    decreases keys.len(),
{
    if keys.len() == 0 {
        assert(key_set(keys) =~= Set::empty());
    } else {
        let shorter = keys.drop_last();
        let last = keys.last()@;
        assert forall|i: int, j: int| 0 <= i < j < shorter.len() implies (
        #[trigger] shorter[i])@ != (#[trigger] shorter[j])@ by {
            assert(shorter[i] == keys[i] && shorter[j] == keys[j]);
        }
        lemma_key_count(shorter);
        assert(!key_set(shorter).contains(last)) by {
            assert forall|i: int| 0 <= i < shorter.len() implies (#[trigger] shorter[i])@
                != last by {
                assert(keys[i]@ != keys[keys.len() - 1]@);
            }
        }
        assert(key_set(keys) =~= key_set(shorter).insert(last)) by {
            assert forall|k: Seq<u8>| key_set(shorter).insert(last).contains(k) implies key_set(
                keys,
            ).contains(k) by {
                if k == last {
                    assert(keys[keys.len() - 1]@ == k);
                } else {
                    let i = choose|i: int|
                        0 <= i < shorter.len() && (#[trigger] shorter[i])@ == k;
                    assert(keys[i]@ == k);
                }
            }
            assert forall|k: Seq<u8>| key_set(keys).contains(k) implies key_set(shorter).insert(
                last,
            ).contains(k) by {
                let i = choose|i: int| 0 <= i < keys.len() && (#[trigger] keys[i])@ == k;
                if i < shorter.len() {
                    assert(shorter[i]@ == k);
                }
            }
        }
    }
}

/// For each block that is not final the keys of the cached answers about it.
pub struct HeadCache {
    blocks: BTreeMap<u64, Vec<Vec<u8>>>,
}

/// The keys under each number.
spec fn blocks_view(blocks: Map<u64, Vec<Vec<u8>>>) -> Map<u64, Set<Seq<u8>>> {
    blocks.map_values(|keys: Vec<Vec<u8>>| key_set(keys@))
}

/// The numbers of the blocks that a reorganization replaces.
pub open spec fn reorganized(new_block: u64, block_number: u64) -> Set<u64> {
    Set::new(|number: u64| new_block <= number <= block_number)
}

/// The keys that `held` has under the numbers in `numbers`.
pub open spec fn keys_at(held: Map<u64, Set<Seq<u8>>>, numbers: Set<u64>) -> Set<Seq<u8>> {
    Set::new(
        |key: Seq<u8>|
            exists|number: u64| #[trigger]
                held.contains_key(number) && numbers.contains(number) && held[number].contains(
                    key,
                ),
    )
}

/// `held` with `key` under `number`.
pub open spec fn tracking(
    held: Map<u64, Set<Seq<u8>>>,
    number: u64,
    key: Seq<u8>,
) -> Map<u64, Set<Seq<u8>>> {
    if held.contains_key(number) {
        held.insert(number, held[number].insert(key))
    } else {
        held.insert(number, set![key])
    }
}

impl HeadCache {
    pub closed spec fn view(&self) -> Map<u64, Set<Seq<u8>>> {
        blocks_view(self.blocks@)
    }

    /// No key is listed twice under one number.
    pub closed spec fn wf(&self) -> bool {
        forall|number: u64| #[trigger]
            self.blocks@.contains_key(number) ==> distinct_keys(self.blocks@[number]@)
    }

    pub fn new() -> (cache: HeadCache)
        ensures
            cache.wf(),
            cache@ == Map::<u64, Set<Seq<u8>>>::empty(),
    {
        let cache = HeadCache { blocks: BTreeMap::new() };
        proof {
            assert(cache@ =~= Map::<u64, Set<Seq<u8>>>::empty());
        }
        cache
    }

    /// Whether keys are tracked under a number.
    pub fn contains_key(&self, number: u64) -> (contains: bool)
        ensures
            contains == self@.contains_key(number),
    {
        self.blocks.contains_key(&number)
    }

    /// Whether nothing is tracked.
    pub fn is_empty(&self) -> (empty: bool)
        ensures
            empty == (self@ == Map::<u64, Set<Seq<u8>>>::empty()),
    {
        proof {
            if self.blocks@.is_empty() {
                assert(self@ =~= Map::<u64, Set<Seq<u8>>>::empty());
            } else {
                let number = choose|number: u64| self.blocks@.contains_key(number);
                assert(self@.contains_key(number));
            }
        }
        self.blocks.is_empty()
    }

    /// Whether a list of keys holds `key`.
    fn has_key(keys: &Vec<Vec<u8>>, key: &Vec<u8>) -> (has: bool)
        ensures
            has == key_set(keys@).contains(key@),
    {
        let mut i: usize = 0;
        while i < keys.len()
            invariant
                i <= keys@.len(),
                forall|j: int| 0 <= j < i ==> (#[trigger] keys@[j])@ != key@,
            decreases keys@.len() - i,
        {
            if same_bytes(&keys[i], key) {
                return true;
            }
            i = i + 1;
        }
        false
    }

    /// How many keys are tracked under a number.
    pub fn count(&self, number: u64) -> (count: usize)
        requires
            self.wf(),
        ensures
            count == if self@.contains_key(number) {
                self@[number].len()
            } else {
                0
            },
    {
        match self.blocks.get(&number) {
            Some(keys) => {
                proof {
                    lemma_key_count(keys@);
                }
                keys.len()
            },
            None => 0,
        }
    }

    /// Tracks `key` under `number`.
    pub fn track(&mut self, number: u64, key: Vec<u8>)
        requires
            old(self).wf(),
        ensures
            final(self).wf(),
            final(self)@ == tracking(old(self)@, number, key@),
    {
        let ghost before = self.blocks@;
        let mut keys: Vec<Vec<u8>> = match self.blocks.remove(&number) {
            Some(keys) => keys,
            None => Vec::new(),
        };
        let ghost held = keys@;
        if !HeadCache::has_key(&keys, &key) {
            keys.push(key);
            proof {
                assert forall|k: Seq<u8>| key_set(held).contains(k) implies key_set(
                    keys@,
                ).contains(k) by {
                    let i = choose|i: int| 0 <= i < held.len() && (#[trigger] held[i])@ == k;
                    assert(keys@[i]@ == k);
                }
                assert(keys@[held.len() as int]@ == key@);
            }
        }
        self.blocks.insert(number, keys);
        proof {
            assert(key_set(keys@) =~= key_set(held).insert(key@));
            if !before.contains_key(number) {
                assert(key_set(held) =~= Set::empty());
                assert(key_set(keys@) =~= set![key@]);
            }
            assert(self.blocks@ =~= before.insert(number, keys));
            assert(self@ =~= tracking(old(self)@, number, key@));
        }
    }
}

/// Takes the keys under the numbers of a reorganization out of the tracking: the answers behind
/// them are to be deleted from the cache.
pub fn handle_reorg(
    head_cache: &mut HeadCache,
    block_number: u64,
    new_block: u64,
) -> (batch: Vec<Vec<u8>>)
    requires
        old(head_cache).wf(),
        new_block <= block_number,
    ensures
        final(head_cache).wf(),
        final(head_cache)@ == old(head_cache)@.remove_keys(reorganized(new_block, block_number)),
        key_set(batch@) == keys_at(old(head_cache)@, reorganized(new_block, block_number)),
{
    let ghost gone = reorganized(new_block, block_number);
    let ghost before = head_cache.blocks@;
    let ghost all: Seq<u64> = spec_keys_iter(&head_cache.blocks).remaining().unref();
    let mut numbers: Vec<u64> = Vec::new();
    for number in it: head_cache.blocks.keys()
        invariant
            gone == reorganized(new_block, block_number),
            it.seq().unref() == all,
            forall|n: u64| #[trigger]
                numbers@.contains(n) <==> all.take(it.index() as int).contains(n)
                    && gone.contains(n),
    {
        let ghost shorter = all.take(it.index() as int);
        let ghost listed = numbers@;
        if new_block <= *number && *number <= block_number {
            numbers.push(*number);
        }
        proof {
            let longer = all.take(it.index() + 1);
            assert(longer =~= shorter.push(*number));
            assert forall|n: u64| #[trigger]
                numbers@.contains(n) <==> longer.contains(n) && gone.contains(n) by {
                if shorter.contains(n) {
                    let j = choose|j: int| 0 <= j < shorter.len() && shorter[j] == n;
                    assert(longer[j] == n);
                }
                assert(longer[shorter.len() as int] == *number);
                if listed.contains(n) {
                    let j = choose|j: int| 0 <= j < listed.len() && listed[j] == n;
                    assert(numbers@[j] == n);
                }
                if gone.contains(*number) {
                    assert(numbers@[listed.len() as int] == *number);
                }
            }
        }
    }
    proof {
        assert(all.take(all.len() as int) =~= all);
        assert forall|n: u64| #[trigger] numbers@.contains(n) <==> before.contains_key(n)
            && gone.contains(n) by {
            assert(all.to_set().contains(n) == before.dom().contains(n));
        }
    }
    let mut batch: Vec<Vec<u8>> = Vec::new();
    let mut i: usize = 0;
    while i < numbers.len()
        invariant
            i <= numbers@.len(),
            head_cache.blocks@ == before.remove_keys(numbers@.take(i as int).to_set()),
            forall|n: u64| #[trigger] numbers@.contains(n) <==> before.contains_key(n)
                && gone.contains(n),
            forall|k: Seq<u8>|
                key_set(batch@).contains(k) <==> exists|n: u64| #[trigger]
                    numbers@.take(i as int).contains(n) && key_set(before[n]@).contains(k),
        decreases numbers@.len() - i,
    {
        let number: u64 = numbers[i];
        let ghost shorter = numbers@.take(i as int);
        let ghost longer = numbers@.take(i + 1);
        let ghost collected = batch@;
        proof {
            assert(longer =~= shorter.push(number));
            assert forall|n: u64| #[trigger]
                longer.contains(n) <==> shorter.contains(n) || n == number by {
                if shorter.contains(n) {
                    let j = choose|j: int| 0 <= j < shorter.len() && shorter[j] == n;
                    assert(longer[j] == n);
                }
                assert(longer[i as int] == number);
            }
            assert(numbers@.contains(number));
        }
        if let Some(keys) = head_cache.blocks.remove(&number) {
            let mut keys = keys;
            let ghost removed = keys@;
            batch.append(&mut keys);
            proof {
                lemma_key_set_add(collected, removed);
                assert(before[number]@ == removed);
            }
        }
        proof {
            assert(head_cache.blocks@ =~= before.remove_keys(longer.to_set()));
            assert forall|k: Seq<u8>|
                key_set(batch@).contains(k) <==> exists|n: u64| #[trigger]
                    longer.contains(n) && key_set(before[n]@).contains(k) by {
                if exists|n: u64| #[trigger]
                    longer.contains(n) && key_set(before[n]@).contains(k) {
                    let n = choose|n: u64| #[trigger]
                        longer.contains(n) && key_set(before[n]@).contains(k);
                    if shorter.contains(n) {
                        assert(key_set(collected).contains(k));
                    }
                }
                if key_set(collected).contains(k) {
                    let n = choose|n: u64| #[trigger]
                        shorter.contains(n) && key_set(before[n]@).contains(k);
                    assert(longer.contains(n));
                }
                assert(longer.contains(number));
            }
        }
        i = i + 1;
    }
    proof {
        assert(numbers@.take(i as int) =~= numbers@);
        assert(head_cache@ =~= old(head_cache)@.remove_keys(gone));
        assert(key_set(batch@) =~= keys_at(old(head_cache)@, gone)) by {
            assert forall|k: Seq<u8>| keys_at(old(head_cache)@, gone).contains(
                k,
            ) implies key_set(batch@).contains(k) by {
                let n = choose|n: u64| #[trigger]
                    old(head_cache)@.contains_key(n) && gone.contains(n) && old(
                        head_cache,
                    )@[n].contains(k);
                assert(numbers@.contains(n));
            }
            assert forall|k: Seq<u8>| key_set(batch@).contains(k) implies keys_at(
                old(head_cache)@,
                gone,
            ).contains(k) by {
                let n = choose|n: u64| #[trigger]
                    numbers@.contains(n) && key_set(before[n]@).contains(k);
                assert(old(head_cache)@.contains_key(n));
            }
        }
    }
    batch
}

proof fn lemma_key_set_add(a: Seq<Vec<u8>>, b: Seq<Vec<u8>>)
    ensures
        forall|k: Seq<u8>| #[trigger]
            key_set(a + b).contains(k) <==> key_set(a).contains(k) || key_set(b).contains(k),
{
    assert forall|k: Seq<u8>| #[trigger]
        key_set(a + b).contains(k) <==> key_set(a).contains(k) || key_set(b).contains(k) by {
        if key_set(a).contains(k) {
            let i = choose|i: int| 0 <= i < a.len() && (#[trigger] a[i])@ == k;
            assert((a + b)[i]@ == k);
        }
        if key_set(b).contains(k) {
            let i = choose|i: int| 0 <= i < b.len() && (#[trigger] b[i])@ == k;
            assert((a + b)[a.len() + i]@ == k);
        }
        if key_set(a + b).contains(k) {
            let i = choose|i: int| 0 <= i < (a + b).len() && (#[trigger] (a + b)[i])@ == k;
            if i < a.len() {
                assert(a[i]@ == k);
            } else {
                assert(b[i - a.len()]@ == k);
            }
        }
    }
}

/// Stops tracking the keys of blocks up to `block_number`: a final block is not reorganized, so
/// the answers about it stay in the cache.
pub fn remove_stale(head_cache: &mut HeadCache, block_number: u64)
    requires
        old(head_cache).wf(),
    ensures
        final(head_cache).wf(),
        final(head_cache)@ == old(head_cache)@.remove_keys(reorganized(0, block_number)),
{
    handle_reorg(head_cache, block_number, 0);
}

/// Follows the head of the chain.
pub struct HeadFollower {
    pub block_number: u64,
}

impl HeadFollower {
    pub fn new() -> (follower: HeadFollower)
        ensures
            follower.block_number == 0,
    {
        HeadFollower { block_number: 0 }
    }

    /// Takes in a new head. One that is not above the last one is a reorganization: the keys under
    /// its numbers come back, to be deleted from the cache.
    pub fn new_head(&mut self, head_cache: &mut HeadCache, new_block: u64) -> (batch: Option<
        Vec<Vec<u8>>,
    >)
        requires
            old(head_cache).wf(),
        ensures
            final(self).block_number == new_block,
            final(head_cache).wf(),
            match batch {
                Some(batch) => {
                    let gone = reorganized(new_block, old(self).block_number);
                    &&& new_block <= old(self).block_number
                    &&& final(head_cache)@ == old(head_cache)@.remove_keys(gone)
                    &&& key_set(batch@) == keys_at(old(head_cache)@, gone)
                },
                None => {
                    &&& new_block > old(self).block_number
                    &&& final(head_cache)@ == old(head_cache)@
                },
            },
    {
        let batch = if new_block <= self.block_number {
            Some(handle_reorg(head_cache, self.block_number, new_block))
        } else {
            None
        };
        self.block_number = new_block;
        batch
    }
}

/// After a reorganization nothing is tracked under its numbers, what is tracked elsewhere stays,
/// and each key is either still tracked or was handed out for deletion.
pub proof fn law_reorg_forgets_exactly(
    held: Map<u64, Set<Seq<u8>>>,
    new_block: u64,
    block_number: u64,
    number: u64,
    key: Seq<u8>,
)
    requires
        held.contains_key(number),
        held[number].contains(key),
    ensures
        ({
            let gone = reorganized(new_block, block_number);
            let left = held.remove_keys(gone);
            if new_block <= number <= block_number {
                !left.contains_key(number) && keys_at(held, gone).contains(key)
            } else {
                left.contains_key(number) && left[number] == held[number]
            }
        }),
{
}

/// A key that is tracked under a block is handed out for deletion by each reorganization that
/// replaces the block.
pub proof fn law_tracked_key_is_deleted(
    held: Map<u64, Set<Seq<u8>>>,
    number: u64,
    key: Seq<u8>,
    new_block: u64,
    block_number: u64,
)
    requires
        new_block <= number <= block_number,
    ensures
        keys_at(tracking(held, number, key), reorganized(new_block, block_number)).contains(key),
{
    assert(tracking(held, number, key).contains_key(number));
}

/// Tracking a key under a block a second time changes nothing, and what else is tracked stays.
pub proof fn law_tracking_twice(
    held: Map<u64, Set<Seq<u8>>>,
    number: u64,
    key: Seq<u8>,
    other: u64,
)
    requires
        other != number,
    ensures
        tracking(tracking(held, number, key), number, key) == tracking(held, number, key),
        tracking(held, number, key).contains_key(other) == held.contains_key(other),
        held.contains_key(other) ==> tracking(held, number, key)[other] == held[other],
{
    let once = tracking(held, number, key);
    assert(once[number].insert(key) =~= once[number]);
    assert(tracking(once, number, key) =~= once);
}

/// Once a block is final, only later blocks are tracked, and all of these are.
pub proof fn law_finality_keeps_later_blocks(
    held: Map<u64, Set<Seq<u8>>>,
    block_number: u64,
    number: u64,
)
    ensures
        held.remove_keys(reorganized(0, block_number)).contains_key(number) <==> number
            > block_number && held.contains_key(number),
{
}

/// Following a key under a block adds exactly this key under exactly this block.
pub proof fn law_following_adds_one_key(
    cache: &mut HeadCache,
    number: u64,
    key: Vec<u8>,
    other: u64,
    any: Seq<u8>,
)
    requires
        call_ensures(HeadCache::track, (cache, number, key), ()),
    ensures
        final(cache)@.contains_key(other) <==> other == number || old(cache)@.contains_key(other),
        final(cache)@.contains_key(other) && final(cache)@[other].contains(any) <==> (other
            == number && any == key@) || (old(cache)@.contains_key(other)
            && old(cache)@[other].contains(any)),
{
}

/// A reorganization hands out exactly the keys under the blocks from the new one up to the old
/// head, and stops following these blocks and no others.
pub proof fn law_reorg_hands_out_replaced_blocks(
    cache: &mut HeadCache,
    block_number: u64,
    new_block: u64,
    batch: Vec<Vec<u8>>,
    number: u64,
    key: Vec<u8>,
)
    requires
        call_ensures(handle_reorg, (cache, block_number, new_block), batch),
    ensures
        final(cache)@.contains_key(number) <==> old(cache)@.contains_key(number) && !(new_block
            <= number <= block_number),
        final(cache)@.contains_key(number) ==> final(cache)@[number] == old(cache)@[number],
        (exists|i: int| 0 <= i < batch@.len() && (#[trigger] batch@[i])@ == key@) <==> exists|
            n: u64,
        | #[trigger]
            old(cache)@.contains_key(n) && new_block <= n <= block_number && old(
                cache,
            )@[n].contains(key@),
{
    let gone = reorganized(new_block, block_number);
    assert(key_set(batch@).contains(key@) <==> keys_at(old(cache)@, gone).contains(key@));
    if exists|n: u64| #[trigger]
        old(cache)@.contains_key(n) && new_block <= n <= block_number && old(cache)@[n].contains(
            key@,
        ) {
        let n = choose|n: u64| #[trigger]
            old(cache)@.contains_key(n) && new_block <= n <= block_number && old(
                cache,
            )@[n].contains(key@);
        assert(gone.contains(n));
    }
    if keys_at(old(cache)@, gone).contains(key@) {
        let n = choose|n: u64| #[trigger]
            old(cache)@.contains_key(n) && gone.contains(n) && old(cache)@[n].contains(key@);
        assert(new_block <= n <= block_number);
    }
}

/// A block that is final, and every one before it, is not followed any more; every later one is, as
/// it was.
pub proof fn law_final_blocks_are_not_followed(
    cache: &mut HeadCache,
    block_number: u64,
    number: u64,
)
    requires
        call_ensures(remove_stale, (cache, block_number), ()),
    ensures
        final(cache)@.contains_key(number) <==> old(cache)@.contains_key(number) && number
            > block_number,
        final(cache)@.contains_key(number) ==> final(cache)@[number] == old(cache)@[number],
{
}

/// A head is a reorganization exactly where it is not above the one before. It hands out the keys
/// under the blocks that it replaces; any other head changes nothing of what is followed. Either
/// way it is the head from then on.
pub proof fn law_head_not_above_is_a_reorg(
    follower: &mut HeadFollower,
    cache: &mut HeadCache,
    new_block: u64,
    batch: Option<Vec<Vec<u8>>>,
    number: u64,
    key: Seq<u8>,
)
    requires
        call_ensures(HeadFollower::new_head, (follower, cache, new_block), batch),
    ensures
        final(follower).block_number == new_block,
        batch is Some <==> new_block <= old(follower).block_number,
        batch is None ==> final(cache)@ == old(cache)@,
        batch is Some ==> {
            let replaced = new_block <= number <= old(follower).block_number;
            &&& (final(cache)@.contains_key(number) <==> old(cache)@.contains_key(number)
                && !replaced)
            &&& final(cache)@.contains_key(number) ==> final(cache)@[number] == old(cache)@[number]
            &&& replaced && old(cache)@.contains_key(number) && old(cache)@[number].contains(key)
                ==> exists|i: int| 0 <= i < batch->0@.len() && (#[trigger] batch->0@[i])@ == key
        },
{
    if let Some(list) = batch {
        let gone = reorganized(new_block, old(follower).block_number);
        if new_block <= number <= old(follower).block_number && old(cache)@.contains_key(number)
            && old(cache)@[number].contains(key) {
            assert(keys_at(old(cache)@, gone).contains(key));
            assert(key_set(list@).contains(key));
        }
    }
}

/// What is followed is counted and found block by block.
pub proof fn law_followed_keys_are_counted(
    cache: &HeadCache,
    number: u64,
    contains: bool,
    empty: bool,
    count: usize,
    new: HeadCache,
    follower: HeadFollower,
)
    requires
        cache.wf(),
        call_ensures(HeadCache::contains_key, (cache, number), contains),
        call_ensures(HeadCache::is_empty, (cache,), empty),
        call_ensures(HeadCache::count, (cache, number), count),
        call_ensures(HeadCache::new, (), new),
        call_ensures(HeadFollower::new, (), follower),
    ensures
        contains <==> cache@.contains_key(number),
        empty ==> !contains,
        count == if contains {
            cache@[number].len()
        } else {
            0
        },
        !new@.contains_key(number),
        follower.block_number == 0,
{
}

} // verus!
