use hurricane::block_cache::{AsyncBlockCache, BLOCK_SIZE, CACHE_SIZE};
use hurricane::lfu_cache::{Cache, LFUCache, Node};
use std::cmp::Ordering;

fn empty3() -> LFUCache<u64, u32, 3> {
    LFUCache::empty([Node::new(100, 0), Node::new(101, 0), Node::new(102, 0)])
}

#[test]
fn get_on_empty_cache_misses() {
    let mut c = empty3();
    assert_eq!(c.get(&100), None);
    assert!(c.all().is_empty());
}

#[test]
fn put_then_get_returns_value() {
    let mut c = empty3();
    assert_eq!(c.put(&1, 10), None);
    assert_eq!(c.put(&2, 20), None);
    assert_eq!(c.get(&1), Some(10));
    assert_eq!(c.get(&2), Some(20));
    assert_eq!(c.get(&3), None);
    assert_eq!(c.all(), vec![(1, 10), (2, 20)]);
}

#[test]
fn put_existing_key_overwrites_in_place() {
    let mut c = empty3();
    c.put(&1, 10);
    c.put(&1, 11);
    assert_eq!(c.all(), vec![(1, 11)]);
    assert_eq!(c.get(&1), Some(11));
}

#[test]
fn full_cache_evicts_least_frequently_used() {
    let mut c = empty3();
    c.fill(&1, 10);
    c.fill(&2, 20);
    c.fill(&3, 30);
    // uses: 1 -> 3, 2 -> 2, 3 -> 1
    c.get(&1);
    c.get(&1);
    c.get(&2);
    // key 3 is evicted; it was only filled, so nothing to write back
    assert_eq!(c.put(&4, 40), None);
    assert_eq!(c.get(&3), None);
    assert_eq!(c.get(&4), Some(40));
    assert_eq!(c.get(&1), Some(10));
    assert_eq!(c.get(&2), Some(20));
}

#[test]
fn ties_evict_least_recently_used() {
    let mut c = empty3();
    c.put(&1, 10);
    c.put(&2, 20);
    c.put(&3, 30);
    // all used once; key 1 was used longest ago
    c.put(&4, 40);
    assert_eq!(c.get(&1), None);
    assert_eq!(c.get(&2), Some(20));
    assert_eq!(c.get(&3), Some(30));
}

#[test]
fn evicting_written_slot_hands_it_back() {
    let mut c = empty3();
    c.put(&1, 10);
    c.put(&2, 20);
    c.put(&3, 30);
    // overwrite 1: marked written, 2 uses
    c.put(&1, 11);
    c.get(&2);
    c.get(&2);
    c.get(&3);
    c.get(&3);
    // now 1 has 2 uses, 2 and 3 have 3 uses: 1 goes, and must be written back
    assert_eq!(c.put(&4, 40), Some((1, 11)));
    assert_eq!(c.get(&1), None);
}

#[test]
fn init_cache_is_full() {
    let mut c: LFUCache<u64, u32, 2> = LFUCache::init([Node::new(7, 70), Node::new(8, 80)]);
    assert_eq!(c.get(&7), Some(70));
    assert_eq!(c.all(), vec![(7, 70), (8, 80)]);
    // full: the slot never used (8) goes
    assert_eq!(c.put(&9, 90), None);
    assert_eq!(c.get(&8), None);
    assert_eq!(c.get(&9), Some(90));
}

#[test]
fn put_of_key_held_by_free_slots_is_read_back() {
    // the free slots hold key 0; a put of key 0 takes a slot and is found
    let mut c: LFUCache<u64, u32, 2> = LFUCache::empty([Node::new(0, 0), Node::new(0, 0)]);
    assert_eq!(c.put(&0, 5), None);
    assert_eq!(c.get(&0), Some(5));
    assert_eq!(c.all(), vec![(0, 5)]);
}

#[test]
fn evicted_written_key_is_handed_back() {
    let mut c: LFUCache<u64, u32, 1> = LFUCache::empty([Node::new(0, 0)]);
    assert_eq!(c.put(&5, 50), None);
    assert_eq!(c.put(&6, 60), Some((5, 50)));
    assert_eq!(c.get(&6), Some(60));
}

#[test]
fn evicted_filled_key_is_not_handed_back() {
    let mut c: LFUCache<u64, u32, 1> = LFUCache::empty([Node::new(0, 0)]);
    assert_eq!(c.fill(&5, 50), None);
    assert_eq!(c.fill(&6, 60), None);
    // a fill of a written key keeps its written mark
    assert_eq!(c.put(&6, 61), None);
    assert_eq!(c.fill(&6, 62), None);
    assert_eq!(c.fill(&7, 70), Some((6, 62)));
}

#[test]
fn counters_fit_on_fresh_cache() {
    let c = empty3();
    assert!(c.counters_fit_now(&1));
}

#[test]
fn node_order_by_count_then_time() {
    let a: Node<u64, u32> = Node::new(1, 1);
    let b: Node<u64, u32> = Node::new(2, 2);
    assert_eq!(a.cmp(&b), Ordering::Equal);
    assert_eq!(a.partial_cmp(&b), Some(Ordering::Equal));
    assert!(a == b);
}

#[test]
fn block_cache_read_miss_then_hit() {
    let mut cache = AsyncBlockCache::init(0);
    assert_eq!(cache.read_block_lookup(5), None);
    let mut data = [0u8; BLOCK_SIZE];
    data[0] = 42;
    assert_eq!(cache.read_block_fill(5, data), None);
    assert_eq!(cache.read_block_lookup(5), Some(data));
}

#[test]
fn block_cache_write_and_sync() {
    let mut cache = AsyncBlockCache::init(0);
    let mut a = [0u8; BLOCK_SIZE];
    a[1] = 1;
    let mut b = [0u8; BLOCK_SIZE];
    b[2] = 2;
    assert_eq!(cache.write_block(3, a), None);
    assert_eq!(cache.write_block(4, b), None);
    let writes = cache.sync();
    assert_eq!(writes, vec![(3, a), (4, b)]);
    let through = cache.write_sync(4, a);
    assert_eq!(through, vec![(4, a)]);
}

#[test]
fn block_cache_full_writes_back_dirty_victim() {
    let mut cache = AsyncBlockCache::init(0);
    for id in 1..=CACHE_SIZE {
        assert_eq!(cache.write_block(id, [id as u8; BLOCK_SIZE]), None);
    }
    // rewrite block 1: it is now written and used twice
    assert_eq!(cache.write_block(1, [7u8; BLOCK_SIZE]), None);
    // use every other block twice more so that block 1 is the least used
    for id in 2..=CACHE_SIZE {
        cache.read_block_lookup(id);
        cache.read_block_lookup(id);
    }
    let wb = cache.write_block(1000, [9u8; BLOCK_SIZE]);
    assert_eq!(wb, Some((1, [7u8; BLOCK_SIZE])));
}

#[test]
fn block_cache_reads_back_written_block_zero() {
    let mut cache = AsyncBlockCache::init(0);
    let x = [3u8; BLOCK_SIZE];
    assert_eq!(cache.write_block(0, x), None);
    assert_eq!(cache.read_block_lookup(0), Some(x));
}

#[test]
fn block_cache_hands_back_evicted_written_block() {
    let mut cache = AsyncBlockCache::init(0);
    let a = [5u8; BLOCK_SIZE];
    assert_eq!(cache.write_block(5, a), None);
    for id in 6..5 + CACHE_SIZE {
        assert_eq!(cache.read_block_fill(id, [0u8; BLOCK_SIZE]), None);
    }
    // full: block 5 is the oldest of the blocks used once, and was written
    assert_eq!(cache.read_block_fill(1000, [1u8; BLOCK_SIZE]), Some((5, a)));
    assert_eq!(cache.read_block_lookup(5), None);
    assert!(cache.can_advance_now(1000));
}

#[test]
fn cache_trait_reaches_the_lfu_cache() {
    let mut c = empty3();
    assert_eq!(Cache::put(&mut c, &1, 10), None);
    assert_eq!(Cache::get(&mut c, &1), Some(10));
    assert_eq!(Cache::get(&mut c, &2), None);
    assert_eq!(Cache::all(&mut c), vec![(1, 10)]);
}

#[test]
fn all_lists_each_key_once_with_its_latest_value() {
    let mut c = empty3();
    c.put(&1, 10);
    c.put(&2, 20);
    c.get(&1);
    c.put(&1, 11);
    c.put(&3, 30);
    c.put(&2, 21);
    c.get(&3);
    // full: key 4 takes the slot of the least used key (3: two uses, later than 2's)
    c.put(&4, 40);
    let all = c.all();
    assert_eq!(all.len(), 3);
    for (k, v) in &all {
        assert_eq!(all.iter().filter(|(k2, _)| k2 == k).count(), 1);
        let latest = match k { 1 => 11, 2 => 21, 3 => 30, 4 => 40, _ => unreachable!() };
        assert_eq!(*v, latest);
    }
    assert!(all.iter().any(|(k, _)| *k == 4));
}

#[test]
fn cache_with_room_keeps_every_key_with_its_latest_value() {
    let mut c = empty3();
    c.put(&1, 10);
    c.fill(&2, 20);
    c.get(&1);
    c.put(&3, 30);
    c.put(&2, 21);
    c.get(&9);
    c.fill(&1, 11);
    assert_eq!(c.get(&1), Some(11));
    assert_eq!(c.get(&2), Some(21));
    assert_eq!(c.get(&3), Some(30));
    assert_eq!(c.all().len(), 3);
}
