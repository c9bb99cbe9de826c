use vstd::prelude::*;
use crate::lfu_cache::{cache_step, evicts_written, find_from, put_nodes, put_size, sort_by_use, LFUCache, Node};

verus! {

/// Size of a disk block in bytes.
pub const BLOCK_SIZE: usize = 512;

/// Size of a disk block in bytes (the file system's name for it).
pub const BLOCK_SZ: usize = 512;

/// How many blocks the block cache holds.
pub const CACHE_SIZE: usize = 100;

/// Errors of the easy file system.
#[derive(Debug, Clone, Copy, PartialEq, Eq, Structural)]
pub enum EasyError {
    NotFound,
    CreateFileError,
}

/// A clone of a block is the block itself.
pub proof fn lemma_block_clone(a: [u8; BLOCK_SIZE], b: [u8; BLOCK_SIZE])
    requires
        cloned::<[u8; BLOCK_SIZE]>(a, b),
    ensures
        a == b,
{
    broadcast use vstd::array::group_array_axioms;
    if a != b {
        assert(forall|i: int| 0 <= i < BLOCK_SIZE ==> cloned::<u8>(a@[i], b@[i]));
        assert(a@ =~= b@);
    }
}

/// The cache in front of an asynchronous block device. Its operations are
/// the steps of the device's read and write paths that run under the cache
/// lock; the device accesses between them, and the lock, belong to the
/// caller. Each step hands back the blocks that must be written to the
/// device.
pub struct AsyncBlockCache {
    block_id: usize,
    cache: LFUCache<usize, [u8; BLOCK_SIZE], CACHE_SIZE>,
    modified: bool,
}

impl AsyncBlockCache {
    /// The block cache's LFU cache.
    pub closed spec fn spec_cache(&self) -> LFUCache<usize, [u8; BLOCK_SIZE], CACHE_SIZE> {
        self.cache
    }

    /// The cache's clock, and the use counter of block `block_id` if it is
    /// cached, can take one more operation on that block.
    pub open spec fn can_advance(&self, block_id: usize) -> bool {
        self.spec_cache().counters_fit(block_id)
    }

    /// Whether the cache can take one more operation on block `block_id`.
    pub fn can_advance_now(&self, block_id: usize) -> (r: bool)
        ensures
            r == self.can_advance(block_id),
    {
        broadcast use vstd::laws_eq::group_laws_eq;
        self.cache.counters_fit_now(&block_id)
    }

    /// A cache with no block in it; its free slots hold zeroed blocks.
    pub fn init(block_id: usize) -> (c: Self)
        ensures
            c.spec_cache().spec_size() == 0,
            c.spec_cache().spec_time() == 0,
            c.spec_cache().spec_nodes() == Seq::new(CACHE_SIZE as nat, |i: int| Node::<usize, [u8; BLOCK_SIZE]>::spec_new(0, [0u8; BLOCK_SIZE])),
    {
        let node = Node::new(0usize, [0u8; BLOCK_SIZE]);
        let nodes = [node; CACHE_SIZE];
        let c = Self { block_id, cache: LFUCache::empty(nodes), modified: false };
        assert(c.spec_cache().spec_nodes() =~= Seq::new(CACHE_SIZE as nat, |i: int| Node::<usize, [u8; BLOCK_SIZE]>::spec_new(0, [0u8; BLOCK_SIZE])));
        c
    }

    /// First step of reading block `block_id`: look it up in the cache. On a
    /// hit the block is returned and no device access follows; on a miss
    /// the caller reads the block from the device and hands it to
    /// [`Self::read_block_fill`].
    pub fn read_block_lookup(&mut self, block_id: usize) -> (r: Option<[u8; BLOCK_SIZE]>)
        requires
            old(self).can_advance(block_id),
        ensures
            ({
                let s = old(self).spec_cache().spec_nodes();
                let j = find_from(s, 0, old(self).spec_cache().spec_size() as int, block_id);
                if j < old(self).spec_cache().spec_size() {
                    &&& r == Some(s[j].spec_value())
                    &&& final(self).spec_cache().spec_nodes() == s.update(j, s[j].touched((old(self).spec_cache().spec_time() + 1) as usize))
                } else {
                    &&& r is None
                    &&& final(self).spec_cache().spec_nodes() == s
                }
            }),
            final(self).spec_cache().spec_size() == old(self).spec_cache().spec_size(),
            final(self).spec_cache().spec_time() == old(self).spec_cache().spec_time() + 1,
    {
        broadcast use vstd::laws_eq::group_laws_eq;
        let r = self.cache.get(&block_id);
        proof {
            if let Some(v) = r {
                let s = old(self).spec_cache().spec_nodes();
                let j = find_from(s, 0, old(self).spec_cache().spec_size() as int, block_id);
                lemma_block_clone(s[j].spec_value(), v);
            }
        }
        r
    }

    /// Second step of reading block `block_id` after a miss: `data`, read
    /// from the device, goes into the cache, not marked as written. Returns
    /// the block that the cache gave up, if it must be written back to the
    /// device.
    pub fn read_block_fill(&mut self, block_id: usize, data: [u8; BLOCK_SIZE]) -> (wb: Option<(usize, [u8; BLOCK_SIZE])>)
        requires
            old(self).can_advance(block_id),
        ensures
            put_step(*old(self), *final(self), block_id, data, false, wb),
            ({
                let s = final(self).spec_cache().spec_nodes();
                let j = find_from(s, 0, final(self).spec_cache().spec_size() as int, block_id);
                &&& j < final(self).spec_cache().spec_size()
                &&& s[j].spec_value() == data
            }),
    {
        proof {
            use_type_invariant(&self.cache);
        }
        let ghost before = *self;
        let wb = self.put_block(block_id, data, false);
        proof {
            lemma_read_after_write(before, *self, block_id, data, false, wb);
        }
        wb
    }

    /// Writing block `block_id`: `buf` goes into the cache, marked as
    /// written, so that it reaches the device when the cache gives it up.
    /// Returns the block that the cache gave up, if it must be written back
    /// to the device.
    pub fn write_block(&mut self, block_id: usize, buf: [u8; BLOCK_SIZE]) -> (wb: Option<(usize, [u8; BLOCK_SIZE])>)
        requires
            old(self).can_advance(block_id),
        ensures
            put_step(*old(self), *final(self), block_id, buf, true, wb),
            ({
                let s = final(self).spec_cache().spec_nodes();
                let j = find_from(s, 0, final(self).spec_cache().spec_size() as int, block_id);
                &&& j < final(self).spec_cache().spec_size()
                &&& s[j].spec_value() == buf
                &&& s[j].spec_dirty()
            }),
    {
        proof {
            use_type_invariant(&self.cache);
        }
        let ghost before = *self;
        let wb = self.put_block(block_id, buf, true);
        proof {
            lemma_read_after_write(before, *self, block_id, buf, true, wb);
        }
        wb
    }

    /// Writing block `block_id` through the cache to the device: `buf` goes
    /// into the cache, and the caller writes, in order, the returned blocks
    /// to the device: the block the cache gave up, if it must be written
    /// back, then `buf` itself.
    pub fn write_sync(&mut self, block_id: usize, buf: [u8; BLOCK_SIZE]) -> (writes: Vec<(usize, [u8; BLOCK_SIZE])>)
        requires
            old(self).can_advance(block_id),
        ensures
            exists|wb: Option<(usize, [u8; BLOCK_SIZE])>| {
                &&& put_step(*old(self), *final(self), block_id, buf, true, wb)
                &&& writes@ == match wb {
                    Some(b) => seq![b, (block_id, buf)],
                    None => seq![(block_id, buf)],
                }
            },
    {
        let wb = self.put_block(block_id, buf, true);
        let mut writes: Vec<(usize, [u8; BLOCK_SIZE])> = Vec::new();
        match wb {
            Some(b) => {
                writes.push(b);
            },
            None => {},
        }
        writes.push((block_id, buf));
        proof {
            assert(writes@ == match wb {
                Some(b) => seq![b, (block_id, buf)],
                None => seq![(block_id, buf)],
            });
        }
        writes
    }

    /// Writing every cached block back: the blocks to write to the device,
    /// in slot order.
    pub fn sync(&mut self) -> (writes: Vec<(usize, [u8; BLOCK_SIZE])>)
        ensures
            *final(self) == *old(self),
            writes@.len() == old(self).spec_cache().spec_size(),
            forall|i: int| 0 <= i < writes@.len() ==> #[trigger] writes@[i] == (
                old(self).spec_cache().spec_nodes()[i].spec_key(),
                old(self).spec_cache().spec_nodes()[i].spec_value(),
            ),
    {
        let writes = self.cache.all();
        proof {
            assert forall|i: int| 0 <= i < writes@.len() implies #[trigger] writes@[i] == (
                old(self).spec_cache().spec_nodes()[i].spec_key(),
                old(self).spec_cache().spec_nodes()[i].spec_value(),
            ) by {
                lemma_block_clone(old(self).spec_cache().spec_nodes()[i].spec_value(), writes@[i].1);
            }
        }
        writes
    }

    fn put_block(&mut self, block_id: usize, data: [u8; BLOCK_SIZE], written: bool) -> (wb: Option<(usize, [u8; BLOCK_SIZE])>)
        requires
            old(self).can_advance(block_id),
        ensures
            put_step(*old(self), *final(self), block_id, data, written, wb),
    {
        broadcast use vstd::laws_eq::group_laws_eq;
        let wb = if written {
            self.cache.put(&block_id, data)
        } else {
            self.cache.fill(&block_id, data)
        };
        proof {
            if let Some(b) = wb {
                let victim = sort_by_use(old(self).spec_cache().spec_nodes())[0];
                lemma_block_clone(victim.spec_value(), b.1);
            }
        }
        wb
    }
}

/// `after` is `before` once `data` was stored in the cache under
/// `block_id` (marked as written when `written` is set), and `wb` is the
/// block to write back, if any.
pub open spec fn put_step(
    before: AsyncBlockCache,
    after: AsyncBlockCache,
    block_id: usize,
    data: [u8; BLOCK_SIZE],
    written: bool,
    wb: Option<(usize, [u8; BLOCK_SIZE])>,
) -> bool {
    let c = before.spec_cache();
    let s = c.spec_nodes();
    let victim = sort_by_use(s)[0];
    &&& after.spec_cache().spec_time() == c.spec_time() + 1
    &&& after.spec_cache().spec_nodes() == put_nodes(s, c.spec_size(), (c.spec_time() + 1) as usize, block_id, data, written)
    &&& after.spec_cache().spec_size() == put_size(s, c.spec_size(), block_id)
    &&& wb == if evicts_written(s, c.spec_size(), block_id) {
        Some((victim.spec_key(), victim.spec_value()))
    } else {
        None
    }
}

/// Read after write: once block `block_id` was stored in the cache (by
/// `write_block`, `write_sync` or `read_block_fill`), looking it up hits and
/// gives back the block stored; a written block is marked as written, so
/// the cache hands it back for the device when it gives it up.
pub proof fn lemma_read_after_write(
    before: AsyncBlockCache,
    after: AsyncBlockCache,
    block_id: usize,
    data: [u8; BLOCK_SIZE],
    written: bool,
    wb: Option<(usize, [u8; BLOCK_SIZE])>,
)
    requires
        before.spec_cache().spec_size() <= CACHE_SIZE,
        put_step(before, after, block_id, data, written, wb),
    ensures
        ({
            let s = after.spec_cache().spec_nodes();
            let j = find_from(s, 0, after.spec_cache().spec_size() as int, block_id);
            &&& j < after.spec_cache().spec_size()
            &&& s[j].spec_value() == data
            &&& written ==> s[j].spec_dirty()
        }),
{
    before.spec_cache().lemma_nodes_len();
    crate::lfu_cache::lemma_get_after_put(
        before.spec_cache().spec_nodes(),
        before.spec_cache().spec_size(),
        (before.spec_cache().spec_time() + 1) as usize,
        block_id,
        data,
        written,
    );
}

/// A block cache step is a cache step: storing `data` under `block_id` at
/// the next tick, so that `lemma_cache_keeps_everything` applies to a
/// series of reads and writes through the block cache.
pub proof fn lemma_put_step_is_cache_step(
    before: AsyncBlockCache,
    after: AsyncBlockCache,
    block_id: usize,
    data: [u8; BLOCK_SIZE],
    written: bool,
    wb: Option<(usize, [u8; BLOCK_SIZE])>,
)
    requires
        put_step(before, after, block_id, data, written, wb),
    ensures
        cache_step(
            before.spec_cache().spec_nodes(),
            before.spec_cache().spec_size(),
            block_id,
            Some((data, written)),
            (before.spec_cache().spec_time() + 1) as usize,
            after.spec_cache().spec_nodes(),
            after.spec_cache().spec_size(),
        ),
{
}

} // verus!
