//! Device-memory bookkeeping of the HIP backend.
//!
//! Requests below the virtual-memory pool's page size are served from
//! size-class buffers: a cached buffer of the request's class when the
//! [`SimplePool`] has one, otherwise a fresh device allocation of the class
//! size. Larger requests are rounded up to whole pages and served by the
//! virtual-memory pool. The device calls themselves are made by the caller:
//! each operation here is a step that updates the bookkeeping and says
//! which device action, if any, comes next.

use vstd::prelude::*;
use std::collections::HashMap;
use vstd::std_specs::iter::IteratorSpec;
use vstd::string::StringExecFns;
use crate::error::MemoryError;
use crate::text::decimal;
use self::simple_pool::{
    SimplePool, is_size_class, class_fits, size_class, list_at, lists_wf, pooled_ptrs,
    is_cached, cached_distinct, lemma_size_class, lemma_pop_keeps_distinct,
    lemma_push_keeps_distinct, MAX_CACHED_PER_SIZE,
};

pub mod hip;
pub mod simple_pool;

verus! {

broadcast use vstd::std_specs::hash::group_hash_axioms;

/// The sum of the values of a finite map.
pub open spec fn value_sum(m: Map<u64, usize>) -> int
    decreases m.dom().len(),
    when m.dom().finite()
{
    if m.dom().len() == 0 {
        0
    } else {
        let k = m.dom().choose();
        m[k] + value_sum(m.remove(k))
    }
}

pub proof fn lemma_value_sum_nonneg(m: Map<u64, usize>)
    requires
        m.dom().finite(),
    ensures
        value_sum(m) >= 0,
    decreases m.dom().len(),
{
    if m.dom().len() > 0 {
        let k = m.dom().choose();
        lemma_value_sum_nonneg(m.remove(k));
    }
}

/// Taking one entry out of the sum.
pub proof fn lemma_value_sum_remove(m: Map<u64, usize>, k: u64)
    requires
        m.dom().finite(),
        m.contains_key(k),
    ensures
        value_sum(m) == m[k] + value_sum(m.remove(k)),
    decreases m.dom().len(),
{
    let c = m.dom().choose();
    if c != k {
        lemma_value_sum_remove(m.remove(c), k);
        lemma_value_sum_remove(m.remove(k), c);
        assert(m.remove(c).remove(k) =~= m.remove(k).remove(c));
    }
}

/// Putting one entry into the sum.
pub proof fn lemma_value_sum_insert(m: Map<u64, usize>, k: u64, v: usize)
    requires
        m.dom().finite(),
    ensures
        value_sum(m.insert(k, v)) == v + value_sum(m.remove(k)),
        value_sum(m.insert(k, v)) <= v + value_sum(m),
{
    lemma_value_sum_remove(m.insert(k, v), k);
    assert(m.insert(k, v).remove(k) =~= m.remove(k));
    if m.contains_key(k) {
        lemma_value_sum_remove(m, k);
    } else {
        assert(m.remove(k) =~= m);
    }
}

/// `size` rounded up to a multiple of `page`, as `usize::next_multiple_of`.
pub open spec fn round_up(size: int, page: int) -> int {
    if size % page == 0 {
        size
    } else {
        size + (page - size % page)
    }
}

/// Rounding up to whole pages gives the least multiple of the page size
/// that holds the request: a multiple of the page, at least the request,
/// less than a page above it, and no larger than any multiple of the page
/// that holds the request.
pub proof fn law_round_up_is_least_page_multiple(size: int, page: int)
    requires
        page > 0,
        size >= 0,
    ensures
        round_up(size, page) % page == 0,
        size <= round_up(size, page) < size + page,
        forall|n: int| n >= size && #[trigger] (n % page) == 0 ==> round_up(size, page) <= n,
{
    let q = size / page;
    let r = size % page;
    vstd::arithmetic::div_mod::lemma_fundamental_div_mod(size, page);
    assert(0 <= r < page) by {
        vstd::arithmetic::div_mod::lemma_mod_bound(size, page);
    }
    let ru = round_up(size, page);
    let k = if r == 0 { q } else { q + 1 };
    assert(ru == page * k) by (nonlinear_arith)
        requires
            size == page * q + r,
            ru == (if r == 0 { size } else { size + (page - r) }),
            k == (if r == 0 { q } else { q + 1 }),
    ;
    vstd::arithmetic::div_mod::lemma_mod_multiples_basic(k, page);
    assert(page * k == k * page) by (nonlinear_arith);
    assert forall|n: int| n >= size && #[trigger] (n % page) == 0 implies ru <= n by {
        vstd::arithmetic::div_mod::lemma_fundamental_div_mod(n, page);
        let qn = n / page;
        assert(n == page * qn);
        assert(ru <= n) by (nonlinear_arith)
            requires
                page > 0,
                n == page * qn,
                ru == page * k,
                n >= size,
                size == page * q + r,
                0 <= r < page,
                k == (if r == 0 { q } else { q + 1 }),
        ;
    }
}

/// What the caller does next to complete an allocation.
#[derive(Debug, Clone, Copy, PartialEq, Eq, Structural)]
pub enum MallocStep {
    /// A cached buffer was handed out; the allocation is complete.
    Reused(u64),
    /// Allocate this many bytes on the device, then report the buffer
    /// with `complete_device_alloc`.
    DeviceAlloc(usize),
    /// Allocate this many bytes from the virtual-memory pool, then report
    /// it with `complete_pool_alloc`.
    PoolAlloc(usize),
}

/// What the caller does next to complete a release.
#[derive(Debug, Clone, Copy, PartialEq, Eq, Structural)]
pub enum FreeStep {
    /// The buffer went back to the cache; the release is complete.
    Cached,
    /// The cache for this class is full: free the buffer on the device.
    DeviceFree,
    /// The buffer is not a size-class buffer: hand it to the
    /// virtual-memory pool, then report the bytes it freed with
    /// `complete_pool_free`.
    PoolFree,
}

/// The buffers to release at shutdown.
#[derive(Debug)]
pub struct ShutdownPlan {
    /// Live size-class buffers, each once.
    pub live: Vec<u64>,
    /// Buffers that were cached for reuse.
    pub cached: Vec<u64>,
    /// Whether the virtual-memory pool is to be shut down as well.
    pub release_vm_pool: bool,
}

/// Bookkeeping of the device memory handed out by the backend.
pub struct MemoryManager {
    /// Page size of the virtual-memory pool (`usize::MAX` when it is disabled).
    page_size: usize,
    /// Cached size-class buffers.
    simple_pool: SimplePool,
    /// Live size-class buffers and their class sizes.
    allocated_ptrs: HashMap<u64, usize>,
    /// Bytes handed out and not yet released.
    current_size: usize,
    /// Highest value of `current_size` since the last peak reset.
    max_used_size: usize,
    /// Bytes handed out by the virtual-memory pool and not yet released.
    vm_pool_bytes: usize,
    /// Whether `shutdown` has run.
    shutdown_done: bool,
}

impl MemoryManager {
    pub closed spec fn page(&self) -> nat {
        self.page_size as nat
    }

    /// Live size-class buffers and their sizes.
    pub closed spec fn allocations(&self) -> Map<u64, usize> {
        self.allocated_ptrs@
    }

    /// Cached buffers by size class.
    pub closed spec fn cached(&self) -> Map<usize, Seq<u64>> {
        self.simple_pool.lists()
    }

    /// Bytes held by the cache.
    pub closed spec fn cached_bytes(&self) -> nat {
        self.simple_pool.bytes()
    }

    /// Bytes handed out and not yet released.
    pub closed spec fn current(&self) -> nat {
        self.current_size as nat
    }

    /// The peak of `current` since creation or the last reset.
    pub closed spec fn peak(&self) -> nat {
        self.max_used_size as nat
    }

    /// Bytes handed out by the virtual-memory pool and not yet released.
    pub closed spec fn vm_bytes(&self) -> nat {
        self.vm_pool_bytes as nat
    }

    pub closed spec fn is_shut_down(&self) -> bool {
        self.shutdown_done
    }

    /// The manager's invariant.
    pub closed spec fn wf(&self) -> bool {
        &&& self.page_size > 0
        &&& self.simple_pool.wf()
        &&& forall|p: u64| #[trigger] self.allocated_ptrs@.contains_key(p) ==> p != 0
            && is_size_class(self.allocated_ptrs@[p] as int) && !is_cached(self.simple_pool.lists(), p)
        &&& cached_distinct(self.simple_pool.lists())
        &&& value_sum(self.allocated_ptrs@) + self.vm_pool_bytes <= self.current_size
        &&& !self.shutdown_done ==> value_sum(self.allocated_ptrs@) + self.vm_pool_bytes == self.current_size
        &&& self.current_size <= self.max_used_size
        &&& self.current_size + self.simple_pool.bytes() <= usize::MAX
    }

    /// A manager with nothing allocated, for a virtual-memory pool with
    /// the given page size.
    pub fn new(page_size: usize) -> (m: MemoryManager)
        requires
            page_size > 0,
        ensures
            m.wf(),
            m.page() == page_size,
            m.allocations() == Map::<u64, usize>::empty(),
            m.cached() == Map::<usize, Seq<u64>>::empty(),
            m.cached_bytes() == 0,
            m.current() == 0,
            m.peak() == 0,
            m.vm_bytes() == 0,
            !m.is_shut_down(),
    {
        let m = MemoryManager {
            page_size,
            simple_pool: SimplePool::new(),
            allocated_ptrs: HashMap::new(),
            current_size: 0,
            max_used_size: 0,
            vm_pool_bytes: 0,
            shutdown_done: false,
        };
        proof {
            assert(m.allocated_ptrs@.dom() =~= Set::<u64>::empty());
            assert(value_sum(m.allocated_ptrs@) == 0);
        }
        m
    }

    /// Bytes handed out and not yet released.
    pub fn current_size(&self) -> (r: usize)
        ensures
            r == self.current(),
    {
        self.current_size
    }

    /// The peak of `current_size`.
    pub fn max_used_size(&self) -> (r: usize)
        ensures
            r == self.peak(),
    {
        self.max_used_size
    }

    /// Bytes held by the cache.
    pub fn pool_bytes(&self) -> (r: usize)
        ensures
            r == self.cached_bytes(),
    {
        self.simple_pool.pool_bytes()
    }

    /// Bytes handed out by the virtual-memory pool and not yet released.
    pub fn vm_pool_bytes(&self) -> (r: usize)
        ensures
            r == self.vm_bytes(),
    {
        self.vm_pool_bytes
    }

    /// The virtual-memory pool's page size.
    pub fn page_size(&self) -> (r: usize)
        ensures
            r == self.page(),
    {
        self.page_size
    }

    /// Whether `ptr` is a live or a cached size-class buffer.
    pub fn holds_pointer(&self, ptr: u64) -> (b: bool)
        ensures
            b == (self.allocations().contains_key(ptr) || is_cached(self.cached(), ptr)),
    {
        self.allocated_ptrs.contains_key(&ptr) || self.simple_pool.holds(ptr)
    }

    /// Bytes live or cached: what the manager accounts for on the device.
    pub fn footprint(&self) -> (r: usize)
        requires
            self.wf(),
        ensures
            r == self.current() + self.cached_bytes(),
    {
        self.current_size + self.simple_pool.pool_bytes()
    }

    /// Sets the peak to the current size.
    pub fn reset_peak(&mut self)
        requires
            old(self).wf(),
        ensures
            final(self).wf(),
            final(self).peak() == old(self).current(),
            final(self).current() == old(self).current(),
            final(self).allocations() == old(self).allocations(),
            final(self).cached() == old(self).cached(),
            final(self).cached_bytes() == old(self).cached_bytes(),
            final(self).vm_bytes() == old(self).vm_bytes(),
            final(self).page() == old(self).page(),
            final(self).is_shut_down() == old(self).is_shut_down(),
    {
        self.max_used_size = self.current_size;
    }


    /// Everything but the peak is as in `other`.
    pub open spec fn same_state_as(&self, other: &MemoryManager) -> bool {
        &&& self.page() == other.page()
        &&& self.allocations() == other.allocations()
        &&& self.cached() == other.cached()
        &&& self.cached_bytes() == other.cached_bytes()
        &&& self.current() == other.current()
        &&& self.vm_bytes() == other.vm_bytes()
        &&& self.is_shut_down() == other.is_shut_down()
    }

    /// The peak after `bytes` more have been handed out.
    pub open spec fn raised_peak(&self, bytes: int) -> int {
        if self.current() + bytes > self.peak() {
            self.current() + bytes
        } else {
            self.peak() as int
        }
    }

    /// Starts an allocation of `size` bytes.
    ///
    /// Below the page size the request is served by its size class: a
    /// cached buffer of the class is handed out at once when there is one
    /// (`Reused`); otherwise the caller allocates the class size on the
    /// device (`DeviceAlloc`). From the page size up, the caller allocates
    /// `size` rounded up to whole pages from the virtual-memory pool
    /// (`PoolAlloc`).
    pub fn d_malloc(&mut self, size: usize) -> (step: MallocStep)
        requires
            old(self).wf(),
            size != 0,
            size < old(self).page() ==> class_fits(size as int),
            size >= old(self).page() ==> round_up(size as int, old(self).page() as int) <= usize::MAX,
        ensures
            final(self).wf(),
            size < old(self).page() ==> ({
                let c = size_class(size as int);
                let l = list_at(old(self).cached(), c);
                if l.len() > 0 {
                    &&& step == MallocStep::Reused(l.last())
                    &&& !old(self).allocations().contains_key(l.last())
                    &&& final(self).allocations() == old(self).allocations().insert(l.last(), c as usize)
                    &&& final(self).cached() == old(self).cached().insert(c as usize, l.drop_last())
                    &&& final(self).cached_bytes() == old(self).cached_bytes() - c
                    &&& final(self).current() == old(self).current() + c
                    &&& final(self).peak() == old(self).raised_peak(c)
                    &&& final(self).vm_bytes() == old(self).vm_bytes()
                    &&& final(self).page() == old(self).page()
                    &&& final(self).is_shut_down() == old(self).is_shut_down()
                } else {
                    &&& step == MallocStep::DeviceAlloc(c as usize)
                    &&& final(self).same_state_as(old(self))
                    &&& final(self).peak() == old(self).peak()
                }
            }),
            size >= old(self).page() ==> {
                &&& step == MallocStep::PoolAlloc(round_up(size as int, old(self).page() as int) as usize)
                &&& (step->PoolAlloc_0 as int) % (old(self).page() as int) == 0
                &&& size <= step->PoolAlloc_0 < size + old(self).page()
                &&& final(self).same_state_as(old(self))
                &&& final(self).peak() == old(self).peak()
            },
    {
        if size < self.page_size {
            proof {
                lemma_size_class(size as int);
                self.simple_pool.law_cache_shape();
            }
            let ghost old_self = *self;
            match self.simple_pool.try_get(size) {
                Some((ptr, cls)) => {
                    proof {
                        let oc = old_self.cached();
                        let l = list_at(oc, cls as int);
                        assert(l[l.len() - 1] != 0);
                        assert(oc.contains_key(cls));
                        assert(oc[cls][l.len() - 1] == ptr);
                        assert(is_cached(oc, ptr));
                        assert(!self.allocated_ptrs@.contains_key(ptr));
                        lemma_pop_keeps_distinct(oc, cls);
                        lemma_value_sum_insert(self.allocated_ptrs@, ptr, cls);
                        assert(self.allocated_ptrs@.remove(ptr) =~= self.allocated_ptrs@);
                    }
                    self.allocated_ptrs.insert(ptr, cls);
                    self.account_alloc(cls);
                    MallocStep::Reused(ptr)
                },
                None => MallocStep::DeviceAlloc(SimplePool::size_class(size)),
            }
        } else {
            proof {
                law_round_up_is_least_page_multiple(size as int, self.page_size as int);
            }
            let rem = size % self.page_size;
            let tracked_size = if rem == 0 {
                size
            } else {
                size + (self.page_size - rem)
            };
            MallocStep::PoolAlloc(tracked_size)
        }
    }

    /// Completes a `DeviceAlloc` step: the device handed out `ptr` with
    /// `alloc_size` bytes.
    pub fn record_device_alloc(&mut self, ptr: u64, alloc_size: usize)
        requires
            old(self).wf(),
            ptr != 0,
            !old(self).allocations().contains_key(ptr),
            !is_cached(old(self).cached(), ptr),
            is_size_class(alloc_size as int),
            old(self).current() + old(self).cached_bytes() + alloc_size <= usize::MAX,
        ensures
            final(self).wf(),
            final(self).allocations() == old(self).allocations().insert(ptr, alloc_size),
            final(self).current() == old(self).current() + alloc_size,
            final(self).peak() == old(self).raised_peak(alloc_size as int),
            final(self).cached() == old(self).cached(),
            final(self).cached_bytes() == old(self).cached_bytes(),
            final(self).vm_bytes() == old(self).vm_bytes(),
            final(self).page() == old(self).page(),
            final(self).is_shut_down() == old(self).is_shut_down(),
    {
        proof {
            lemma_value_sum_insert(self.allocated_ptrs@, ptr, alloc_size);
            assert(self.allocated_ptrs@.remove(ptr) =~= self.allocated_ptrs@);
        }
        self.allocated_ptrs.insert(ptr, alloc_size);
        self.account_alloc(alloc_size);
    }

    /// Completes a `PoolAlloc` step: the virtual-memory pool handed out
    /// `bytes`.
    pub fn record_pool_alloc(&mut self, bytes: usize)
        requires
            old(self).wf(),
            old(self).current() + old(self).cached_bytes() + bytes <= usize::MAX,
        ensures
            final(self).wf(),
            final(self).current() == old(self).current() + bytes,
            final(self).vm_bytes() == old(self).vm_bytes() + bytes,
            final(self).peak() == old(self).raised_peak(bytes as int),
            final(self).allocations() == old(self).allocations(),
            final(self).cached() == old(self).cached(),
            final(self).cached_bytes() == old(self).cached_bytes(),
            final(self).page() == old(self).page(),
            final(self).is_shut_down() == old(self).is_shut_down(),
    {
        proof {
            lemma_value_sum_nonneg(self.allocated_ptrs@);
        }
        self.account_alloc(bytes);
        self.vm_pool_bytes = self.vm_pool_bytes + bytes;
    }

    /// Starts the release of `ptr`.
    ///
    /// A null pointer is an error. A live size-class buffer leaves the
    /// live set and its bytes leave the current size; it is then cached
    /// (`Cached`) unless its class is full, in which case the caller frees
    /// it on the device (`DeviceFree`). Any other pointer belongs to the
    /// virtual-memory pool (`PoolFree`).
    pub fn d_free(&mut self, ptr: u64) -> (r: Result<FreeStep, MemoryError>)
        requires
            old(self).wf(),
        ensures
            final(self).wf(),
            final(self).peak() == old(self).peak(),
            ptr == 0 ==> (r matches Err(MemoryError::NullPointer)) && final(self).same_state_as(old(self)),
            ptr != 0 && old(self).allocations().contains_key(ptr) ==> ({
                let s = old(self).allocations()[ptr];
                let l = list_at(old(self).cached(), s as int);
                &&& final(self).allocations() == old(self).allocations().remove(ptr)
                &&& final(self).current() == old(self).current() - s
                &&& final(self).vm_bytes() == old(self).vm_bytes()
                &&& final(self).page() == old(self).page()
                &&& final(self).is_shut_down() == old(self).is_shut_down()
                &&& if l.len() < MAX_CACHED_PER_SIZE {
                    &&& r == Ok::<FreeStep, MemoryError>(FreeStep::Cached)
                    &&& final(self).cached() == old(self).cached().insert(s, l.push(ptr))
                    &&& final(self).cached_bytes() == old(self).cached_bytes() + s
                } else {
                    &&& r == Ok::<FreeStep, MemoryError>(FreeStep::DeviceFree)
                    &&& final(self).cached() == old(self).cached()
                    &&& final(self).cached_bytes() == old(self).cached_bytes()
                }
            }),
            ptr != 0 && !old(self).allocations().contains_key(ptr) ==> {
                &&& r == Ok::<FreeStep, MemoryError>(FreeStep::PoolFree)
                &&& final(self).same_state_as(old(self))
            },
    {
        if ptr == 0 {
            return Err(MemoryError::NullPointer);
        }
        let ghost old_alloc = self.allocated_ptrs@;
        match self.allocated_ptrs.remove(&ptr) {
            Some(size) => {
                proof {
                    lemma_value_sum_remove(old_alloc, ptr);
                    lemma_value_sum_nonneg(old_alloc.remove(ptr));
                    lemma_size_class(size as int);
                }
                self.current_size = self.current_size - size;
                let ghost oc = self.simple_pool.lists();
                proof {
                    assert(size_class(size as int) == size as int);
                    lemma_push_keeps_distinct(oc, size, ptr);
                }
                if self.simple_pool.try_put(ptr, size) {
                    Ok(FreeStep::Cached)
                } else {
                    Ok(FreeStep::DeviceFree)
                }
            },
            None => {
                proof {
                    assert(self.allocated_ptrs@ =~= old_alloc);
                }
                Ok(FreeStep::PoolFree)
            },
        }
    }

    /// Completes a `PoolFree` step: the virtual-memory pool released
    /// `freed` bytes.
    pub fn record_pool_free(&mut self, freed: usize)
        requires
            old(self).wf(),
            freed <= old(self).vm_bytes(),
        ensures
            final(self).wf(),
            final(self).current() == old(self).current() - freed,
            final(self).vm_bytes() == old(self).vm_bytes() - freed,
            final(self).peak() == old(self).peak(),
            final(self).allocations() == old(self).allocations(),
            final(self).cached() == old(self).cached(),
            final(self).cached_bytes() == old(self).cached_bytes(),
            final(self).page() == old(self).page(),
            final(self).is_shut_down() == old(self).is_shut_down(),
    {
        proof {
            lemma_value_sum_nonneg(self.allocated_ptrs@);
        }
        self.current_size = self.current_size - freed;
        self.vm_pool_bytes = self.vm_pool_bytes - freed;
    }

    /// Releases everything the manager holds, once: later calls do
    /// nothing. Returns the live and the cached buffers, which the caller
    /// frees on the device, and whether to shut the virtual-memory pool
    /// down. The byte counts are kept.
    pub fn shutdown(&mut self) -> (plan: ShutdownPlan)
        requires
            old(self).wf(),
        ensures
            final(self).wf(),
            final(self).is_shut_down(),
            final(self).page() == old(self).page(),
            final(self).current() == old(self).current(),
            final(self).peak() == old(self).peak(),
            final(self).vm_bytes() == old(self).vm_bytes(),
            old(self).is_shut_down() ==> {
                &&& final(self).same_state_as(old(self))
                &&& plan.live@.len() == 0
                &&& plan.cached@.len() == 0
                &&& !plan.release_vm_pool
            },
            !old(self).is_shut_down() ==> {
                &&& final(self).allocations() == Map::<u64, usize>::empty()
                &&& final(self).cached() == Map::<usize, Seq<u64>>::empty()
                &&& final(self).cached_bytes() == 0
                &&& plan.live@.to_set() == old(self).allocations().dom()
                &&& plan.live@.no_duplicates()
                &&& plan.cached@.to_multiset() == pooled_ptrs(old(self).cached())
                &&& forall|p: u64| #[trigger] plan.cached@.contains(p) <==> is_cached(old(self).cached(), p)
                &&& plan.cached@.no_duplicates()
                &&& plan.release_vm_pool
            },
    {
        if self.shutdown_done {
            return ShutdownPlan { live: Vec::new(), cached: Vec::new(), release_vm_pool: false };
        }
        proof {
            lemma_value_sum_nonneg(self.allocated_ptrs@);
        }
        self.shutdown_done = true;
        let live = live_pointers(&self.allocated_ptrs);
        self.allocated_ptrs.clear();
        let ghost old_cached = self.simple_pool.lists();
        proof {
            self.simple_pool.law_cache_shape();
        }
        let cached = self.simple_pool.drain_all();
        proof {
            broadcast use vstd::seq_lib::group_to_multiset_ensures;
            assert forall|x: u64| cached@.to_multiset().contains(x) implies cached@.to_multiset().count(x) == 1 by {
                simple_pool::law_pooled_ptrs_are_the_cached_buffers(old_cached, x);
            }
            cached@.lemma_multiset_has_no_duplicates_conv();
            assert(self.allocated_ptrs@ =~= Map::<u64, usize>::empty());
            assert(self.allocated_ptrs@.dom() =~= Set::<u64>::empty());
            assert(value_sum(self.allocated_ptrs@) == 0);
        }
        ShutdownPlan { live, cached, release_vm_pool: true }
    }

    /// Adds `bytes` to the current size and raises the peak to it.
    fn account_alloc(&mut self, bytes: usize)
        requires
            old(self).current_size + bytes <= usize::MAX,
        ensures
            final(self).current_size == old(self).current_size + bytes,
            final(self).max_used_size == if old(self).current_size + bytes > old(self).max_used_size {
                old(self).current_size + bytes
            } else {
                old(self).max_used_size as int
            },
            final(self).allocated_ptrs == old(self).allocated_ptrs,
            final(self).simple_pool == old(self).simple_pool,
            final(self).vm_pool_bytes == old(self).vm_pool_bytes,
            final(self).page_size == old(self).page_size,
            final(self).shutdown_done == old(self).shutdown_done,
    {
        self.current_size = self.current_size + bytes;
        if self.current_size > self.max_used_size {
            self.max_used_size = self.current_size;
        }
    }
}


/// The manager's accounting: until shutdown, the current size is exactly
/// the bytes of the live size-class buffers plus the bytes of the
/// virtual-memory pool (after shutdown, which forgets the buffers but keeps
/// the count, it is at least that); the current size never exceeds the
/// peak; every live buffer is non-null, has a size-class size and is not
/// also cached; no buffer is cached twice; the cache keeps its shape; and
/// what is live or cached fits a `usize`; and the page size is positive.
pub proof fn law_accounting(m: &MemoryManager)
    requires
        m.wf(),
    ensures
        m.page() > 0,
        !m.is_shut_down() ==> value_sum(m.allocations()) + m.vm_bytes() == m.current(),
        value_sum(m.allocations()) + m.vm_bytes() <= m.current() <= m.peak(),
        forall|p: u64| #[trigger] m.allocations().contains_key(p) ==> p != 0 && is_size_class(
            m.allocations()[p] as int,
        ) && !is_cached(m.cached(), p),
        cached_distinct(m.cached()),
        lists_wf(m.cached()),
        m.cached_bytes() == simple_pool::pooled_bytes(m.cached()),
        m.current() + m.cached_bytes() <= usize::MAX,
{
    m.simple_pool.law_cache_shape();
}

/// Allocating a size-class buffer and then releasing it leaves the live
/// buffers and the current size as they were before the allocation: the
/// allocation hands out a buffer that was not live and records its class
/// size, and the release takes that buffer and its size off again.
pub proof fn law_alloc_then_free_restores_current(m0: MemoryManager, m1: MemoryManager, m2: MemoryManager, ptr: u64, c: usize)
    requires
        !m0.allocations().contains_key(ptr),
        m1.allocations() == m0.allocations().insert(ptr, c),
        m1.current() == m0.current() + c,
        m2.current() == m1.current() - m1.allocations()[ptr],
        m2.allocations() == m1.allocations().remove(ptr),
    ensures
        m2.current() == m0.current(),
        m2.allocations() == m0.allocations(),
{
    assert(m1.allocations().remove(ptr) =~= m0.allocations());
}

/// Taking a cached buffer of class `c` and putting the same buffer back
/// leaves the cache as it was.
pub proof fn law_reuse_then_free_restores_cache(m0: MemoryManager, m1: MemoryManager, m2: MemoryManager, c: usize)
    requires
        list_at(m0.cached(), c as int).len() > 0,
        m1.cached() == m0.cached().insert(c, list_at(m0.cached(), c as int).drop_last()),
        m2.cached() == m1.cached().insert(c, list_at(m1.cached(), c as int).push(list_at(m0.cached(), c as int).last())),
    ensures
        m2.cached() == m0.cached(),
{
    let l = list_at(m0.cached(), c as int);
    assert(list_at(m1.cached(), c as int) == l.drop_last());
    assert(l.drop_last().push(l.last()) =~= l);
    assert(m2.cached() =~= m0.cached());
}

/// A released buffer that went back to the cache is the one the next
/// allocation of its class hands out.
pub proof fn law_released_buffer_is_reused(m0: MemoryManager, m1: MemoryManager, ptr: u64, c: usize)
    requires
        m1.cached() == m0.cached().insert(c, list_at(m0.cached(), c as int).push(ptr)),
    ensures
        list_at(m1.cached(), c as int).len() > 0,
        list_at(m1.cached(), c as int).last() == ptr,
{
    simple_pool::law_put_then_get(m0.cached(), c, ptr);
}

/// Shuts the memory manager down unless the process is already shutting
/// down (`shutting_down`), in which case nothing is done and nothing is to
/// be released.
pub fn hip_runtime_shutdown(manager: &mut MemoryManager, shutting_down: bool) -> (plan: ShutdownPlan)
    requires
        old(manager).wf(),
    ensures
        final(manager).wf(),
        shutting_down ==> {
            &&& final(manager).same_state_as(old(manager))
            &&& final(manager).peak() == old(manager).peak()
            &&& plan.live@.len() == 0
            &&& plan.cached@.len() == 0
            &&& !plan.release_vm_pool
        },
        !shutting_down ==> {
            &&& final(manager).is_shut_down()
            &&& final(manager).page() == old(manager).page()
            &&& final(manager).current() == old(manager).current()
            &&& final(manager).peak() == old(manager).peak()
            &&& final(manager).vm_bytes() == old(manager).vm_bytes()
            &&& old(manager).is_shut_down() ==> {
                &&& final(manager).same_state_as(old(manager))
                &&& plan.live@.len() == 0
                &&& plan.cached@.len() == 0
                &&& !plan.release_vm_pool
            }
            &&& !old(manager).is_shut_down() ==> {
                &&& final(manager).allocations() == Map::<u64, usize>::empty()
                &&& final(manager).cached() == Map::<usize, Seq<u64>>::empty()
                &&& final(manager).cached_bytes() == 0
                &&& plan.live@.to_set() == old(manager).allocations().dom()
                &&& plan.live@.no_duplicates()
                &&& plan.cached@.to_multiset() == pooled_ptrs(old(manager).cached())
                &&& forall|p: u64| #[trigger] plan.cached@.contains(p) <==> is_cached(old(manager).cached(), p)
                &&& plan.cached@.no_duplicates()
                &&& plan.release_vm_pool
            }
        },
{
    if shutting_down {
        return ShutdownPlan { live: Vec::new(), cached: Vec::new(), release_vm_pool: false };
    }
    manager.shutdown()
}

/// A record of the memory in use when a phase began, for reporting how
/// much the phase used.
#[derive(Debug, Clone)]
pub struct MemTracker {
    current: usize,
    label: &'static str,
}

/// The figures a tracker reports.
#[derive(Debug)]
pub struct MemUsageReport {
    /// Whether the current size is at least the size at start.
    pub grew: bool,
    /// How far the current size is from the size at start.
    pub used: usize,
    /// The current size.
    pub current: usize,
    /// The peak size.
    pub peak: usize,
    /// Bytes held by the virtual-memory pool.
    pub pool_usage: usize,
    /// The tracker's label, followed by `:` and the message when there is one.
    pub label: String,
}

/// The text `bytesize` renders for a count of bytes.
pub uninterp spec fn byte_size_display(bytes: u64) -> Seq<char>;

/// `bytesize::ByteSize::b(bytes).to_string()`: the count in IEC units
/// with one decimal, such as `4.0 KiB`. Below 1024 bytes the crate writes
/// the plain count followed by ` B`; from 1024 up the number is computed
/// in floating point, and the text is only named here.
#[verifier::external_body]
fn byte_size_text(bytes: u64) -> (s: String)
    ensures
        s@ == byte_size_display(bytes),
        bytes < 1024 ==> s@ == decimal(bytes as nat) + " B"@,
{
    bytesize::ByteSize::b(bytes).to_string()
}

/// How a count of bytes is rendered in a usage line: below 1024 the plain
/// count and ` B`, otherwise what `bytesize` renders.
pub open spec fn size_text(bytes: u64) -> Seq<char> {
    if bytes < 1024 {
        decimal(bytes as nat) + " B"@
    } else {
        byte_size_display(bytes)
    }
}

/// The line a usage report is logged as, given its sizes already rendered.
pub open spec fn usage_line_text(
    grew: bool,
    used: Seq<char>,
    current: Seq<char>,
    peak: Seq<char>,
    pool: Seq<char>,
    label: Seq<char>,
) -> Seq<char> {
    "GPU mem: used="@ + (if grew {
        "+"@
    } else {
        "-"@
    }) + used + ", current="@ + current + ", peak="@ + peak + ", in pool="@ + pool + " ("@ + label
        + ")"@
}

/// Assembles the line a usage report is logged as: the sign of the change
/// and the rendered sizes of the change, the current size, the peak and
/// the pool usage, then the label in brackets.
pub fn usage_line(grew: bool, used: &str, current: &str, peak: &str, pool: &str, label: &str) -> (s: String)
    ensures
        s@ == usage_line_text(grew, used@, current@, peak@, pool@, label@),
{
    let mut s = String::from_str("GPU mem: used=");
    s.append(if grew {
        "+"
    } else {
        "-"
    });
    s.append(used);
    s.append(", current=");
    s.append(current);
    s.append(", peak=");
    s.append(peak);
    s.append(", in pool=");
    s.append(pool);
    s.append(" (");
    s.append(label);
    s.append(")");
    s
}

impl MemUsageReport {
    /// The line this report is logged as, each size rendered by `bytesize`.
    pub fn log_line(&self) -> (s: String)
        ensures
            s@ == usage_line_text(
                self.grew,
                size_text(self.used as u64),
                size_text(self.current as u64),
                size_text(self.peak as u64),
                size_text(self.pool_usage as u64),
                self.label@,
            ),
    {
        let used = byte_size_text(self.used as u64);
        let current = byte_size_text(self.current as u64);
        let peak = byte_size_text(self.peak as u64);
        let pool = byte_size_text(self.pool_usage as u64);
        usage_line(self.grew, used.as_str(), current.as_str(), peak.as_str(), pool.as_str(), self.label.as_str())
    }
}

impl MemTracker {
    pub closed spec fn start_size(&self) -> nat {
        self.current as nat
    }

    pub closed spec fn label_spec(&self) -> &'static str {
        self.label
    }

    /// Starts tracking: records the manager's current size, or 0 when no
    /// manager is available.
    pub fn start(label: &'static str, manager: Option<&MemoryManager>) -> (t: MemTracker)
        ensures
            t.start_size() == match manager {
                Some(m) => m.current(),
                None => 0,
            },
            t.label_spec() == label,
    {
        let current = match manager {
            Some(m) => m.current_size(),
            None => 0,
        };
        MemTracker { current, label }
    }

    /// The size recorded at start.
    pub fn start_bytes(&self) -> (r: usize)
        ensures
            r == self.start_size(),
    {
        self.current
    }

    /// The label.
    pub fn label(&self) -> (r: &'static str)
        ensures
            r == self.label_spec(),
    {
        self.label
    }

    /// Sets the manager's peak to its current size.
    pub fn reset_peak(&mut self, manager: &mut MemoryManager)
        requires
            old(manager).wf(),
        ensures
            *final(self) == *old(self),
            final(manager).wf(),
            final(manager).peak() == old(manager).current(),
            final(manager).same_state_as(old(manager)),
    {
        manager.reset_peak();
    }

    /// The figures to report now: the change since start, the current and
    /// peak sizes, the pool usage and the label (with `msg` appended after
    /// a `:` when given).
    pub fn usage_report(&self, manager: &MemoryManager, pool_usage: usize, msg: Option<&'static str>) -> (r: MemUsageReport)
        ensures
            r.grew == (manager.current() >= self.start_size()),
            r.grew ==> r.used == manager.current() - self.start_size(),
            !r.grew ==> r.used == self.start_size() - manager.current(),
            r.current == manager.current(),
            r.peak == manager.peak(),
            r.pool_usage == pool_usage,
            r.label@ == match msg {
                Some(m) => self.label_spec()@ + ":"@ + m@,
                None => self.label_spec()@,
            },
    {
        let current = manager.current_size();
        let grew = current >= self.current;
        let used = if grew {
            current - self.current
        } else {
            self.current - current
        };
        let label = match msg {
            Some(m) => {
                let mut l = String::from_str(self.label);
                l.append(":");
                l.append(m);
                l
            },
            None => String::from_str(self.label),
        };
        MemUsageReport { grew, used, current, peak: manager.max_used_size(), pool_usage, label }
    }
}

/// The keys of `m`, each once, in the map's iteration order.
fn live_pointers(m: &HashMap<u64, usize>) -> (v: Vec<u64>)
    ensures
        v@.to_set() == m@.dom(),
        v@.no_duplicates(),
{
    let mut v: Vec<u64> = Vec::new();
    for k in it: m.keys()
        invariant
            v@ == it.seq().take(it.index() as int).map_values(|r: &u64| *r),
            it.seq() == vstd::std_specs::hash::spec_keys_iter(m).remaining(),
    {
        v.push(*k);
    }
    proof {
        let ks = vstd::std_specs::hash::spec_keys_iter(m).remaining();
        assert(v@ =~= ks.map_values(|r: &u64| *r));
        assert(ks.unref() =~= ks.map_values(|r: &u64| *r));
    }
    v
}

} // verus!
