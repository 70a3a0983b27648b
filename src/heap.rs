//! The region heap: an arena of regions, each an arena of serialized objects,
//! with byte-capacity accounting.
use vstd::prelude::*;

use ahash::AHashMap;

use crate::immediates::{copy_bytes, fixed_width, i64_bits, kind_of, le_bytes, ImmView, NULL_WIDTH, storage_bytes, ImmediateType, Immediates, ImmediatesType, Serialize};
use vstd::pervasive::VecAdditionalExecFns;
use vstd::utf8::{decode_utf8, valid_utf8};

use crate::loader::{bool_of, le_value, lemma_le_value_bound, pow256, read_le, signed_of, utf8_string};

verus! {

#[verifier::external_type_specification]
#[verifier::external_body]
#[verifier::reject_recursive_types(K)]
#[verifier::reject_recursive_types(V)]
#[verifier::reject_recursive_types(S)]
pub struct ExAHashMap<K, V, S>(AHashMap<K, V, S>);

#[verifier::external_type_specification]
#[verifier::external_body]
pub struct ExAHashRandomState(ahash::RandomState);

/// The map type of the heap's region index: region key to slot.
pub type RegionIndex = AHashMap<usize, usize>;

/// The entries of a region index.
pub uninterp spec fn index_entries(m: RegionIndex) -> Map<usize, usize>;

/// Relies on ahash's `AHashMap::new`: an empty map.
#[verifier::external_body]
fn index_new() -> (r: RegionIndex)
    ensures
        index_entries(r).dom() == Set::<usize>::empty(),
{
    AHashMap::new()
}

/// Relies on ahash's `AHashMap::insert`: the key now maps to the value.
#[verifier::external_body]
fn index_insert(m: &mut RegionIndex, k: usize, v: usize)
    ensures
        index_entries(*final(m)) == index_entries(*old(m)).insert(k, v),
{
    m.insert(k, v);
}

/// Relies on ahash's `AHashMap::get`: the value stored under the key.
#[verifier::external_body]
fn index_get(m: &RegionIndex, k: usize) -> (r: Option<usize>)
    ensures
        index_entries(*m).contains_key(k) ==> r == Some(index_entries(*m)[k]),
        !index_entries(*m).contains_key(k) ==> r is None,
{
    m.get(&k).copied()
}

/// A reference to a heap object or function.
#[derive(PartialEq, Eq, Structural, Clone, Copy, Debug)]
pub struct Pointer {
    pub point_to: usize,
    pub is_fn: bool,
    pub thread: Option<usize>,
}

/// Tri-color marks, kept on every object for a tracing collector.
#[derive(PartialEq, Eq, Structural, Clone, Copy, Debug)]
pub enum Colors {
    /// Condemned objects
    White,
    /// Objects soon to be checked
    Gray,
    /// Objects that passed
    Black,
}

/// An object on the heap: its serialized bytes, its mark and its size in bytes.
pub struct AllocatedObject {
    pub data: Vec<u8>,
    pub marked: Colors,
    pub size: usize,
}

/// The handle of an allocation: region key, slot within the region, size and kind.
#[derive(PartialEq, Eq, Structural, Clone, Copy, Debug)]
pub struct Allocation {
    pub region: usize,
    pub index: usize,
    pub size: usize,
    pub immediate_type: ImmediatesType,
}

/// An arena partition: global, or owned by one thread or one task.
pub struct Region {
    pub memory: Vec<Option<AllocatedObject>>,
    pub assigned_thread: Option<usize>,
    pub assigned_task: Option<usize>,
    pub global: bool,
}

/// Why an allocation failed.
#[derive(PartialEq, Eq, Structural, Clone, Copy, Debug)]
pub enum HeapError {
    /// The object does not fit in the free bytes.
    Overflow,
    /// No region under the given key.
    UnknownRegion,
}

pub open spec fn object_bytes(o: Option<AllocatedObject>) -> int {
    match o {
        Some(x) => x.size as int,
        None => 0,
    }
}

/// Bytes held by the objects of a region's memory.
pub open spec fn memory_total(m: Seq<Option<AllocatedObject>>) -> int
    decreases m.len(),
{
    if m.len() == 0 {
        0
    } else {
        memory_total(m.drop_last()) + object_bytes(m.last())
    }
}

pub open spec fn region_bytes(r: Option<Region>) -> int {
    match r {
        Some(g) => memory_total(g.memory@),
        None => 0,
    }
}

/// Bytes held by all objects of all regions.
pub open spec fn heap_total(h: Seq<Option<Region>>) -> int
    decreases h.len(),
{
    if h.len() == 0 {
        0
    } else {
        heap_total(h.drop_last()) + region_bytes(h.last())
    }
}

proof fn lemma_memory_update(m: Seq<Option<AllocatedObject>>, i: int, x: Option<AllocatedObject>)
    requires
        0 <= i < m.len(),
    ensures
        memory_total(m.update(i, x)) == memory_total(m) - object_bytes(m[i]) + object_bytes(x),
        memory_total(m) >= object_bytes(m[i]),
    decreases m.len(),
{
    lemma_memory_nonneg(m.drop_last());
    if i < m.len() - 1 {
        lemma_memory_update(m.drop_last(), i, x);
        assert(m.update(i, x).drop_last() =~= m.drop_last().update(i, x));
    } else {
        assert(m.update(i, x).drop_last() =~= m.drop_last());
    }
}

proof fn lemma_memory_nonneg(m: Seq<Option<AllocatedObject>>)
    ensures
        memory_total(m) >= 0,
    decreases m.len(),
{
    if m.len() > 0 {
        lemma_memory_nonneg(m.drop_last());
    }
}

proof fn lemma_heap_update(h: Seq<Option<Region>>, i: int, x: Option<Region>)
    requires
        0 <= i < h.len(),
    ensures
        heap_total(h.update(i, x)) == heap_total(h) - region_bytes(h[i]) + region_bytes(x),
        heap_total(h) >= region_bytes(h[i]),
    decreases h.len(),
{
    lemma_heap_nonneg(h.drop_last());
    match h.last() {
        Some(g) => lemma_memory_nonneg(g.memory@),
        None => {},
    }
    if i < h.len() - 1 {
        lemma_heap_update(h.drop_last(), i, x);
        assert(h.update(i, x).drop_last() =~= h.drop_last().update(i, x));
    } else {
        assert(h.update(i, x).drop_last() =~= h.drop_last());
    }
}

proof fn lemma_heap_nonneg(h: Seq<Option<Region>>)
    ensures
        heap_total(h) >= 0,
    decreases h.len(),
{
    if h.len() > 0 {
        lemma_heap_nonneg(h.drop_last());
        match h.last() {
            Some(g) => lemma_memory_nonneg(g.memory@),
            None => {},
        }
    }
}

impl AllocatedObject {
    /// A white object holding the storage encoding of `data`.
    pub fn new(data: &Immediates) -> (r: Self)
        requires
            data.serializable(),
        ensures
            r.data@ == storage_bytes(data@),
            r.size == r.data@.len(),
            r.marked == Colors::White,
    {
        let bytes = data.serialize_heap();
        let size = bytes.len();
        AllocatedObject { data: bytes, marked: Colors::White, size }
    }
}

impl Region {
    /// An empty region.
    pub fn new(global: bool, thread: Option<usize>, task: Option<usize>) -> (r: Self)
        ensures
            r.memory@.len() == 0,
            r.global == global,
            r.assigned_thread == thread,
            r.assigned_task == task,
    {
        Region { memory: Vec::new(), assigned_thread: thread, assigned_task: task, global }
    }
}

/// The heap: regions under keys, and the byte counters.
pub struct VMHeap {
    pub heap: Vec<Option<Region>>,
    pub index: RegionIndex,
    pub free: usize,
    pub capacity: usize,
    pub threads: usize,
    pub tasks: usize,
}

impl VMHeap {
    /// Region keys and slots coincide, every slot holds a region, every object's
    /// size is its byte count, and the free bytes and the bytes held make up the
    /// capacity.
    pub open spec fn wf(&self) -> bool {
        &&& forall|k: usize| #[trigger]
            index_entries(self.index).contains_key(k) <==> k < self.heap@.len()
        &&& forall|k: usize| #[trigger]
            index_entries(self.index).contains_key(k) ==> index_entries(self.index)[k] == k
        &&& forall|i: int| 0 <= i < self.heap@.len() ==> (#[trigger] self.heap@[i]) is Some
        &&& forall|i: int, j: int|
            0 <= i < self.heap@.len() && 0 <= j < self.heap@[i]->Some_0.memory@.len()
                ==> match #[trigger] self.heap@[i]->Some_0.memory@[j] {
                Some(o) => o.size == o.data@.len(),
                None => true,
            }
        &&& self.free + heap_total(self.heap@) == self.capacity
        &&& self.threads + self.tasks <= self.heap@.len()
    }

    /// The object an allocation handle designates, if it is still there.
    pub open spec fn object_at(&self, a: Allocation) -> Option<AllocatedObject> {
        if index_entries(self.index).contains_key(a.region) {
            let slot = index_entries(self.index)[a.region] as int;
            if 0 <= slot < self.heap@.len() && self.heap@[slot] is Some {
                let g = self.heap@[slot]->Some_0;
                if a.index < g.memory@.len() {
                    g.memory@[a.index as int]
                } else {
                    None
                }
            } else {
                None
            }
        } else {
            None
        }
    }

    /// Whether a region stands under `key`.
    pub open spec fn has_region(&self, key: usize) -> bool {
        index_entries(self.index).contains_key(key)
    }

    /// A heap of `capacity` bytes with one region under key 0.
    pub fn new(capacity: usize) -> (r: Self)
        ensures
            r.wf(),
            r.free == capacity,
            r.capacity == capacity,
            r.heap@.len() == 1,
            r.has_region(0),
            r.threads == 1,
            r.tasks == 0,
    {
        let main = Region::new(false, None, None);
        let ghost main_g = main;
        let mut heap: Vec<Option<Region>> = Vec::new();
        heap.push(Some(main));
        let mut index = index_new();
        index_insert(&mut index, 0, 0);
        let r = VMHeap { heap, index, free: capacity, capacity, threads: 1, tasks: 0 };
        proof {
            assert(r.heap@.drop_last() =~= Seq::<Option<Region>>::empty());
            assert(memory_total(main_g.memory@) == 0);
            assert(r.heap@.last() == Some(main_g));
            assert(heap_total(r.heap@.drop_last()) == 0);
            assert(region_bytes(Some(main_g)) == 0);
            assert(heap_total(r.heap@) == heap_total(r.heap@.drop_last()) + region_bytes(r.heap@.last()));
            assert forall|k: usize| #[trigger]
                index_entries(r.index).contains_key(k) <==> k < r.heap@.len() by {}
        }
        r
    }

    /// A heap of `capacity` bytes with no region.
    pub fn new_empty(capacity: usize) -> (r: Self)
        ensures
            r.wf(),
            r.free == capacity,
            r.capacity == capacity,
            r.heap@.len() == 0,
            r.threads == 0,
            r.tasks == 0,
    {
        let r = VMHeap {
            heap: Vec::new(),
            index: index_new(),
            free: capacity,
            capacity,
            threads: 0,
            tasks: 0,
        };
        r
    }

    /// The smallest unused region key and the first free slot.
    pub fn find_first_index(&mut self) -> (r: (usize, usize))
        requires
            old(self).wf(),
        ensures
            *final(self) == *old(self),
            !old(self).has_region(r.0),
            forall|k: usize| k < r.0 ==> old(self).has_region(k),
            r.1 == old(self).heap@.len(),
    {
        let mut key: usize = 0;
        while key < self.heap.len() && index_get(&self.index, key).is_some()
            invariant
                self.wf(),
                key <= self.heap@.len(),
                forall|k: usize| k < key ==> self.has_region(k),
            decreases self.heap@.len() - key,
        {
            key = key + 1;
        }
        let mut index: usize = 0;
        while index < self.heap.len() && self.heap[index].is_some()
            invariant
                self.wf(),
                index <= self.heap@.len(),
            decreases self.heap@.len() - index,
        {
            index = index + 1;
        }
        (key, index)
    }

    /// Places a new region under the first unused key.
    fn place_region(&mut self, region: Region) -> (key: usize)
        requires
            old(self).wf(),
            region.memory@.len() == 0,
        ensures
            final(self).heap@.len() == old(self).heap@.len() + 1,
            final(self).heap@ == old(self).heap@.push(Some(region)),
            key == old(self).heap@.len(),
            final(self).free == old(self).free,
            final(self).capacity == old(self).capacity,
            final(self).threads == old(self).threads,
            final(self).tasks == old(self).tasks,
            forall|k: usize| #[trigger]
                index_entries(final(self).index).contains_key(k) <==> k < final(self).heap@.len(),
            forall|k: usize| #[trigger]
                index_entries(final(self).index).contains_key(k) ==> index_entries(final(self).index)[k] == k,
            forall|i: int| 0 <= i < final(self).heap@.len() ==> (#[trigger] final(self).heap@[i]) is Some,
            final(self).free + heap_total(final(self).heap@) == final(self).capacity,
            forall|i: int, j: int|
                0 <= i < final(self).heap@.len() && 0 <= j < final(self).heap@[i]->Some_0.memory@.len()
                    ==> match #[trigger] final(self).heap@[i]->Some_0.memory@[j] {
                    Some(o) => o.size == o.data@.len(),
                    None => true,
                },
    {
        let (key, index) = self.find_first_index();
        proof {
            assert(key == self.heap@.len()) by {
                if key < self.heap@.len() {
                    assert(index_entries(self.index).contains_key(key));
                }
                if key > self.heap@.len() {
                    assert(self.has_region(self.heap@.len() as usize));
                }
            }
        }
        index_insert(&mut self.index, key, index);
        let ghost before = self.heap@;
        let ghost g = region;
        self.heap.push(Some(region));
        proof {
            assert(self.heap@.drop_last() =~= before);
            assert(memory_total(g.memory@) == 0);
            assert forall|i: int, j: int|
                0 <= i < self.heap@.len() && 0 <= j < self.heap@[i]->Some_0.memory@.len()
                    implies match #[trigger] self.heap@[i]->Some_0.memory@[j] {
                    Some(o) => o.size == o.data@.len(),
                    None => true,
                } by {
                if i < before.len() {
                    assert(self.heap@[i] == before[i]);
                    assert(old(self).heap@[i] == before[i]);
                }
            }
        }
        key
    }

    /// Adds a global region and returns its key.
    pub fn allocate_global_region(&mut self) -> (key: usize)
        requires
            old(self).wf(),
            old(self).heap@.len() < usize::MAX,
        ensures
            final(self).wf(),
            !old(self).has_region(key),
            final(self).has_region(key),
            final(self).heap@.len() == old(self).heap@.len() + 1,
            final(self).heap@[key as int]->Some_0.global,
            final(self).free == old(self).free,
            final(self).capacity == old(self).capacity,
    {
        let region = Region::new(true, None, None);
        let key = self.place_region(region);
        key
    }

    /// Adds a region owned by the next thread and returns its key.
    pub fn allocate_thread_region(&mut self) -> (key: usize)
        requires
            old(self).wf(),
            old(self).heap@.len() < usize::MAX,
        ensures
            final(self).wf(),
            !old(self).has_region(key),
            final(self).has_region(key),
            final(self).heap@.len() == old(self).heap@.len() + 1,
            final(self).heap@[key as int]->Some_0.assigned_thread == Some((old(self).threads + 1) as usize),
            final(self).threads == old(self).threads + 1,
            final(self).free == old(self).free,
            final(self).capacity == old(self).capacity,
    {
        let region = Region::new(false, Some(self.threads + 1), None);
        let key = self.place_region(region);
        self.threads = self.threads + 1;
        key
    }

    /// Adds a region owned by the next task and returns its key.
    pub fn allocate_task_region(&mut self) -> (key: usize)
        requires
            old(self).wf(),
            old(self).heap@.len() < usize::MAX,
        ensures
            final(self).wf(),
            !old(self).has_region(key),
            final(self).has_region(key),
            final(self).heap@.len() == old(self).heap@.len() + 1,
            final(self).heap@[key as int]->Some_0.assigned_task == Some((old(self).tasks + 1) as usize),
            final(self).tasks == old(self).tasks + 1,
            final(self).free == old(self).free,
            final(self).capacity == old(self).capacity,
    {
        let region = Region::new(false, None, Some(self.tasks + 1));
        let key = self.place_region(region);
        self.tasks = self.tasks + 1;
        key
    }
}

impl VMHeap {
    /// Allocations other than the one at (`region`, `index`) designate what they did before.
    pub open spec fn others_kept(&self, before: &VMHeap, region: usize, index: usize) -> bool {
        forall|b: Allocation|
            !(b.region == region && b.index == index) ==> #[trigger] self.object_at(b)
                == before.object_at(b)
    }

    /// Serializes `data` into a new object of region `region`, when the region
    /// exists and the object's bytes fit in the free bytes.
    pub fn malloc(&mut self, region: usize, data: &Immediates) -> (r: Result<Allocation, HeapError>)
        requires
            old(self).wf(),
            data.serializable(),
        ensures
            final(self).wf(),
            final(self).capacity == old(self).capacity,
            !old(self).has_region(region) ==> r == Err::<Allocation, HeapError>(
                HeapError::UnknownRegion,
            ),
            old(self).has_region(region) && storage_bytes(data@).len() > old(self).free ==> r
                == Err::<Allocation, HeapError>(HeapError::Overflow),
            r is Err ==> *final(self) == *old(self),
            old(self).has_region(region) && storage_bytes(data@).len() <= old(self).free ==> r is Ok,
            r matches Ok(a) ==> {
                &&& a.region == region
                &&& a.size == storage_bytes(data@).len()
                &&& a.immediate_type == kind_of(data@)
                &&& old(self).object_at(a) is None
                &&& final(self).object_at(a) matches Some(o) && o.data@ == storage_bytes(data@)
                    && o.size == a.size && o.marked == Colors::White
                &&& final(self).free == old(self).free - a.size
                &&& final(self).others_kept(old(self), a.region, a.index)
            },
    {
        let slot = match index_get(&self.index, region) {
            Some(s) => s,
            None => {
                return Err(HeapError::UnknownRegion);
            },
        };
        let obj = AllocatedObject::new(data);
        let size = obj.size;
        if size > self.free {
            return Err(HeapError::Overflow);
        }
        let immediate_type = data.to_immediate_type();
        let ghost old_heap = self.heap@;
        let mut taken: Option<Region> = None;
        self.heap.set_and_swap(slot, &mut taken);
        let mut g = match taken {
            Some(g) => g,
            None => {
                proof {
                    assert(old_heap[slot as int] is Some);
                }
                return Err(HeapError::UnknownRegion);
            },
        };
        let ghost old_mem = g.memory@;
        let ghost obj_g = obj;
        g.memory.push(Some(obj));
        let index = g.memory.len() - 1;
        let ghost g2 = g;
        self.heap.set(slot, Some(g));
        proof {
            assert(g2.memory@.drop_last() =~= old_mem);
            assert(memory_total(g2.memory@) == memory_total(old_mem) + size);
            lemma_heap_update(old_heap, slot as int, Some(g2));
            assert(self.heap@ =~= old_heap.update(slot as int, Some(g2)));
        }
        self.free = self.free - size;
        let a = Allocation { region, index, size, immediate_type };
        proof {
            assert forall|i: int, j: int|
                0 <= i < self.heap@.len() && 0 <= j < self.heap@[i]->Some_0.memory@.len()
                    implies match #[trigger] self.heap@[i]->Some_0.memory@[j] {
                    Some(o) => o.size == o.data@.len(),
                    None => true,
                } by {
                if i == slot {
                    if j < old_mem.len() {
                        assert(self.heap@[i]->Some_0.memory@[j] == old_mem[j]);
                        assert(old_mem[j] == old_heap[i]->Some_0.memory@[j]);
                    }
                }
            }
            assert forall|b: Allocation|
                !(b.region == a.region && b.index == a.index) implies #[trigger] self.object_at(b)
                == old(self).object_at(b) by {
                if index_entries(self.index).contains_key(b.region) {
                    let bs = index_entries(self.index)[b.region] as int;
                    if bs == slot && b.index < old_mem.len() {
                        assert(g2.memory@[b.index as int] == old_mem[b.index as int]);
                    }
                }
            }
        }
        Ok(a)
    }

    /// A snapshot of the object an allocation designates.
    pub fn get_obj(&self, a: Allocation) -> (r: Option<AllocatedObject>)
        requires
            self.wf(),
        ensures
            self.object_at(a) is None ==> r is None,
            r matches Some(c) ==> read_back(self, a) == Some(c.data@),
            self.object_at(a) matches Some(o) ==> r matches Some(c) && c.data@ == o.data@ && c.size
                == o.size && c.marked == o.marked,
    {
        let slot = match index_get(&self.index, a.region) {
            Some(s) => s,
            None => {
                return None;
            },
        };
        if slot >= self.heap.len() {
            return None;
        }
        match &self.heap[slot] {
            Some(g) => {
                if a.index >= g.memory.len() {
                    return None;
                }
                match &g.memory[a.index] {
                    Some(o) => Some(AllocatedObject { data: copy_bytes(&o.data), marked: o.marked, size: o.size }),
                    None => None,
                }
            },
            None => None,
        }
    }

    /// Removes the object an allocation designates and returns its bytes to the
    /// free count; an allocation already freed changes nothing.
    pub fn free(&mut self, a: Allocation)
        requires
            old(self).wf(),
        ensures
            final(self).wf(),
            final(self).capacity == old(self).capacity,
            final(self).object_at(a) is None,
            old(self).object_at(a) matches Some(o) ==> final(self).free == old(self).free + o.size,
            old(self).object_at(a) is None ==> final(self).free == old(self).free,
            final(self).others_kept(old(self), a.region, a.index),
    {
        let slot = match index_get(&self.index, a.region) {
            Some(s) => s,
            None => {
                return;
            },
        };
        if slot >= self.heap.len() {
            return;
        }
        let ghost old_heap = self.heap@;
        let mut taken: Option<Region> = None;
        self.heap.set_and_swap(slot, &mut taken);
        let mut g = match taken {
            Some(g) => g,
            None => {
                proof {
                    assert(old_heap[slot as int] is Some);
                }
                return;
            },
        };
        if a.index >= g.memory.len() {
            self.heap.set(slot, Some(g));
            proof {
                assert(self.heap@ =~= old_heap);
            }
            return;
        }
        let ghost old_mem = g.memory@;
        let mut gone: Option<AllocatedObject> = None;
        g.memory.set_and_swap(a.index, &mut gone);
        let ghost g2 = g;
        self.heap.set(slot, Some(g));
        proof {
            assert(g2.memory@ == old_mem.update(a.index as int, None));
            lemma_memory_update(old_mem, a.index as int, None);
            lemma_heap_update(old_heap, slot as int, Some(g2));
            assert(self.heap@ =~= old_heap.update(slot as int, Some(g2)));
            assert(old_heap[slot as int] == Some(old_heap[slot as int]->Some_0));
        }
        match gone {
            Some(o) => {
                proof {
                    lemma_heap_nonneg(self.heap@);
                }
                self.free = self.free + o.size;
            },
            None => {},
        }
        proof {
            assert forall|i: int, j: int|
                0 <= i < self.heap@.len() && 0 <= j < self.heap@[i]->Some_0.memory@.len()
                    implies match #[trigger] self.heap@[i]->Some_0.memory@[j] {
                    Some(o) => o.size == o.data@.len(),
                    None => true,
                } by {
                if i == slot && j != a.index {
                    assert(self.heap@[i]->Some_0.memory@[j] == old_heap[i]->Some_0.memory@[j]);
                }
            }
            assert forall|b: Allocation|
                !(b.region == a.region && b.index == a.index) implies #[trigger] self.object_at(b)
                == old(self).object_at(b) by {
                if index_entries(self.index).contains_key(b.region) {
                    let bs = index_entries(self.index)[b.region] as int;
                    if bs == slot && b.index < old_mem.len() {
                        assert(g2.memory@[b.index as int] == old_mem[b.index as int]);
                    }
                }
            }
        }
    }
}

proof fn lemma_le_bytes_len(u: nat, n: nat)
    ensures
        le_bytes(u, n).len() == n,
    decreases n,
{
    if n > 0 {
        lemma_le_bytes_len(u / 256, (n - 1) as nat);
    }
}

/// The bytes that reading an allocation back yields.
pub open spec fn read_back(h: &VMHeap, a: Allocation) -> Option<Seq<u8>> {
    match h.object_at(a) {
        Some(o) => Some(o.data@),
        None => None,
    }
}

/// A value other than an array, stored by `malloc` under handle `a`, reads back
/// as exactly its storage encoding; the encoding has the kind's fixed width
/// where the kind has one (8 bytes for the numbers, 1 for a boolean), and the
/// handle's size is that length.
pub proof fn lemma_heap_round_trip(h: VMHeap, v: ImmView, a: Allocation)
    requires
        !(v is Array),
        h.object_at(a) matches Some(o) && o.data@ == storage_bytes(v) && o.size == a.size,
        a.size == storage_bytes(v).len(),
    ensures
        read_back(&h, a) == Some(storage_bytes(v)),
        fixed_width(kind_of(v)) matches Some(w) ==> storage_bytes(v).len() == w && a.size == w,
{
    match v {
        ImmView::Integer(i) => lemma_le_bytes_len(crate::immediates::i64_bits(i), 8),
        ImmView::UInteger(u) => lemma_le_bytes_len(u as nat, 8),
        ImmView::Float(f) => lemma_le_bytes_len(f as nat, 8),
        _ => {},
    }
}

/// The value of kind `t` whose storage encoding is `b`, where there is one.
pub open spec fn from_storage(t: ImmediatesType, b: Seq<u8>) -> Option<ImmView> {
    match t {
        ImmediatesType::Null => if b.len() == NULL_WIDTH {
            Some(ImmView::Null)
        } else {
            None
        },
        ImmediatesType::Boolean => if b.len() == 1 {
            match bool_of(b[0]) {
                Some(x) => Some(ImmView::Boolean(x)),
                None => None,
            }
        } else {
            None
        },
        ImmediatesType::Integer => if b.len() == 8 {
            Some(ImmView::Integer(signed_of(le_value(b)) as i64))
        } else {
            None
        },
        ImmediatesType::UInteger => if b.len() == 8 {
            Some(ImmView::UInteger(le_value(b) as u64))
        } else {
            None
        },
        ImmediatesType::Float => if b.len() == 8 {
            Some(ImmView::Float(le_value(b) as u64))
        } else {
            None
        },
        ImmediatesType::StaticStr => if valid_utf8(b) {
            Some(ImmView::StaticStr(decode_utf8(b)))
        } else {
            None
        },
        ImmediatesType::MutStr => if valid_utf8(b) {
            Some(ImmView::MutStr(decode_utf8(b)))
        } else {
            None
        },
        ImmediatesType::Binary => Some(ImmView::Binary(b)),
        _ => None,
    }
}

/// Decodes the value of kind `kind` that the stored bytes encode.
pub fn read_value(kind: ImmediatesType, bytes: &Vec<u8>) -> (r: Option<Immediates>)
    ensures
        match from_storage(kind, bytes@) {
            Some(v) => r matches Some(x) && x@ == v,
            None => r is None,
        },
{
    let n = bytes.len();
    match kind {
        ImmediatesType::Null => if n == NULL_WIDTH {
            Some(Immediates::Null)
        } else {
            None
        },
        ImmediatesType::Boolean => if n == 1 {
            if bytes[0] == 1 {
                Some(Immediates::Boolean(true))
            } else if bytes[0] == 0 {
                Some(Immediates::Boolean(false))
            } else {
                None
            }
        } else {
            None
        },
        ImmediatesType::Integer | ImmediatesType::UInteger | ImmediatesType::Float => {
            if n != 8 {
                return None;
            }
            let u = read_le(bytes, 0, 8);
            proof {
                assert(bytes@.subrange(0, 8) =~= bytes@);
                lemma_le_value_bound(bytes@);
                reveal_with_fuel(pow256, 9);
            }
            let bits = u as u64;
            match kind {
                ImmediatesType::Integer => {
                    let i: i64 = if bits < 0x8000_0000_0000_0000 {
                        bits as i64
                    } else {
                        (bits as i128 - 0x1_0000_0000_0000_0000i128) as i64
                    };
                    Some(Immediates::Integer(i))
                },
                ImmediatesType::UInteger => Some(Immediates::UInteger(bits)),
                _ => Some(Immediates::Float(bits)),
            }
        },
        ImmediatesType::StaticStr | ImmediatesType::MutStr => {
            let copy = copy_bytes(bytes);
            match utf8_string(copy) {
                Some(s) => if kind == ImmediatesType::StaticStr {
                    Some(Immediates::StaticStr(s))
                } else {
                    Some(Immediates::MutStr(s))
                },
                None => None,
            }
        },
        ImmediatesType::Binary => Some(Immediates::Binary(copy_bytes(bytes))),
        _ => None,
    }
}

proof fn lemma_le_round_trip(u: nat, n: nat)
    ensures
        le_value(le_bytes(u, n)) == u % pow256(n),
    decreases n,
{
    if n > 0 {
        lemma_le_round_trip(u / 256, (n - 1) as nat);
        let p = pow256((n - 1) as nat);
        assert(le_bytes(u, n).drop_first() =~= le_bytes(u / 256, (n - 1) as nat));
        assert(p > 0) by {
            lemma_pow256_pos((n - 1) as nat);
        }
        assert(u % 256 + 256 * ((u / 256) % p) == u % (256 * p)) by (nonlinear_arith)
            requires
                p > 0,
        {
            vstd::arithmetic::div_mod::lemma_breakdown(u as int, 256, p as int);
        }
    }
}

proof fn lemma_pow256_pos(n: nat)
    ensures
        pow256(n) > 0,
    decreases n,
{
    if n > 0 {
        lemma_pow256_pos((n - 1) as nat);
    }
}

/// Decoding the storage encoding of a value other than an array gives the value
/// back.
pub proof fn lemma_storage_round_trip(v: ImmView)
    requires
        !(v is Array),
    ensures
        from_storage(kind_of(v), storage_bytes(v)) == Some(v),
{
    reveal_with_fuel(pow256, 9);
    match v {
        ImmView::Integer(i) => {
            lemma_le_round_trip(i64_bits(i), 8);
            lemma_le_bytes_len(i64_bits(i), 8);
            assert(pow256(8) == 0x1_0000_0000_0000_0000);
            assert(i64_bits(i) < 0x1_0000_0000_0000_0000);
            vstd::arithmetic::div_mod::lemma_small_mod(i64_bits(i), pow256(8));
            assert(le_value(storage_bytes(v)) == i64_bits(i));
            assert(signed_of(i64_bits(i)) == i);
            assert(storage_bytes(v).len() == 8);
            assert((signed_of(le_value(storage_bytes(v))) as i64) == i);
            assert(from_storage(kind_of(v), storage_bytes(v)) == Some(v));
        },
        ImmView::UInteger(u) => {
            lemma_le_round_trip(u as nat, 8);
            lemma_le_bytes_len(u as nat, 8);
            vstd::arithmetic::div_mod::lemma_small_mod(u as nat, pow256(8));
            assert(from_storage(kind_of(v), storage_bytes(v)) == Some(v));
        },
        ImmView::Float(f) => {
            lemma_le_round_trip(f as nat, 8);
            lemma_le_bytes_len(f as nat, 8);
            vstd::arithmetic::div_mod::lemma_small_mod(f as nat, pow256(8));
            assert(from_storage(kind_of(v), storage_bytes(v)) == Some(v));
        },
        ImmView::StaticStr(s) => {
            vstd::utf8::encode_utf8_valid_utf8(s);
            vstd::utf8::encode_utf8_decode_utf8(s);
            assert(from_storage(kind_of(v), storage_bytes(v)) == Some(v));
        },
        ImmView::MutStr(s) => {
            vstd::utf8::encode_utf8_valid_utf8(s);
            vstd::utf8::encode_utf8_decode_utf8(s);
            assert(from_storage(kind_of(v), storage_bytes(v)) == Some(v));
        },
        ImmView::Null => {
            assert(from_storage(kind_of(v), storage_bytes(v)) == Some(v));
        },
        ImmView::Boolean(x) => {
            assert(storage_bytes(v)[0] == if x { 1u8 } else { 0u8 });
            assert(from_storage(kind_of(v), storage_bytes(v)) == Some(v));
        },
        ImmView::Binary(x) => {
            assert(from_storage(kind_of(v), storage_bytes(v)) == Some(v));
        },
        _ => {},
    }
}

} // verus!
