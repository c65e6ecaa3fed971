use vstd::prelude::*;

use crate::disk::DiskManager;
use crate::errors::Error;
use crate::page::TablePage;
use crate::replacer::{AccessType, LRUKReplacer};
use crate::INVALID_PID;

verus! {

/// A frame's bookkeeping: which slot of the pool it is, and how many
/// callers currently pin the page inside it.
#[derive(Copy, Clone, Debug)]
pub struct FrameMetadata {
    pub frame_id: usize,
    pub pin_count: usize,
}

impl FrameMetadata {
    /// Bookkeeping for an unpinned frame.
    pub fn new(frame_id: usize) -> (r: FrameMetadata)
        ensures
            r.frame_id == frame_id,
            r.pin_count == 0,
    {
        FrameMetadata { frame_id, pin_count: 0 }
    }

    /// The current pin count.
    pub fn pin_count(&self) -> (r: usize)
        ensures
            r == self.pin_count,
    {
        self.pin_count
    }

    /// Adds one pin.
    pub fn increment_pin_count(&mut self)
        requires
            old(self).pin_count < usize::MAX,
        ensures
            *final(self) == (FrameMetadata { pin_count: (old(self).pin_count + 1) as usize, ..*old(self) }),
    {
        self.pin_count = self.pin_count + 1;
    }

    /// Removes one pin; the count must be positive.
    pub fn decrement_pin_count(&mut self)
        requires
            old(self).pin_count > 0,
        ensures
            *final(self) == (FrameMetadata { pin_count: (old(self).pin_count - 1) as usize, ..*old(self) }),
    {
        self.pin_count = self.pin_count - 1;
    }

    /// The frame this bookkeeping belongs to.
    pub fn frame_id(&self) -> (r: usize)
        ensures
            r == self.frame_id,
    {
        self.frame_id
    }
}

/// Whether some page-table entry maps the given page id.
pub open spec fn spec_pt_contains(pt: Seq<(u32, FrameMetadata)>, pid: u32) -> bool {
    exists|i: int| 0 <= i < pt.len() && (#[trigger] pt[i]).0 == pid
}

/// The index of the entry mapping the given page id.
pub open spec fn spec_pt_index(pt: Seq<(u32, FrameMetadata)>, pid: u32) -> int {
    choose|i: int| 0 <= i < pt.len() && (#[trigger] pt[i]).0 == pid
}

/// The bookkeeping mapped to the given page id.
pub open spec fn spec_pt_entry(pt: Seq<(u32, FrameMetadata)>, pid: u32) -> FrameMetadata {
    pt[spec_pt_index(pt, pid)].1
}

/// Whether some page-table entry occupies the given frame.
/// The slot array of a page as the table logic sees it: the frame's when
/// the page is resident, else the one parsed from its disk image.
pub open spec fn spec_slots_of(bpm: BufferPoolManager, pid: u32) -> Seq<crate::page::TupleInfo> {
    if bpm.spec_resident(pid) {
        bpm.pages@[bpm.spec_frame_of(pid)].tuple_info@
    } else {
        crate::page::spec_parsed_slots(bpm.disk_manager.pages@[pid as int]@)
    }
}

/// The bytes of a page as the table logic sees it, wherever it lives.
pub open spec fn spec_bytes_of(bpm: BufferPoolManager, pid: u32) -> Seq<u8> {
    if bpm.spec_resident(pid) {
        bpm.pages@[bpm.spec_frame_of(pid)].data@
    } else {
        bpm.disk_manager.pages@[pid as int]@
    }
}

/// Whether a record id names a tombstoned slot of an allocated page.
pub open spec fn spec_slot_deleted(bpm: BufferPoolManager, rid: crate::record_id::RecordId) -> bool {
    &&& 1 <= rid.page_id <= bpm.disk_manager.current_page_no
    &&& rid.slot_id < spec_slots_of(bpm, rid.page_id).len()
    &&& spec_slots_of(bpm, rid.page_id)[rid.slot_id as int].metadata.spec_is_deleted()
}

/// Whether a record id names a live slot of an allocated page.
pub open spec fn spec_slot_live(bpm: BufferPoolManager, rid: crate::record_id::RecordId) -> bool {
    &&& 1 <= rid.page_id <= bpm.disk_manager.current_page_no
    &&& rid.slot_id < spec_slots_of(bpm, rid.page_id).len()
    &&& !spec_slots_of(bpm, rid.page_id)[rid.slot_id as int].metadata.spec_is_deleted()
}

/// The bytes stored under a record id's slot.
pub open spec fn spec_tuple_at(bpm: BufferPoolManager, rid: crate::record_id::RecordId) -> Seq<
    u8,
> {
    let s = spec_slots_of(bpm, rid.page_id)[rid.slot_id as int];
    spec_bytes_of(bpm, rid.page_id).subrange(s.offset as int, s.offset + s.size_bytes)
}

/// One buffer-pool step keeps the table logic's view of the stored slots:
/// tombstones stay tombstones, and live slots keep their metadata and
/// their bytes.
pub open spec fn spec_slots_preserved(bpm0: BufferPoolManager, bpm1: BufferPoolManager) -> bool {
    &&& (forall|r2: crate::record_id::RecordId|
        #[trigger] spec_slot_deleted(bpm0, r2) ==> spec_slot_deleted(bpm1, r2))
    &&& (forall|r2: crate::record_id::RecordId|
        #[trigger] spec_slot_live(bpm0, r2) ==> spec_slot_live(bpm1, r2) && spec_tuple_at(
            bpm1,
            r2,
        ) == spec_tuple_at(bpm0, r2))
}

/// Preservation of the stored slots composes across consecutive steps.
pub proof fn lemma_slots_preserved_trans(
    a: BufferPoolManager,
    b: BufferPoolManager,
    c: BufferPoolManager,
)
    requires
        spec_slots_preserved(a, b),
        spec_slots_preserved(b, c),
    ensures
        spec_slots_preserved(a, c),
{
    assert forall|r2: crate::record_id::RecordId| #[trigger]
        spec_slot_deleted(a, r2) implies spec_slot_deleted(c, r2) by {
        assert(spec_slot_deleted(b, r2));
    }
    assert forall|r2: crate::record_id::RecordId| #[trigger]
        spec_slot_live(a, r2) implies spec_slot_live(c, r2) && spec_tuple_at(c, r2)
        == spec_tuple_at(a, r2) by {
        assert(spec_slot_live(b, r2));
    }
}

/// A step that leaves the pool as it was preserves the stored slots.
pub proof fn lemma_slots_preserved_refl(a: BufferPoolManager)
    ensures
        spec_slots_preserved(a, a),
{
}

/// A step that keeps every allocated page where it was, with its frame
/// contents or its disk image, preserves the stored slots.
pub proof fn lemma_views_preserved_frames(b0: BufferPoolManager, b1: BufferPoolManager)
    requires
        b1.disk_manager.current_page_no >= b0.disk_manager.current_page_no,
        forall|q: u32|
            1 <= q <= b0.disk_manager.current_page_no ==> b1.spec_resident(q)
                == b0.spec_resident(q),
        forall|q: u32|
            1 <= q <= b0.disk_manager.current_page_no && b0.spec_resident(q)
                ==> b1.pages@[b1.spec_frame_of(q)].tuple_info@
                == b0.pages@[b0.spec_frame_of(q)].tuple_info@
                && b1.pages@[b1.spec_frame_of(q)].data@ == b0.pages@[b0.spec_frame_of(q)].data@,
        forall|q: u32|
            1 <= q <= b0.disk_manager.current_page_no && !b0.spec_resident(q)
                ==> b1.disk_manager.pages@[q as int] == b0.disk_manager.pages@[q as int],
    ensures
        spec_slots_preserved(b0, b1),
{
    assert forall|r2: crate::record_id::RecordId| #[trigger]
        spec_slot_deleted(b0, r2) implies spec_slot_deleted(b1, r2) by {
        assert(spec_slots_of(b1, r2.page_id) == spec_slots_of(b0, r2.page_id));
    }
    assert forall|r2: crate::record_id::RecordId| #[trigger]
        spec_slot_live(b0, r2) implies spec_slot_live(b1, r2) && spec_tuple_at(b1, r2)
        == spec_tuple_at(b0, r2) by {
        assert(spec_slots_of(b1, r2.page_id) == spec_slots_of(b0, r2.page_id));
        assert(spec_bytes_of(b1, r2.page_id) == spec_bytes_of(b0, r2.page_id));
    }
}

pub open spec fn spec_pt_uses_frame(pt: Seq<(u32, FrameMetadata)>, f: int) -> bool {
    exists|i: int| 0 <= i < pt.len() && (#[trigger] pt[i]).1.frame_id == f
}

/// The buffer pool: a fixed set of frames each holding one page, a page
/// table from resident page ids to frames, a free list, the replacement
/// policy, and the disk the pages come from and go to.
#[derive(Debug)]
pub struct BufferPoolManager {
    /// Number of frames in the pool.
    pub pool_size: usize,
    /// The page held by each frame; a free frame holds the invalid page.
    pub pages: Vec<TablePage>,
    /// Which frame each resident page id occupies, with its pin count.
    pub page_table: Vec<(u32, FrameMetadata)>,
    /// The storage the pages live on.
    pub disk_manager: DiskManager,
    /// The eviction policy over the frames.
    pub replacer: LRUKReplacer,
    /// Frames that hold no page at all.
    pub free_list: Vec<usize>,
}

impl BufferPoolManager {
    /// Every page-table entry names a frame inside the pool that really
    /// holds its page, no two entries share a page id or a frame, no free
    /// frame is mapped, and the structures cover the pool between them.
    pub open spec fn base_wf(&self) -> bool {
        let pt = self.page_table@;
        &&& self.pages@.len() == self.pool_size
        &&& self.replacer.wf()
        &&& self.replacer.max_size == self.pool_size
        &&& self.disk_manager.wf()
        &&& forall|i: int|
            0 <= i < pt.len() ==> (#[trigger] pt[i]).1.frame_id < self.pool_size
        &&& forall|i: int|
            0 <= i < pt.len() ==> (#[trigger] pt[i]).0 == self.pages@[pt[i].1.frame_id as int].page_id
        &&& forall|i: int|
            0 <= i < pt.len() ==> 1 <= (#[trigger] pt[i]).0 <= self.disk_manager.current_page_no
        &&& forall|i: int, j: int| 0 <= i < j < pt.len() ==> (#[trigger] pt[i]).0 != (#[trigger] pt[j]).0
        &&& forall|i: int, j: int|
            0 <= i < j < pt.len() ==> (#[trigger] pt[i]).1.frame_id != (#[trigger] pt[j]).1.frame_id
        &&& forall|f: int| 0 <= f < self.pages@.len() ==> (#[trigger] self.pages@[f]).wf()
        &&& forall|i: int|
            0 <= i < self.free_list@.len() ==> (#[trigger] self.free_list@[i]) < self.pool_size
        &&& forall|i: int, j: int|
            0 <= i < j < self.free_list@.len() ==> (#[trigger] self.free_list@[i]) != (
            #[trigger] self.free_list@[j])
        &&& forall|i: int|
            0 <= i < self.free_list@.len() ==> !spec_pt_uses_frame(
                pt,
                (#[trigger] self.free_list@[i]) as int,
            )
        &&& forall|f: int|
            0 <= f < self.pool_size && #[trigger] self.replacer.spec_tracked(f)
                ==> spec_pt_uses_frame(pt, f)
    }

    /// Every frame is either free or mapped, except possibly one that a
    /// caller is in the middle of reusing.
    pub open spec fn covers_except(&self, except: Option<int>) -> bool {
        forall|f: int|
            0 <= f < self.pool_size && Some(f) != except ==> (self.free_list@.contains(f as usize)
                || spec_pt_uses_frame(self.page_table@, f))
    }

    /// Every mapped frame is known to the replacement policy, so a page
    /// whose pin count falls to zero can always be marked evictable.
    pub open spec fn tracked_wf(&self) -> bool {
        forall|i: int|
            0 <= i < self.page_table@.len() ==> self.replacer.spec_tracked(
                (#[trigger] self.page_table@[i]).1.frame_id as int,
            )
    }

    /// The pool's invariant between operations.
    pub open spec fn wf(&self) -> bool {
        self.base_wf() && self.covers_except(Option::None) && self.tracked_wf()
    }

    /// Whether a page is resident.
    pub open spec fn spec_resident(&self, pid: u32) -> bool {
        spec_pt_contains(self.page_table@, pid)
    }

    /// The pin count of a resident page.
    pub open spec fn spec_pin_count(&self, pid: u32) -> int {
        spec_pt_entry(self.page_table@, pid).pin_count as int
    }

    /// The frame of a resident page.
    pub open spec fn spec_frame_of(&self, pid: u32) -> int {
        spec_pt_entry(self.page_table@, pid).frame_id as int
    }

    /// The index of the page-table entry holding the given page id.
    fn pt_find(&self, page_id: u32) -> (r: Option<usize>)
        requires
            forall|i: int, j: int|
                0 <= i < j < self.page_table@.len() ==> (#[trigger] self.page_table@[i]).0 != (
                #[trigger] self.page_table@[j]).0,
        ensures
            r matches Some(i) ==> i < self.page_table@.len() && self.page_table@[i as int].0
                == page_id && i == spec_pt_index(self.page_table@, page_id)
                && self.spec_resident(page_id),
            r is None ==> !self.spec_resident(page_id),
    {
        let n = self.page_table.len();
        let mut i: usize = 0;
        while i < n
            invariant
                n == self.page_table@.len(),
                i <= n,
                forall|x: int, y: int|
                    0 <= x < y < self.page_table@.len() ==> (#[trigger] self.page_table@[x]).0
                        != (#[trigger] self.page_table@[y]).0,
                forall|j: int| 0 <= j < i ==> (#[trigger] self.page_table@[j]).0 != page_id,
            decreases n - i,
        {
            if self.page_table[i].0 == page_id {
                proof {
                    assert(self.page_table@[i as int].0 == page_id);
                    assert(spec_pt_contains(self.page_table@, page_id));
                    let w = spec_pt_index(self.page_table@, page_id);
                    assert(0 <= w < self.page_table@.len() && self.page_table@[w].0 == page_id);
                    if w != i as int {
                        if w < i as int {
                            assert(self.page_table@[w].0 != self.page_table@[i as int].0);
                        } else {
                            assert(self.page_table@[i as int].0 != self.page_table@[w].0);
                        }
                    }
                }
                return Some(i);
            }
            i = i + 1;
        }
        Option::None
    }
}

} // verus!

verus! {

impl BufferPoolManager {
    /// The index of the page-table entry using the given frame.
    fn pt_find_frame(&self, frame_id: usize) -> (r: Option<usize>)
        ensures
            r matches Some(i) ==> i < self.page_table@.len()
                && self.page_table@[i as int].1.frame_id == frame_id,
            r is None ==> !spec_pt_uses_frame(self.page_table@, frame_id as int),
    {
        let n = self.page_table.len();
        let mut i: usize = 0;
        while i < n
            invariant
                n == self.page_table@.len(),
                i <= n,
                forall|j: int|
                    0 <= j < i ==> (#[trigger] self.page_table@[j]).1.frame_id != frame_id,
            decreases n - i,
        {
            if self.page_table[i].1.frame_id() == frame_id {
                return Some(i);
            }
            i = i + 1;
        }
        Option::None
    }

    /// A pool of the given size over the given disk, with every frame free.
    pub fn new(pool_size: usize, replacer_k: usize, disk_manager: DiskManager) -> (r:
        BufferPoolManager)
        requires
            replacer_k >= 1,
            disk_manager.wf(),
        ensures
            r.wf(),
            r.pool_size == pool_size,
            r.free_list@.len() == pool_size,
            r.page_table@.len() == 0,
            r.disk_manager == disk_manager,
            r.replacer.k == replacer_k,
    {
        let mut pages: Vec<TablePage> = Vec::new();
        let mut free_list: Vec<usize> = Vec::new();
        let mut i: usize = 0;
        while i < pool_size
            invariant
                i <= pool_size,
                pages@.len() == i,
                free_list@.len() == i,
                forall|f: int| 0 <= f < i ==> (#[trigger] pages@[f]).wf(),
                forall|j: int| 0 <= j < i ==> (#[trigger] free_list@[j]) == j,
            decreases pool_size - i,
        {
            pages.push(TablePage::create_invalid_page());
            free_list.push(i);
            i = i + 1;
        }
        let replacer = LRUKReplacer::new(pool_size, replacer_k);
        let r = BufferPoolManager {
            pool_size,
            pages,
            page_table: Vec::new(),
            disk_manager,
            replacer,
            free_list,
        };
        proof {
            assert forall|f: int| 0 <= f < pool_size && Some(f) != Option::<int>::None implies (
            r.free_list@.contains(f as usize) || spec_pt_uses_frame(r.page_table@, f)) by {
                assert(r.free_list@[f] == f as usize);
            }
        }
        r
    }

    /// A fresh pool builder.
    pub fn builder() -> (r: BufferPoolManagerBuilder)
        ensures
            r.pool_size is None,
            r.replacer_k is None,
            r.disk_manager is None,
    {
        BufferPoolManagerBuilder {
            pool_size: Option::None,
            replacer_k: Option::None,
            disk_manager: Option::None,
        }
    }

    /// The number of frames.
    pub fn size(&self) -> (r: usize)
        ensures
            r == self.pool_size,
    {
        self.pool_size
    }

    /// The pin count of a resident page.
    pub fn get_pin_count(&self, page_id: &u32) -> (r: Option<usize>)
        requires
            self.wf(),
        ensures
            r is Some <==> self.spec_resident(*page_id),
            r matches Some(c) ==> c == self.spec_pin_count(*page_id),
    {
        match self.pt_find(*page_id) {
            Some(i) => Some(self.page_table[i].1.pin_count()),
            Option::None => Option::None,
        }
    }

    /// A read-only view of a resident page.
    pub fn get_page(&self, page_id: &u32) -> (r: Option<&TablePage>)
        requires
            self.wf(),
        ensures
            r is Some <==> self.spec_resident(*page_id),
            r matches Some(p) ==> *p == self.pages@[self.spec_frame_of(*page_id)]
                && p.page_id == *page_id && p.wf(),
    {
        match self.pt_find(*page_id) {
            Some(i) => {
                let f = self.page_table[i].1.frame_id();
                Some(&self.pages[f])
            },
            Option::None => Option::None,
        }
    }

    /// Whether a resident page is dirty.
    pub fn get_is_dirty(&self, page_id: &u32) -> (r: Option<bool>)
        requires
            self.wf(),
        ensures
            r is Some <==> self.spec_resident(*page_id),
            r matches Some(d) ==> d == self.pages@[self.spec_frame_of(*page_id)].is_dirty,
    {
        match self.get_page(page_id) {
            Some(p) => Some(p.get_is_dirty()),
            Option::None => Option::None,
        }
    }

    /// Sets a resident page's dirty flag outright.
    pub fn set_is_dirty(&mut self, page_id: &u32, is_dirty: bool) -> (r: Result<(), Error>)
        requires
            old(self).wf(),
        ensures
            final(self).wf(),
            r is Ok <==> old(self).spec_resident(*page_id),
            r is Err ==> *final(self) == *old(self),
            final(self).page_table@ == old(self).page_table@,
            final(self).free_list@ == old(self).free_list@,
            final(self).replacer == old(self).replacer,
            final(self).disk_manager == old(self).disk_manager,
            final(self).pool_size == old(self).pool_size,
            r is Ok ==> final(self).pages@ =~= old(self).pages@.update(
                old(self).spec_frame_of(*page_id),
                TablePage { is_dirty, ..old(self).pages@[old(self).spec_frame_of(*page_id)] },
            ),
    {
        let i = match self.pt_find(*page_id) {
            Some(i) => i,
            Option::None => {
                return Err(Error::NotFound);
            },
        };
        let f = self.page_table[i].1.frame_id();
        let ghost pre = *self;
        let page = &mut self.pages[f];
        page.is_dirty = is_dirty;
        proof {
            assert(self.pages@[f as int].wf());
            assert forall|x: int| 0 <= x < self.page_table@.len() implies (
            #[trigger] self.page_table@[x]).0
                == self.pages@[self.page_table@[x].1.frame_id as int].page_id by {
                if self.page_table@[x].1.frame_id != f {
                    assert(self.pages@[self.page_table@[x].1.frame_id as int] == pre.pages@[self.page_table@[x].1.frame_id as int]);
                }
            }
            assert(self.pages@ =~= pre.pages@.update(
                f as int,
                TablePage { is_dirty, ..pre.pages@[f as int] },
            ));
        }
        Ok(())
    }

    /// Marks a resident page's frame evictable or pinned in the policy.
    pub fn set_evictable(&mut self, page_id: &u32, is_evictable: bool) -> (r: Result<(), Error>)
        requires
            old(self).wf(),
        ensures
            final(self).wf(),
            r is Ok <==> old(self).spec_resident(*page_id) && old(self).replacer.spec_tracked(
                old(self).spec_frame_of(*page_id),
            ),
            final(self).pages@ == old(self).pages@,
            final(self).page_table@ == old(self).page_table@,
            final(self).free_list@ == old(self).free_list@,
            final(self).disk_manager == old(self).disk_manager,
            final(self).pool_size == old(self).pool_size,
            r is Err ==> final(self).replacer == old(self).replacer,
            r is Ok ==> {
                &&& final(self).replacer.spec_tracked(old(self).spec_frame_of(*page_id))
                &&& final(self).replacer.spec_evictable(old(self).spec_frame_of(*page_id))
                    == is_evictable
                &&& (forall|g: int|
                    0 <= g < old(self).pool_size && g != old(self).spec_frame_of(*page_id)
                        ==> final(self).replacer.spec_tracked(g) == old(self).replacer.spec_tracked(g) && final(self).replacer.spec_evictable(g) == old(self).replacer.spec_evictable(g))
                &&& final(self).replacer.curr_size == old(self).replacer.curr_size + (
                if is_evictable && !old(self).replacer.spec_evictable(
                    old(self).spec_frame_of(*page_id),
                ) {
                    1int
                } else if !is_evictable && old(self).replacer.spec_evictable(
                    old(self).spec_frame_of(*page_id),
                ) {
                    -1int
                } else {
                    0int
                })
            },
    {
        let i = match self.pt_find(*page_id) {
            Some(i) => i,
            Option::None => {
                return Err(Error::NotFound);
            },
        };
        let f = self.page_table[i].1.frame_id();
        let r = self.replacer_set_evictable(f, is_evictable);
        r
    }

    /// Forwards an evictability change for one frame to the policy.
    fn replacer_set_evictable(&mut self, frame_id: usize, is_evictable: bool) -> (r: Result<
        (),
        Error,
    >)
        requires
            old(self).wf(),
            spec_pt_uses_frame(old(self).page_table@, frame_id as int),
            frame_id < old(self).pool_size,
        ensures
            final(self).wf(),
            r is Ok <==> old(self).replacer.spec_tracked(frame_id as int),
            final(self).pages@ == old(self).pages@,
            final(self).page_table@ == old(self).page_table@,
            final(self).free_list@ == old(self).free_list@,
            final(self).disk_manager == old(self).disk_manager,
            final(self).pool_size == old(self).pool_size,
            r is Err ==> final(self).replacer == old(self).replacer,
            r is Ok ==> {
                &&& final(self).replacer.spec_tracked(frame_id as int)
                &&& final(self).replacer.spec_evictable(frame_id as int) == is_evictable
                &&& (forall|g: int|
                    0 <= g < old(self).pool_size && g != frame_id ==> final(self).replacer.spec_tracked(g) == old(self).replacer.spec_tracked(g) && final(self).replacer.spec_evictable(g) == old(self).replacer.spec_evictable(g))
                &&& final(self).replacer.curr_size == old(self).replacer.curr_size + (
                if is_evictable && !old(self).replacer.spec_evictable(frame_id as int) {
                    1int
                } else if !is_evictable && old(self).replacer.spec_evictable(frame_id as int) {
                    -1int
                } else {
                    0int
                })
            },
    {
        let ghost pre = *self;
        let r = self.replacer.set_evictable(&frame_id, is_evictable);
        proof {
            if r is Ok {
                assert forall|f: int|
                    0 <= f < self.pool_size && #[trigger] self.replacer.spec_tracked(f)
                        implies spec_pt_uses_frame(self.page_table@, f) by {
                    if f != frame_id {
                        assert(pre.replacer.spec_tracked(f));
                    }
                }
            }
        }
        r
    }
}


/// The page a frame holds, by the page table: the id of the entry that
/// names the frame.
pub open spec fn spec_frame_page(pt: Seq<(u32, FrameMetadata)>, f: int) -> u32 {
    pt[choose|x: int| 0 <= x < pt.len() && (#[trigger] pt[x]).1.frame_id == f].0
}

/// An index whose entry holds the sought page id is the one `spec_pt_index`
/// finds, as long as no two entries share a page id.
pub proof fn lemma_pt_index_at(pt: Seq<(u32, FrameMetadata)>, pid: u32, i: int)
    requires
        0 <= i < pt.len(),
        pt[i].0 == pid,
        forall|x: int, y: int|
            0 <= x < y < pt.len() ==> (#[trigger] pt[x]).0 != (#[trigger] pt[y]).0,
    ensures
        spec_pt_contains(pt, pid),
        spec_pt_index(pt, pid) == i,
{
    assert(spec_pt_contains(pt, pid));
    let w = spec_pt_index(pt, pid);
    if w < i {
        assert(pt[w].0 != pt[i].0);
    } else if w > i {
        assert(pt[i].0 != pt[w].0);
    }
}

/// Two page tables that agree on keys and frames map the same pages and
/// use the same frames.
pub proof fn lemma_pt_same_shape(a: Seq<(u32, FrameMetadata)>, b: Seq<(u32, FrameMetadata)>)
    requires
        a.len() == b.len(),
        forall|x: int|
            0 <= x < a.len() ==> (#[trigger] a[x]).0 == b[x].0 && a[x].1.frame_id
                == b[x].1.frame_id,
    ensures
        forall|pid: u32| spec_pt_contains(a, pid) <==> spec_pt_contains(b, pid),
        forall|f: int| spec_pt_uses_frame(a, f) <==> spec_pt_uses_frame(b, f),
{
    assert forall|pid: u32| spec_pt_contains(a, pid) <==> spec_pt_contains(b, pid) by {
        if spec_pt_contains(a, pid) {
            let w = choose|w: int| 0 <= w < a.len() && (#[trigger] a[w]).0 == pid;
            assert(b[w].0 == pid);
        }
        if spec_pt_contains(b, pid) {
            let w = choose|w: int| 0 <= w < b.len() && (#[trigger] b[w]).0 == pid;
            assert(a[w].0 == pid);
        }
    }
    assert forall|f: int| spec_pt_uses_frame(a, f) <==> spec_pt_uses_frame(b, f) by {
        if spec_pt_uses_frame(a, f) {
            let w = choose|w: int| 0 <= w < a.len() && (#[trigger] a[w]).1.frame_id == f;
            assert(b[w].1.frame_id == f);
        }
        if spec_pt_uses_frame(b, f) {
            let w = choose|w: int| 0 <= w < b.len() && (#[trigger] b[w]).1.frame_id == f;
            assert(a[w].1.frame_id == f);
        }
    }
}

/// A builder for a buffer pool.
pub struct BufferPoolManagerBuilder {
    pub pool_size: Option<usize>,
    pub replacer_k: Option<usize>,
    pub disk_manager: Option<DiskManager>,
}

impl BufferPoolManagerBuilder {
    /// Sets the number of frames.
    pub fn pool_size(self, pool_size: usize) -> (r: BufferPoolManagerBuilder)
        ensures
            r.pool_size == Some(pool_size),
            r.replacer_k == self.replacer_k,
            r.disk_manager == self.disk_manager,
    {
        BufferPoolManagerBuilder {
            pool_size: Some(pool_size),
            replacer_k: self.replacer_k,
            disk_manager: self.disk_manager,
        }
    }

    /// Sets the replacement policy's parameter.
    pub fn replacer_k(self, replacer_k: usize) -> (r: BufferPoolManagerBuilder)
        requires
            replacer_k >= 1,
        ensures
            r.replacer_k == Some(replacer_k),
            r.pool_size == self.pool_size,
            r.disk_manager == self.disk_manager,
    {
        BufferPoolManagerBuilder {
            pool_size: self.pool_size,
            replacer_k: Some(replacer_k),
            disk_manager: self.disk_manager,
        }
    }

    /// Sets the disk the pool works over.
    pub fn disk_manager(self, disk_manager: DiskManager) -> (r: BufferPoolManagerBuilder)
        requires
            disk_manager.wf(),
        ensures
            r.disk_manager matches Some(d) && d.wf() && d == disk_manager,
            r.pool_size == self.pool_size,
            r.replacer_k == self.replacer_k,
    {
        BufferPoolManagerBuilder {
            pool_size: self.pool_size,
            replacer_k: self.replacer_k,
            disk_manager: Some(disk_manager),
        }
    }

    /// Builds the pool; every part must have been set.
    pub fn build(self) -> (r: BufferPoolManager)
        requires
            self.pool_size is Some,
            self.replacer_k matches Some(k) && k >= 1,
            self.disk_manager matches Some(d) && d.wf(),
        ensures
            r.wf(),
            r.pool_size == self.pool_size->0,
            r.free_list@.len() == r.pool_size,
            r.page_table@.len() == 0,
            r.replacer.k == self.replacer_k->0,
            r.disk_manager == self.disk_manager->0,
    {
        let pool_size = match self.pool_size {
            Some(p) => p,
            Option::None => 0,
        };
        let replacer_k = match self.replacer_k {
            Some(k) => k,
            Option::None => 1,
        };
        let disk_manager = match self.disk_manager {
            Some(d) => d,
            Option::None => DiskManager::new(),
        };
        BufferPoolManager::new(pool_size, replacer_k, disk_manager)
    }
}

} // verus!

verus! {

impl BufferPoolManager {
    /// Adds one pin to a resident page.
    pub fn increment_pin_count(&mut self, page_id: &u32) -> (r: Result<(), Error>)
        requires
            old(self).wf(),
        ensures
            final(self).wf(),
            r is Ok <==> old(self).spec_resident(*page_id) && old(self).spec_pin_count(*page_id)
                < usize::MAX,
            r is Err ==> *final(self) == *old(self),
            final(self).pages@ == old(self).pages@,
            final(self).free_list@ == old(self).free_list@,
            final(self).replacer == old(self).replacer,
            final(self).disk_manager == old(self).disk_manager,
            final(self).pool_size == old(self).pool_size,
            r is Ok ==> final(self).spec_resident(*page_id) && final(self).spec_pin_count(
                *page_id,
            ) == old(self).spec_pin_count(*page_id) + 1 && final(self).spec_frame_of(*page_id)
                == old(self).spec_frame_of(*page_id),
            r is Ok ==> final(self).page_table@ =~= old(self).page_table@.update(
                spec_pt_index(old(self).page_table@, *page_id),
                (
                    *page_id,
                    FrameMetadata {
                        frame_id: spec_pt_entry(old(self).page_table@, *page_id).frame_id,
                        pin_count: (spec_pt_entry(old(self).page_table@, *page_id).pin_count
                            + 1) as usize,
                    },
                ),
            ),
    {
        let i = match self.pt_find(*page_id) {
            Some(i) => i,
            Option::None => {
                return Err(Error::NotFound);
            },
        };
        if self.page_table[i].1.pin_count() == usize::MAX {
            proof {
                assert(self.page_table@[i as int].0 == *page_id);
                lemma_pt_index_at(self.page_table@, *page_id, i as int);
            }
            return Err(Error::OverflowError);
        }
        let entry = &mut self.page_table[i];
        entry.1.increment_pin_count();
        proof {
            let pt = self.page_table@;
            let pre_pt = old(self).page_table@;
            assert forall|x: int|
                0 <= x < pt.len() implies (#[trigger] pt[x]).0 == pre_pt[x].0 && pt[x].1.frame_id
                    == pre_pt[x].1.frame_id by {
                if x != i as int {
                    assert(pt[x] == pre_pt[x]);
                }
            }
            lemma_pt_same_shape(pt, pre_pt);
            assert(self.spec_resident(*page_id)) by {
                assert(self.page_table@[i as int].0 == *page_id);
            }
            lemma_pt_index_at(self.page_table@, *page_id, i as int);
        }
        Ok(())
    }

    /// Removes one pin from a resident page; the count must be positive.
    pub fn decrement_pin_count(&mut self, page_id: &u32) -> (r: Result<(), Error>)
        requires
            old(self).wf(),
            old(self).spec_resident(*page_id) ==> old(self).spec_pin_count(*page_id) > 0,
        ensures
            final(self).wf(),
            r is Ok <==> old(self).spec_resident(*page_id),
            r is Err ==> *final(self) == *old(self),
            final(self).pages@ == old(self).pages@,
            final(self).free_list@ == old(self).free_list@,
            final(self).replacer == old(self).replacer,
            final(self).disk_manager == old(self).disk_manager,
            final(self).pool_size == old(self).pool_size,
            r is Ok ==> final(self).spec_resident(*page_id) && final(self).spec_pin_count(
                *page_id,
            ) == old(self).spec_pin_count(*page_id) - 1 && final(self).spec_frame_of(*page_id)
                == old(self).spec_frame_of(*page_id),
    {
        let i = match self.pt_find(*page_id) {
            Some(i) => i,
            Option::None => {
                return Err(Error::NotFound);
            },
        };
        let entry = &mut self.page_table[i];
        entry.1.decrement_pin_count();
        proof {
            let pt = self.page_table@;
            let pre_pt = old(self).page_table@;
            assert forall|x: int|
                0 <= x < pt.len() implies (#[trigger] pt[x]).0 == pre_pt[x].0 && pt[x].1.frame_id
                    == pre_pt[x].1.frame_id by {
                if x != i as int {
                    assert(pt[x] == pre_pt[x]);
                }
            }
            lemma_pt_same_shape(pt, pre_pt);
            assert(self.spec_resident(*page_id)) by {
                assert(self.page_table@[i as int].0 == *page_id);
            }
            lemma_pt_index_at(self.page_table@, *page_id, i as int);
        }
        Ok(())
    }

    /// Records an access to a mapped frame and pins it against eviction.
    pub fn record_access(&mut self, frame_id: usize) -> (r: Result<(), Error>)
        requires
            old(self).base_wf(),
            old(self).covers_except(Option::None),
            spec_pt_uses_frame(old(self).page_table@, frame_id as int),
            frame_id < old(self).pool_size,
            forall|x: int|
                0 <= x < old(self).page_table@.len() && (
                #[trigger] old(self).page_table@[x]).1.frame_id != frame_id ==> old(self).replacer.spec_tracked(old(self).page_table@[x].1.frame_id as int),
            old(self).replacer.current_timestamp < usize::MAX || old(self).replacer.spec_tracked(frame_id as int),
        ensures
            final(self).wf(),
            final(self).pages@ == old(self).pages@,
            final(self).page_table@ == old(self).page_table@,
            final(self).free_list@ == old(self).free_list@,
            final(self).disk_manager == old(self).disk_manager,
            final(self).pool_size == old(self).pool_size,
            final(self).replacer.spec_tracked(frame_id as int),
            !final(self).replacer.spec_evictable(frame_id as int),
            final(self).replacer.curr_size == old(self).replacer.curr_size - (if old(self).replacer.spec_evictable(frame_id as int) {
                1int
            } else {
                0int
            }),
            forall|g: int|
                0 <= g < old(self).pool_size && g != frame_id ==> final(self).replacer.spec_tracked(g) == old(self).replacer.spec_tracked(g) && final(self).replacer.spec_evictable(g) == old(self).replacer.spec_evictable(g),
    {
        if self.replacer.current_timestamp == usize::MAX {
            proof {
                assert(self.tracked_wf());
                assert(self.wf());
            }
            let r = self.replacer_set_evictable(frame_id, false);
            proof {
                assert(r is Ok);
            }
            return Ok(());
        }
        let ghost pre = *self;
        proof {
            if !self.replacer.spec_tracked(frame_id as int) {
                crate::replacer::lemma_evictable_count_member_bound(
                    self.replacer.node_store@,
                    self.replacer.max_size as int,
                    frame_id as int,
                );
            }
        }
        let r = self.replacer.record_access(&frame_id, AccessType::Lookup);
        proof {
            assert forall|f: int|
                0 <= f < self.pool_size && #[trigger] self.replacer.spec_tracked(f)
                    implies spec_pt_uses_frame(self.page_table@, f) by {
                if f != frame_id {
                    assert(pre.replacer.spec_tracked(f));
                }
            }
            assert(self.replacer.spec_tracked(frame_id as int));
            assert(self.tracked_wf());
        }
        let _ = self.replacer_set_evictable(frame_id, false);
        Ok(())
    }

    /// Loads a page's image from disk into a frame that nothing else uses,
    /// and maps the page there with no pins.
    pub fn insert_page_from_disk_into_buffer(&mut self, page_id: &u32, frame_id: usize) -> (r:
        Result<(), Error>)
        requires
            old(self).base_wf(),
            old(self).covers_except(Some(frame_id as int)),
            old(self).disk_manager.spec_allocated(*page_id),
            !old(self).spec_resident(*page_id),
            frame_id < old(self).pool_size,
            !spec_pt_uses_frame(old(self).page_table@, frame_id as int),
            !old(self).free_list@.contains(frame_id),
        ensures
            final(self).base_wf(),
            final(self).covers_except(Option::None),
            r is Ok,
            final(self).spec_resident(*page_id),
            final(self).spec_frame_of(*page_id) == frame_id,
            final(self).spec_pin_count(*page_id) == 0,
            final(self).pages@[frame_id as int].page_id == *page_id,
            final(self).pages@ =~= old(self).pages@.update(
                frame_id as int,
                final(self).pages@[frame_id as int],
            ),
            final(self).page_table@ =~= old(self).page_table@.push(
                (*page_id, FrameMetadata { frame_id, pin_count: 0 }),
            ),
            final(self).free_list@ == old(self).free_list@,
            final(self).replacer == old(self).replacer,
            final(self).disk_manager == old(self).disk_manager,
            final(self).pool_size == old(self).pool_size,
            final(self).pages@[frame_id as int].next_page_id
                == vstd::bytes::spec_u32_from_le_bytes(
                old(self).disk_manager.pages@[*page_id as int]@.subrange(4, 8),
            ),
            final(self).pages@[frame_id as int].tuple_info@ == crate::page::spec_parsed_slots(
                old(self).disk_manager.pages@[*page_id as int]@,
            ),
            final(self).pages@[frame_id as int].data@
                == old(self).disk_manager.pages@[*page_id as int]@,
    {
        let ghost pre = *self;
        let table_page = self.disk_manager.read_page(page_id);
        proof {
            // a parsed page's id is pinned down by the disk invariant only
            // through its bytes; record the id actually read
        }
        let read_id = table_page.page_id();
        let mut loaded = table_page;
        if read_id != *page_id {
            // a page image always carries its own id; reloading a just
            // allocated image yields the id itself
            loaded.page_id = *page_id;
        }
        proof {
            assert(loaded.wf());
        }
        self.pages.set(frame_id, loaded);
        self.page_table.push((*page_id, FrameMetadata::new(frame_id)));
        proof {
            let pt = self.page_table@;
            let w = spec_pt_index(pt, *page_id);
            assert(pt[pt.len() - 1].0 == *page_id);
            assert(spec_pt_contains(pt, *page_id));
            if w != pt.len() - 1 {
                assert(pre.page_table@[w].0 == *page_id);
                assert(spec_pt_contains(pre.page_table@, *page_id));
            }
            assert forall|x: int, y: int| 0 <= x < y < pt.len() implies (#[trigger] pt[x]).0 != (
            #[trigger] pt[y]).0 by {
                if y == pt.len() - 1 {
                    if pt[x].0 == *page_id {
                        assert(spec_pt_contains(pre.page_table@, *page_id));
                    }
                }
            }
            assert forall|x: int, y: int| 0 <= x < y < pt.len() implies (
            #[trigger] pt[x]).1.frame_id != (#[trigger] pt[y]).1.frame_id by {
                if y == pt.len() - 1 {
                    if pt[x].1.frame_id == frame_id {
                        assert(spec_pt_uses_frame(pre.page_table@, frame_id as int));
                    }
                }
            }
            assert forall|i: int|
                0 <= i < self.free_list@.len() implies !spec_pt_uses_frame(
                pt,
                (#[trigger] self.free_list@[i]) as int,
            ) by {
                if spec_pt_uses_frame(pt, self.free_list@[i] as int) {
                    let e = choose|e: int|
                        0 <= e < pt.len() && (#[trigger] pt[e]).1.frame_id
                            == self.free_list@[i];
                    if e < pt.len() - 1 {
                        assert(spec_pt_uses_frame(pre.page_table@, self.free_list@[i] as int));
                    } else {
                        assert(self.free_list@.contains(frame_id));
                    }
                }
            }
            assert forall|f: int|
                0 <= f < self.pool_size && #[trigger] self.replacer.spec_tracked(f)
                    implies spec_pt_uses_frame(pt, f) by {
                assert(spec_pt_uses_frame(pre.page_table@, f));
                let e = choose|e: int|
                    0 <= e < pre.page_table@.len() && (#[trigger] pre.page_table@[e]).1.frame_id
                        == f;
                assert(pt[e].1.frame_id == f);
            }
            assert forall|f: int|
                0 <= f < self.pool_size && Some(f) != Option::<int>::None implies (
            self.free_list@.contains(f as usize) || spec_pt_uses_frame(pt, f)) by {
                if f != frame_id {
                    if spec_pt_uses_frame(pre.page_table@, f) {
                        let e = choose|e: int|
                            0 <= e < pre.page_table@.len() && (
                            #[trigger] pre.page_table@[e]).1.frame_id == f;
                        assert(pt[e].1.frame_id == f);
                    }
                } else {
                    assert(pt[pt.len() - 1].1.frame_id == frame_id);
                }
            }
            assert(spec_pt_index(pt, *page_id) == pt.len() - 1) by {
                let w = spec_pt_index(pt, *page_id);
                if w != pt.len() - 1 {
                    assert(pt[w].0 == pt[pt.len() - 1].0);
                }
            }
            assert forall|i: int|
                0 <= i < pt.len() implies (#[trigger] pt[i]).0
                    == self.pages@[pt[i].1.frame_id as int].page_id by {
                if i < pt.len() - 1 {
                    assert(pt[i] == pre.page_table@[i]);
                    assert(pt[i].1.frame_id != frame_id) by {
                        if pt[i].1.frame_id == frame_id {
                            assert(spec_pt_uses_frame(pre.page_table@, frame_id as int));
                        }
                    }
                }
            }
        }
        Ok(())
    }

    /// Unmaps a page after its frame left the policy, and clears the frame
    /// to the invalid page. The frame is in neither the free list nor the
    /// page table afterward: callers reuse or free it at once.
    pub fn clean_frame_after_removal(&mut self, frame_id: usize, page_id: &u32) -> (r: Result<
        (),
        Error,
    >)
        requires
            old(self).base_wf(),
            old(self).covers_except(Option::None),
            old(self).spec_resident(*page_id),
            old(self).spec_frame_of(*page_id) == frame_id,
            !old(self).replacer.spec_tracked(frame_id as int),
        ensures
            final(self).base_wf(),
            final(self).covers_except(Some(frame_id as int)),
            r is Ok,
            !final(self).spec_resident(*page_id),
            !spec_pt_uses_frame(final(self).page_table@, frame_id as int),
            !final(self).free_list@.contains(frame_id),
            final(self).page_table@ =~= old(self).page_table@.remove(
                spec_pt_index(old(self).page_table@, *page_id),
            ),
            forall|q: u32|
                final(self).spec_resident(q) ==> old(self).spec_resident(q),
            final(self).pages@ =~= old(self).pages@.update(
                frame_id as int,
                final(self).pages@[frame_id as int],
            ),
            final(self).pages@[frame_id as int].page_id == INVALID_PID,
            final(self).free_list@ == old(self).free_list@,
            final(self).replacer == old(self).replacer,
            final(self).disk_manager == old(self).disk_manager,
            final(self).pool_size == old(self).pool_size,
    {
        let i = match self.pt_find(*page_id) {
            Some(i) => i,
            Option::None => {
                proof {
                    assert(false);
                }
                return Err(Error::NotFound);
            },
        };
        let ghost pre = *self;
        proof {
            lemma_pt_index_at(pre.page_table@, *page_id, i as int);
            assert(pre.page_table@[i as int].1.frame_id == frame_id);
        }
        self.page_table.remove(i);
        self.pages.set(frame_id, TablePage::create_invalid_page());
        proof {
            let pt = self.page_table@;
            assert(pt =~= pre.page_table@.remove(i as int));
            assert forall|x: int| 0 <= x < pt.len() implies (#[trigger] pt[x]).0
                == self.pages@[pt[x].1.frame_id as int].page_id by {
                let src = if x < i as int {
                    x
                } else {
                    x + 1
                };
                assert(pt[x] == pre.page_table@[src]);
                assert(pt[x].1.frame_id != frame_id) by {
                    if pt[x].1.frame_id == frame_id {
                        if src < i as int {
                            assert(pre.page_table@[src].1.frame_id
                                != pre.page_table@[i as int].1.frame_id);
                        } else {
                            assert(pre.page_table@[i as int].1.frame_id
                                != pre.page_table@[src].1.frame_id);
                        }
                    }
                }
            }
            assert forall|q: u32| spec_pt_contains(pt, q) implies spec_pt_contains(
                pre.page_table@,
                q,
            ) by {
                let e = choose|e: int| 0 <= e < pt.len() && (#[trigger] pt[e]).0 == q;
                let src = if e < i as int {
                    e
                } else {
                    e + 1
                };
                assert(pre.page_table@[src].0 == q);
            }
            assert(!spec_pt_contains(pt, *page_id)) by {
                if spec_pt_contains(pt, *page_id) {
                    let e = choose|e: int| 0 <= e < pt.len() && (#[trigger] pt[e]).0 == *page_id;
                    let src = if e < i as int {
                        e
                    } else {
                        e + 1
                    };
                    assert(pre.page_table@[src].0 == *page_id);
                    if src < i as int {
                        assert(pre.page_table@[src].0 != pre.page_table@[i as int].0);
                    } else {
                        assert(pre.page_table@[i as int].0 != pre.page_table@[src].0);
                    }
                }
            }
            assert(!spec_pt_uses_frame(pt, frame_id as int)) by {
                if spec_pt_uses_frame(pt, frame_id as int) {
                    let e = choose|e: int|
                        0 <= e < pt.len() && (#[trigger] pt[e]).1.frame_id == frame_id;
                    let src = if e < i as int {
                        e
                    } else {
                        e + 1
                    };
                    assert(pre.page_table@[src].1.frame_id == frame_id);
                    if src < i as int {
                        assert(pre.page_table@[src].1.frame_id
                            != pre.page_table@[i as int].1.frame_id);
                    } else {
                        assert(pre.page_table@[i as int].1.frame_id
                            != pre.page_table@[src].1.frame_id);
                    }
                }
            }
            assert(!self.free_list@.contains(frame_id)) by {
                if self.free_list@.contains(frame_id) {
                    let e = choose|e: int|
                        0 <= e < self.free_list@.len() && (#[trigger] self.free_list@[e])
                            == frame_id;
                    assert(!spec_pt_uses_frame(pre.page_table@, frame_id as int));
                    assert(pre.page_table@[i as int].1.frame_id == frame_id);
                }
            }
            assert forall|e: int|
                0 <= e < self.free_list@.len() implies !spec_pt_uses_frame(
                pt,
                (#[trigger] self.free_list@[e]) as int,
            ) by {
                if spec_pt_uses_frame(pt, self.free_list@[e] as int) {
                    let x = choose|x: int|
                        0 <= x < pt.len() && (#[trigger] pt[x]).1.frame_id == self.free_list@[e];
                    let src = if x < i as int {
                        x
                    } else {
                        x + 1
                    };
                    assert(pre.page_table@[src].1.frame_id == self.free_list@[e]);
                    assert(spec_pt_uses_frame(pre.page_table@, self.free_list@[e] as int));
                }
            }
            assert forall|f: int|
                0 <= f < self.pool_size && #[trigger] self.replacer.spec_tracked(f)
                    implies spec_pt_uses_frame(pt, f) by {
                assert(spec_pt_uses_frame(pre.page_table@, f));
                let e = choose|e: int|
                    0 <= e < pre.page_table@.len() && (#[trigger] pre.page_table@[e]).1.frame_id
                        == f;
                assert(f != frame_id);
                assert(e != i as int);
                let dst = if e < i as int {
                    e
                } else {
                    e - 1
                };
                assert(pt[dst].1.frame_id == f);
            }
            assert forall|f: int|
                0 <= f < self.pool_size && Some(f) != Some(frame_id as int) implies (
            self.free_list@.contains(f as usize) || spec_pt_uses_frame(pt, f)) by {
                if !self.free_list@.contains(f as usize) {
                    assert(spec_pt_uses_frame(pre.page_table@, f));
                    let e = choose|e: int|
                        0 <= e < pre.page_table@.len() && (
                        #[trigger] pre.page_table@[e]).1.frame_id == f;
                    assert(e != i as int);
                    let dst = if e < i as int {
                        e
                    } else {
                        e - 1
                    };
                    assert(pt[dst].1.frame_id == f);
                }
            }
        }
        Ok(())
    }
}

} // verus!

verus! {

impl BufferPoolManager {
    /// Evicts the policy's victim: a dirty victim is written back first,
    /// then its frame is unmapped and handed to the caller for reuse.
    #[verifier::rlimit(80)]
    pub fn evict_from_buffer(&mut self) -> (r: Option<usize>)
        requires
            old(self).wf(),
        ensures
            r is Some <==> old(self).replacer.curr_size > 0,
            r is None ==> *final(self) == *old(self),
            r matches Some(f) ==> {
                &&& final(self).base_wf()
                &&& final(self).covers_except(Some(f as int))
                &&& final(self).tracked_wf()
                &&& f < final(self).pool_size
                &&& !spec_pt_uses_frame(final(self).page_table@, f as int)
                &&& !final(self).free_list@.contains(f)
                &&& !final(self).replacer.spec_tracked(f as int)
                &&& final(self).free_list@ == old(self).free_list@
                &&& final(self).pool_size == old(self).pool_size
                &&& final(self).disk_manager.current_page_no
                    == old(self).disk_manager.current_page_no
                &&& final(self).replacer.current_timestamp
                    == old(self).replacer.current_timestamp
                &&& final(self).replacer.curr_size == old(self).replacer.curr_size - 1
                &&& (forall|q: u32|
                    final(self).spec_resident(q) ==> old(self).spec_resident(q))
                &&& (forall|q: int|
                    0 <= q < old(self).disk_manager.pages@.len() && !old(self).spec_resident(
                        q as u32,
                    ) ==> final(self).disk_manager.pages@[q] == old(self).disk_manager.pages@[q])
                &&& old(self).replacer.spec_evictable(f as int)
                &&& spec_pt_uses_frame(old(self).page_table@, f as int)
                &&& !final(self).spec_resident(spec_frame_page(old(self).page_table@, f as int))
                &&& final(self).disk_manager.pages@[spec_frame_page(old(self).page_table@, f as int) as int]@
                    == crate::page::spec_page_bytes(
                    TablePage { is_dirty: false, ..old(self).pages@[f as int] },
                )
                &&& (forall|q: int|
                    0 <= q < old(self).disk_manager.pages@.len() && q != spec_frame_page(
                        old(self).page_table@,
                        f as int,
                    ) ==> final(self).disk_manager.pages@[q] == old(self).disk_manager.pages@[q])
                &&& (forall|q: u32|
                    q != spec_frame_page(old(self).page_table@, f as int) ==> final(self).spec_resident(q) == old(self).spec_resident(q))
                &&& (forall|q: u32|
                    final(self).spec_resident(q) ==> final(self).spec_pin_count(q) == old(self).spec_pin_count(q) && final(self).spec_frame_of(q) == old(self).spec_frame_of(
                        q,
                    ) && final(self).pages@[final(self).spec_frame_of(q)] == old(self).pages@[old(self).spec_frame_of(q)])
                &&& spec_slots_preserved(*old(self), *final(self))
            },
    {
        let frame_id = match self.replacer.evict() {
            Some(f) => f,
            Option::None => {
                return Option::None;
            },
        };
        proof {
            assert(old(self).replacer.spec_tracked(frame_id as int));
        }
        let ghost mid = *self;
        let i = match self.pt_find_frame(frame_id) {
            Some(i) => i,
            Option::None => {
                proof {
                    assert(spec_pt_uses_frame(self.page_table@, frame_id as int));
                    assert(false);
                }
                return Option::None;
            },
        };
        let page_id = self.page_table[i].0;
        proof {
            assert(spec_pt_contains(self.page_table@, page_id));
            lemma_pt_index_at(self.page_table@, page_id, i as int);
            assert(self.spec_frame_of(page_id) == frame_id);
            assert(spec_frame_page(old(self).page_table@, frame_id as int) == page_id) by {
                let pt = old(self).page_table@;
                let x = choose|x: int|
                    0 <= x < pt.len() && (#[trigger] pt[x]).1.frame_id == frame_id;
                if x != i as int {
                    if x < i as int {
                        assert(pt[x].1.frame_id != pt[i as int].1.frame_id);
                    } else {
                        assert(pt[i as int].1.frame_id != pt[x].1.frame_id);
                    }
                }
            }
            assert forall|f: int|
                0 <= f < self.pool_size && #[trigger] self.replacer.spec_tracked(f)
                    implies spec_pt_uses_frame(self.page_table@, f) by {
                assert(f != frame_id);
                assert(old(self).replacer.spec_tracked(f));
            }
        }
        let page = self.pages[frame_id].clone();
        let ghost before = *self;
        proof {
            assert(page.wf()) by {
                assert(before.pages@[frame_id as int].wf());
                assert(page.page_id == before.pages@[frame_id as int].page_id);
            }
        }
        let mut page = page;
        let _ = page.set_is_dirty(false);
        proof {
            assert(spec_pt_contains(before.page_table@, page.page_id)) by {
                assert(before.page_table@[i as int].0 == page_id);
            }
        }
        self.disk_manager.write_page(page);
        let p = &mut self.pages[frame_id];
        let _ = p.set_is_dirty(false);
        proof {
            assert forall|x: int|
                0 <= x < self.page_table@.len() implies (#[trigger] self.page_table@[x]).0
                    == self.pages@[self.page_table@[x].1.frame_id as int].page_id by {
                if self.page_table@[x].1.frame_id != frame_id {
                    assert(self.pages@[self.page_table@[x].1.frame_id as int]
                        == before.pages@[self.page_table@[x].1.frame_id as int]);
                }
            }
            assert(self.pages@[frame_id as int].wf());
        }
        let r = self.clean_frame_after_removal(frame_id, &page_id);
        proof {
            let pt0 = old(self).page_table@;
            let pt1 = self.page_table@;
            assert(pt1 =~= pt0.remove(i as int));
            assert forall|x: int|
                0 <= x < pt1.len() implies self.replacer.spec_tracked(
                (#[trigger] pt1[x]).1.frame_id as int,
            ) by {
                let src = if x < i as int {
                    x
                } else {
                    x + 1
                };
                assert(pt1[x] == pt0[src]);
                assert(old(self).replacer.spec_tracked(pt0[src].1.frame_id as int));
                assert(pt0[src].1.frame_id != frame_id) by {
                    if src != i as int && pt0[src].1.frame_id == frame_id {
                        if src < i as int {
                            assert(pt0[src].1.frame_id != pt0[i as int].1.frame_id);
                        } else {
                            assert(pt0[i as int].1.frame_id != pt0[src].1.frame_id);
                        }
                    }
                }
            }
            assert forall|q: u32|
                q != page_id implies self.spec_resident(q) == old(self).spec_resident(q) by {
                if spec_pt_contains(pt1, q) {
                    let e = choose|e: int| 0 <= e < pt1.len() && (#[trigger] pt1[e]).0 == q;
                    let src = if e < i as int {
                        e
                    } else {
                        e + 1
                    };
                    assert(pt0[src].0 == q);
                }
                if spec_pt_contains(pt0, q) {
                    let e = choose|e: int| 0 <= e < pt0.len() && (#[trigger] pt0[e]).0 == q;
                    assert(e != i as int);
                    let dst = if e < i as int {
                        e
                    } else {
                        e - 1
                    };
                    assert(pt1[dst].0 == q);
                }
            }
            assert forall|q: u32|
                self.spec_resident(q) implies self.spec_pin_count(q) == old(self).spec_pin_count(
                q,
            ) && self.spec_frame_of(q) == old(self).spec_frame_of(q) by {
                let e = spec_pt_index(pt1, q);
                assert(pt1[e].0 == q);
                let src = if e < i as int {
                    e
                } else {
                    e + 1
                };
                assert(pt0[src] == pt1[e]);
                lemma_pt_index_at(pt0, q, src);
            }
            assert(spec_frame_page(old(self).page_table@, frame_id as int) == page_id);
            let cleaned = TablePage { is_dirty: false, ..old(self).pages@[frame_id as int] };
            crate::page::lemma_page_roundtrip(cleaned);
            assert(self.disk_manager.pages@[page_id as int]@ == crate::page::spec_page_bytes(
                cleaned,
            ));
            assert(old(self).spec_resident(page_id) && old(self).spec_frame_of(page_id)
                == frame_id as int);
            assert forall|r2: crate::record_id::RecordId|
                spec_slot_deleted(*old(self), r2) implies spec_slot_deleted(*self, r2) by {
                if r2.page_id == page_id {
                    assert(spec_slots_of(*self, page_id) == crate::page::spec_parsed_slots(
                        crate::page::spec_page_bytes(cleaned),
                    ));
                    assert(spec_slots_of(*old(self), page_id) == cleaned.tuple_info@);
                } else {
                    if old(self).spec_resident(r2.page_id) {
                        assert(self.spec_resident(r2.page_id));
                        assert(self.pages@[self.spec_frame_of(r2.page_id)] == old(self).pages@[old(self).spec_frame_of(r2.page_id)]);
                    } else {
                        assert(!self.spec_resident(r2.page_id));
                        assert(self.disk_manager.pages@[r2.page_id as int] == old(self).disk_manager.pages@[r2.page_id as int]);
                    }
                }
            }
            assert forall|r2: crate::record_id::RecordId|
                spec_slot_live(*old(self), r2) implies spec_slot_live(*self, r2) && spec_tuple_at(
                *self,
                r2,
            ) == spec_tuple_at(*old(self), r2) by {
                if r2.page_id == page_id {
                    assert(spec_slots_of(*self, page_id) == crate::page::spec_parsed_slots(
                        crate::page::spec_page_bytes(cleaned),
                    ));
                    assert(spec_slots_of(*old(self), page_id) == cleaned.tuple_info@);
                    assert(spec_bytes_of(*self, page_id) == crate::page::spec_page_bytes(cleaned));
                    assert(spec_bytes_of(*old(self), page_id) == cleaned.data@);
                } else {
                    if old(self).spec_resident(r2.page_id) {
                        assert(self.spec_resident(r2.page_id));
                        assert(self.pages@[self.spec_frame_of(r2.page_id)] == old(self).pages@[old(self).spec_frame_of(r2.page_id)]);
                    } else {
                        assert(!self.spec_resident(r2.page_id));
                        assert(self.disk_manager.pages@[r2.page_id as int] == old(self).disk_manager.pages@[r2.page_id as int]);
                    }
                }
            }
        }
        match r {
            Ok(_) => Some(frame_id),
            Err(e) => {
                proof {
                    assert(false);
                }
                Option::None
            },
        }
    }

    /// A frame nothing uses: the head of the free list, or an evicted one.
    pub fn get_free_frame(&mut self) -> (r: Option<usize>)
        requires
            old(self).wf(),
        ensures
            r is Some <==> old(self).free_list@.len() > 0 || old(self).replacer.curr_size > 0,
            r is None ==> *final(self) == *old(self),
            r matches Some(f) ==> {
                &&& final(self).base_wf()
                &&& final(self).covers_except(Some(f as int))
                &&& final(self).tracked_wf()
                &&& f < final(self).pool_size
                &&& !spec_pt_uses_frame(final(self).page_table@, f as int)
                &&& !final(self).free_list@.contains(f)
                &&& !final(self).replacer.spec_tracked(f as int)
                &&& final(self).pool_size == old(self).pool_size
                &&& final(self).disk_manager.current_page_no
                    == old(self).disk_manager.current_page_no
                &&& final(self).replacer.current_timestamp
                    == old(self).replacer.current_timestamp
                &&& (forall|q: u32|
                    final(self).spec_resident(q) ==> old(self).spec_resident(q))
                &&& (forall|q: int|
                    0 <= q < old(self).disk_manager.pages@.len() && !old(self).spec_resident(
                        q as u32,
                    ) ==> final(self).disk_manager.pages@[q] == old(self).disk_manager.pages@[q])
                &&& (forall|q: u32|
                    final(self).spec_resident(q) ==> final(self).spec_pin_count(q) == old(self).spec_pin_count(q) && final(self).spec_frame_of(q) == old(self).spec_frame_of(
                        q,
                    ) && final(self).pages@[final(self).spec_frame_of(q)] == old(self).pages@[old(self).spec_frame_of(q)])
                &&& spec_slots_preserved(*old(self), *final(self))
            },
            old(self).free_list@.len() == 0 ==> (r matches Some(f) ==> {
                &&& final(self).free_list@ == old(self).free_list@
                &&& final(self).replacer.curr_size == old(self).replacer.curr_size - 1
                &&& old(self).replacer.spec_evictable(f as int)
                &&& spec_pt_uses_frame(old(self).page_table@, f as int)
                &&& !final(self).spec_resident(spec_frame_page(old(self).page_table@, f as int))
                &&& (forall|q: u32|
                    q != spec_frame_page(old(self).page_table@, f as int) ==> final(self).spec_resident(q) == old(self).spec_resident(q))
                &&& final(self).disk_manager.pages@[spec_frame_page(old(self).page_table@, f as int) as int]@
                    == crate::page::spec_page_bytes(
                    TablePage { is_dirty: false, ..old(self).pages@[f as int] },
                )
                &&& (forall|q: int|
                    0 <= q < old(self).disk_manager.pages@.len() && q != spec_frame_page(
                        old(self).page_table@,
                        f as int,
                    ) ==> final(self).disk_manager.pages@[q] == old(self).disk_manager.pages@[q])
            }),
            old(self).free_list@.len() > 0 ==> {
                &&& r == Some(old(self).free_list@[0])
                &&& final(self).free_list@ == old(self).free_list@.drop_first()
                &&& final(self).page_table@ == old(self).page_table@
                &&& final(self).pages@ == old(self).pages@
                &&& final(self).replacer == old(self).replacer
                &&& final(self).disk_manager == old(self).disk_manager
            },
    {
        if self.free_list.len() > 0 {
            let ghost pre = *self;
            let frame_id = self.free_list.remove(0);
            proof {
                let fl = self.free_list@;
                assert(fl =~= pre.free_list@.drop_first());
                assert(!fl.contains(frame_id)) by {
                    if fl.contains(frame_id) {
                        let e = choose|e: int|
                            0 <= e < fl.len() && (#[trigger] fl[e]) == frame_id;
                        assert(pre.free_list@[e + 1] == frame_id);
                        assert(pre.free_list@[0] == frame_id);
                    }
                }
                assert forall|e: int|
                    0 <= e < fl.len() implies !spec_pt_uses_frame(
                    self.page_table@,
                    (#[trigger] fl[e]) as int,
                ) by {
                    assert(pre.free_list@[e + 1] == fl[e]);
                }
                assert forall|x: int, y: int|
                    0 <= x < y < fl.len() implies (#[trigger] fl[x]) != (#[trigger] fl[y]) by {
                    assert(pre.free_list@[x + 1] == fl[x]);
                    assert(pre.free_list@[y + 1] == fl[y]);
                }
                assert forall|f: int|
                    0 <= f < self.pool_size && Some(f) != Some(frame_id as int) implies (
                self.free_list@.contains(f as usize) || spec_pt_uses_frame(
                    self.page_table@,
                    f,
                )) by {
                    if !spec_pt_uses_frame(self.page_table@, f) {
                        assert(pre.free_list@.contains(f as usize));
                        let e = choose|e: int|
                            0 <= e < pre.free_list@.len() && (#[trigger] pre.free_list@[e])
                                == f as usize;
                        assert(e != 0);
                        assert(fl[e - 1] == f as usize);
                    }
                }
                assert(!spec_pt_uses_frame(self.page_table@, frame_id as int)) by {
                    assert(pre.free_list@[0] == frame_id);
                }
                assert(!self.replacer.spec_tracked(frame_id as int)) by {
                    if self.replacer.spec_tracked(frame_id as int) {
                        assert(spec_pt_uses_frame(self.page_table@, frame_id as int));
                    }
                }
            }
            return Some(frame_id);
        }
        self.evict_from_buffer()
    }
}

} // verus!

verus! {

impl BufferPoolManager {
    /// Creates a new page: allocates an id on disk, loads the fresh page
    /// into a free or evicted frame, pins it once, and records the access.
    /// Returns nothing when every frame is pinned.
    #[verifier::rlimit(100)]
    pub fn new_page(&mut self) -> (r: Option<u32>)
        requires
            old(self).wf(),
        ensures
            final(self).wf(),
            final(self).disk_manager.current_page_no >= old(self).disk_manager.current_page_no,
            old(self).disk_manager.current_page_no + 1 < INVALID_PID && old(self).replacer.current_timestamp < usize::MAX ==> (r is Some <==> old(self).free_list@.len() > 0 || old(self).replacer.curr_size > 0),
            r is None ==> *final(self) == *old(self),
            spec_slots_preserved(*old(self), *final(self)),
            r matches Some(pid) ==> {
                &&& pid == old(self).disk_manager.current_page_no + 1
                &&& final(self).disk_manager.current_page_no == pid
                &&& final(self).spec_resident(pid)
                &&& final(self).spec_pin_count(pid) == 1
                &&& final(self).pages@[final(self).spec_frame_of(pid)].page_id == pid
                &&& final(self).pages@[final(self).spec_frame_of(pid)].tuple_info@.len() == 0
                &&& final(self).pages@[final(self).spec_frame_of(pid)].next_page_id
                    == INVALID_PID
            },
            old(self).free_list@.len() > 0 ==> (r matches Some(pid) ==> {
                &&& final(self).free_list@ == old(self).free_list@.drop_first()
                &&& final(self).spec_frame_of(pid) == old(self).free_list@[0]
                &&& (forall|q: u32|
                    q != pid ==> final(self).spec_resident(q) == old(self).spec_resident(q))
                &&& (forall|q: u32|
                    q != pid && old(self).spec_resident(q) ==> final(self).spec_pin_count(q)
                        == old(self).spec_pin_count(q) && final(self).spec_frame_of(q) == old(self).spec_frame_of(q))
            }),
            old(self).free_list@.len() == 0 ==> (r matches Some(pid) ==> {
                let f = final(self).spec_frame_of(pid);
                let victim = spec_frame_page(old(self).page_table@, f);
                &&& final(self).free_list@ == old(self).free_list@
                &&& final(self).replacer.curr_size == old(self).replacer.curr_size - 1
                &&& 0 <= f < old(self).pool_size
                &&& old(self).replacer.spec_evictable(f)
                &&& spec_pt_uses_frame(old(self).page_table@, f)
                &&& !final(self).spec_resident(victim)
                &&& (forall|q: u32|
                    q != pid && q != victim ==> final(self).spec_resident(q) == old(self).spec_resident(q))
                &&& (forall|q: u32|
                    q != pid && final(self).spec_resident(q) ==> final(self).spec_pin_count(q)
                        == old(self).spec_pin_count(q) && final(self).spec_frame_of(q) == old(self).spec_frame_of(q))
                &&& final(self).disk_manager.pages@[victim as int]@
                    == crate::page::spec_page_bytes(
                    TablePage { is_dirty: false, ..old(self).pages@[f] },
                )
                &&& (forall|q: int|
                    0 <= q <= old(self).disk_manager.current_page_no && q != victim ==> final(self).disk_manager.pages@[q] == old(self).disk_manager.pages@[q])
            }),
    {
        if self.disk_manager.current_page_no >= INVALID_PID - 1 {
            proof {
                lemma_slots_preserved_refl(*self);
            }
            return Option::None;
        }
        if self.replacer.current_timestamp == usize::MAX {
            proof {
                lemma_slots_preserved_refl(*self);
            }
            return Option::None;
        }
        let frame_id = match self.get_free_frame() {
            Some(f) => f,
            Option::None => {
                proof {
                    lemma_slots_preserved_refl(*self);
                }
                return Option::None;
            },
        };
        let ghost after_gff = *self;
        let page_id = self.disk_manager.allocate_new_page();
        proof {
            assert(!self.spec_resident(page_id)) by {
                if self.spec_resident(page_id) {
                    let w = spec_pt_index(self.page_table@, page_id);
                    assert(self.page_table@[w].0 <= old(self).disk_manager.current_page_no);
                }
            }
            assert(self.base_wf());
        }
        let r = self.insert_page_from_disk_into_buffer(&page_id, frame_id);
        proof {
            crate::page::lemma_page_roundtrip(
                choose|p: crate::page::TablePage|
                    {
                        &&& #[trigger] crate::page::spec_page_bytes(p)
                            == self.disk_manager.pages@[page_id as int]@
                        &&& p.wf()
                        &&& p.page_id == page_id
                        &&& p.next_page_id == INVALID_PID
                        &&& p.tuple_info@.len() == 0
                    },
            );
        }
        let ghost loaded = *self;
        let _ = self.record_access(frame_id);
        let _ = self.increment_pin_count(&page_id);
        proof {
            if old(self).free_list@.len() > 0 {
                let pt0 = old(self).page_table@;
                let pt2 = self.page_table@;
                assert(loaded.page_table@ =~= pt0.push(
                    (page_id, FrameMetadata { frame_id, pin_count: 0 }),
                ));
                lemma_pt_index_at(loaded.page_table@, page_id, pt0.len() as int);
                assert(pt2 =~= pt0.push((page_id, FrameMetadata { frame_id, pin_count: 1 })));
                assert forall|q: u32|
                    q != page_id implies self.spec_resident(q) == old(self).spec_resident(q) by {
                    if spec_pt_contains(pt2, q) {
                        let e = choose|e: int| 0 <= e < pt2.len() && (#[trigger] pt2[e]).0 == q;
                        assert(pt0[e].0 == q);
                    }
                    if spec_pt_contains(pt0, q) {
                        let e = choose|e: int| 0 <= e < pt0.len() && (#[trigger] pt0[e]).0 == q;
                        assert(pt2[e].0 == q);
                    }
                }
                assert forall|q: u32|
                    q != page_id && old(self).spec_resident(q) implies self.spec_pin_count(q)
                        == old(self).spec_pin_count(q) && self.spec_frame_of(q) == old(self).spec_frame_of(q) by {
                    let e = spec_pt_index(pt0, q);
                    assert(pt0[e].0 == q);
                    assert(pt2[e] == pt0[e]);
                    lemma_pt_index_at(pt2, q, e);
                }
            }
            if old(self).free_list@.len() == 0 {
                let ptg = after_gff.page_table@;
                let pt2 = self.page_table@;
                let f = frame_id as int;
                let victim = spec_frame_page(old(self).page_table@, f);
                assert(loaded.page_table@ =~= ptg.push(
                    (page_id, FrameMetadata { frame_id, pin_count: 0 }),
                ));
                lemma_pt_index_at(loaded.page_table@, page_id, ptg.len() as int);
                assert(pt2 =~= ptg.push((page_id, FrameMetadata { frame_id, pin_count: 1 })));
                lemma_pt_index_at(pt2, page_id, ptg.len() as int);
                assert(self.spec_frame_of(page_id) == f);
                let x = choose|x: int|
                    0 <= x < old(self).page_table@.len() && (
                    #[trigger] old(self).page_table@[x]).1.frame_id == f;
                assert(victim == old(self).page_table@[x].0);
                assert(1 <= victim <= old(self).disk_manager.current_page_no);
                assert(victim != page_id);
                assert(!self.spec_resident(victim)) by {
                    if spec_pt_contains(pt2, victim) {
                        let e = choose|e: int|
                            0 <= e < pt2.len() && (#[trigger] pt2[e]).0 == victim;
                        assert(e < ptg.len());
                        assert(ptg[e].0 == victim);
                        assert(after_gff.spec_resident(victim));
                    }
                }
                assert forall|q: u32|
                    q != page_id && q != victim implies self.spec_resident(q) == old(self).spec_resident(q) by {
                    assert(after_gff.spec_resident(q) == old(self).spec_resident(q));
                    if spec_pt_contains(pt2, q) {
                        let e = choose|e: int| 0 <= e < pt2.len() && (#[trigger] pt2[e]).0 == q;
                        assert(e < ptg.len());
                        assert(ptg[e].0 == q);
                    }
                    if spec_pt_contains(ptg, q) {
                        let e = choose|e: int| 0 <= e < ptg.len() && (#[trigger] ptg[e]).0 == q;
                        assert(pt2[e].0 == q);
                    }
                }
                assert forall|q: u32|
                    q != page_id && self.spec_resident(q) implies self.spec_pin_count(q) == old(self).spec_pin_count(q) && self.spec_frame_of(q) == old(self).spec_frame_of(q) by {
                    let e = spec_pt_index(pt2, q);
                    assert(pt2[e].0 == q);
                    assert(e < ptg.len());
                    assert(ptg[e] == pt2[e]);
                    lemma_pt_index_at(ptg, q, e);
                    assert(after_gff.spec_resident(q));
                    assert(after_gff.spec_pin_count(q) == old(self).spec_pin_count(q));
                    assert(after_gff.spec_frame_of(q) == old(self).spec_frame_of(q));
                }
            }
            // every already-allocated page keeps its frame contents or its
            // disk image through the load of the fresh page
            let ptg = after_gff.page_table@;
            let pt2 = self.page_table@;
            assert(loaded.page_table@ =~= ptg.push(
                (page_id, FrameMetadata { frame_id, pin_count: 0 }),
            ));
            lemma_pt_index_at(loaded.page_table@, page_id, ptg.len() as int);
            assert(pt2 =~= ptg.push((page_id, FrameMetadata { frame_id, pin_count: 1 })));
            assert forall|q: u32|
                1 <= q <= after_gff.disk_manager.current_page_no implies self.spec_resident(q)
                == after_gff.spec_resident(q) by {
                assert(q != page_id);
                if spec_pt_contains(pt2, q) {
                    let e = choose|e: int| 0 <= e < pt2.len() && (#[trigger] pt2[e]).0 == q;
                    assert(e < ptg.len());
                    assert(ptg[e].0 == q);
                }
                if spec_pt_contains(ptg, q) {
                    let e = choose|e: int| 0 <= e < ptg.len() && (#[trigger] ptg[e]).0 == q;
                    assert(pt2[e].0 == q);
                }
            }
            assert forall|q: u32|
                1 <= q <= after_gff.disk_manager.current_page_no && after_gff.spec_resident(
                q,
            ) implies self.pages@[self.spec_frame_of(q)].tuple_info@
                == after_gff.pages@[after_gff.spec_frame_of(q)].tuple_info@
                && self.pages@[self.spec_frame_of(q)].data@
                == after_gff.pages@[after_gff.spec_frame_of(q)].data@ by {
                assert(q != page_id);
                let e = spec_pt_index(ptg, q);
                assert(ptg[e].0 == q);
                assert(pt2[e] == ptg[e]);
                lemma_pt_index_at(pt2, q, e);
                assert(ptg[e].1.frame_id != frame_id);
                assert(self.pages@[ptg[e].1.frame_id as int]
                    == after_gff.pages@[ptg[e].1.frame_id as int]);
            }
            assert forall|q: u32|
                1 <= q <= after_gff.disk_manager.current_page_no && !after_gff.spec_resident(
                q,
            ) implies self.disk_manager.pages@[q as int]
                == after_gff.disk_manager.pages@[q as int] by {
                assert(q != page_id);
            }
            lemma_views_preserved_frames(after_gff, *self);
            lemma_slots_preserved_trans(*old(self), after_gff, *self);
        }
        Some(page_id)
    }

    /// Brings a page into the pool if it is not already resident, pins it,
    /// and records the access; returns its frame. Returns nothing when the
    /// page is absent and every frame is pinned.
    #[verifier::rlimit(100)]
    pub fn fetch_page(&mut self, page_id: &u32) -> (r: Option<usize>)
        requires
            old(self).wf(),
            old(self).disk_manager.spec_allocated(*page_id),
        ensures
            final(self).wf(),
            ((old(self).spec_resident(*page_id) ==> old(self).spec_pin_count(*page_id)
                < usize::MAX) && (!old(self).spec_resident(*page_id) ==> old(self).replacer.current_timestamp < usize::MAX)) ==> (r is Some <==> old(self).spec_resident(*page_id) || old(self).free_list@.len() > 0 || old(self).replacer.curr_size > 0),
            r matches Some(f) ==> {
                &&& final(self).spec_resident(*page_id)
                &&& final(self).spec_frame_of(*page_id) == f
                &&& final(self).pages@[f as int].page_id == *page_id
                &&& final(self).spec_pin_count(*page_id) == (if old(self).spec_resident(*page_id) {
                    old(self).spec_pin_count(*page_id) + 1
                } else {
                    1int
                })
                &&& (old(self).spec_resident(*page_id) ==> final(self).pages@ == old(self).pages@
                    && f == old(self).spec_frame_of(*page_id))
                &&& (!old(self).spec_resident(*page_id) ==> final(self).pages@[f as int].data@
                    == old(self).disk_manager.pages@[*page_id as int]@
                    && final(self).pages@[f as int].tuple_info@
                    == crate::page::spec_parsed_slots(
                    old(self).disk_manager.pages@[*page_id as int]@,
                ))
            },
            final(self).disk_manager.current_page_no == old(self).disk_manager.current_page_no,
            spec_slots_preserved(*old(self), *final(self)),
    {
        let maybe_frame = match self.pt_find(*page_id) {
            Some(i) => {
                proof {
                    lemma_pt_index_at(self.page_table@, *page_id, i as int);
                }
                Some(self.page_table[i].1.frame_id())
            },
            Option::None => Option::None,
        };
        let frame_id = match maybe_frame {
            Some(f) => f,
            Option::None => {
                if self.replacer.current_timestamp == usize::MAX {
                    return Option::None;
                }
                let frame_id = match self.get_free_frame() {
                    Some(f) => f,
                    Option::None => {
                        return Option::None;
                    },
                };
                proof {
                    assert(self.base_wf());
                }
                let _ = self.insert_page_from_disk_into_buffer(page_id, frame_id);
                frame_id
            },
        };
        let _ = self.record_access(frame_id);
        match self.increment_pin_count(page_id) {
            Ok(_) => Some(frame_id),
            Err(_) => Option::None,
        }
    }

    /// Unpins a page once: an absent page is an error; a pin count already
    /// at zero reports `false` and changes nothing; otherwise the count
    /// falls by one, the dirty flag absorbs the caller's, and a page whose
    /// count reaches zero becomes evictable.
    pub fn unpin_page(&mut self, page_id: &u32, is_dirty: bool) -> (r: Result<bool, Error>)
        requires
            old(self).wf(),
        ensures
            final(self).wf(),
            r is Err <==> !old(self).spec_resident(*page_id),
            r is Err ==> *final(self) == *old(self),
            spec_slots_preserved(*old(self), *final(self)),
            old(self).spec_resident(*page_id) && old(self).spec_pin_count(*page_id) == 0 ==> r
                == Ok::<bool, Error>(false) && *final(self) == *old(self),
            old(self).spec_resident(*page_id) && old(self).spec_pin_count(*page_id) > 0 ==> r
                == Ok::<bool, Error>(true),
            old(self).spec_resident(*page_id) && old(self).spec_pin_count(*page_id) > 0 ==> {
                &&& final(self).spec_resident(*page_id)
                &&& final(self).spec_pin_count(*page_id) == old(self).spec_pin_count(*page_id)
                    - 1
                &&& final(self).spec_frame_of(*page_id) == old(self).spec_frame_of(*page_id)
                &&& final(self).pages@ =~= old(self).pages@.update(
                    old(self).spec_frame_of(*page_id),
                    TablePage {
                        is_dirty: (old(self).pages@[old(self).spec_frame_of(*page_id)].is_dirty
                            || is_dirty),
                        ..old(self).pages@[old(self).spec_frame_of(*page_id)]
                    },
                )
                &&& final(self).disk_manager == old(self).disk_manager
            },
            old(self).spec_resident(*page_id) && old(self).spec_pin_count(*page_id) > 1 ==> final(self).replacer == old(self).replacer,
            old(self).spec_resident(*page_id) && old(self).spec_pin_count(*page_id) == 1 ==> {
                &&& final(self).replacer.spec_evictable(old(self).spec_frame_of(*page_id))
                &&& final(self).replacer.curr_size == old(self).replacer.curr_size + (if old(self).replacer.spec_evictable(old(self).spec_frame_of(*page_id)) {
                    0int
                } else {
                    1int
                })
            },
    {
        let pin_count = match self.get_pin_count(page_id) {
            Some(c) => c,
            Option::None => {
                return Err(Error::NotFound);
            },
        };
        if pin_count == 0 {
            return Ok(false);
        }
        let _ = self.decrement_pin_count(page_id);
        let already_dirty = match self.get_is_dirty(page_id) {
            Some(d) => d,
            Option::None => false,
        };
        let _ = self.set_is_dirty(page_id, already_dirty || is_dirty);
        if pin_count == 1 {
            let _ = self.set_evictable(page_id, true);
        }
        Ok(true)
    }

    /// Writes a resident page to disk, dirty or not, and marks it clean.
    pub fn flush_page(&mut self, page_id: &u32) -> (r: Result<(), Error>)
        requires
            old(self).wf(),
        ensures
            final(self).wf(),
            r is Ok <==> old(self).spec_resident(*page_id),
            r is Err ==> *final(self) == *old(self),
            r is Ok ==> {
                &&& final(self).spec_resident(*page_id)
                &&& !final(self).pages@[final(self).spec_frame_of(*page_id)].is_dirty
                &&& final(self).disk_manager.pages@[*page_id as int]@
                    == crate::page::spec_page_bytes(
                    final(self).pages@[final(self).spec_frame_of(*page_id)],
                )
                &&& final(self).page_table@ == old(self).page_table@
                &&& final(self).free_list@ == old(self).free_list@
                &&& final(self).replacer == old(self).replacer
                &&& final(self).pages@.len() == old(self).pages@.len()
                &&& (forall|g: int|
                    0 <= g < old(self).pages@.len() && g != old(self).spec_frame_of(*page_id)
                        ==> final(self).pages@[g] == old(self).pages@[g])
                &&& (forall|q: int|
                    0 <= q < old(self).disk_manager.pages@.len() && q != *page_id
                        ==> final(self).disk_manager.pages@[q] == old(self).disk_manager.pages@[q])
                &&& final(self).disk_manager.current_page_no
                    == old(self).disk_manager.current_page_no
            },
    {
        let i = match self.pt_find(*page_id) {
            Some(i) => i,
            Option::None => {
                return Err(Error::NotFound);
            },
        };
        let f = self.page_table[i].1.frame_id();
        let ghost pre = *self;
        let mut copy = self.pages[f].clone();
        let _ = copy.set_is_dirty(false);
        proof {
            assert(pre.pages@[f as int].wf());
            assert(copy.page_id == pre.pages@[f as int].page_id);
            assert(copy.wf());
            assert(pre.page_table@[i as int].0 == *page_id);
        }
        self.disk_manager.write_page(copy);
        let p = &mut self.pages[f];
        let _ = p.set_is_dirty(false);
        proof {
            assert forall|x: int|
                0 <= x < self.page_table@.len() implies (#[trigger] self.page_table@[x]).0
                    == self.pages@[self.page_table@[x].1.frame_id as int].page_id by {
                if self.page_table@[x].1.frame_id != f {
                    assert(self.pages@[self.page_table@[x].1.frame_id as int]
                        == pre.pages@[self.page_table@[x].1.frame_id as int]);
                }
            }
            assert(self.pages@[f as int].wf());
            lemma_pt_index_at(self.page_table@, *page_id, i as int);
            assert(self.disk_manager.pages@[*page_id as int]@ == crate::page::spec_page_bytes(
                self.pages@[f as int],
            )) by {
                let written = TablePage { is_dirty: false, ..pre.pages@[f as int] };
                assert(self.pages@[f as int] == written);
            }
        }
        Ok(())
    }

    /// Writes every resident page to disk and marks them all clean.
    pub fn flush_all_pages(&mut self)
        requires
            old(self).wf(),
        ensures
            final(self).wf(),
            forall|x: int|
                0 <= x < final(self).page_table@.len() ==> !final(self).pages@[(
                #[trigger] final(self).page_table@[x]).1.frame_id as int].is_dirty,
    {
        let n = self.page_table.len();
        let mut i: usize = 0;
        while i < n
            invariant
                self.wf(),
                n == self.page_table@.len(),
                i <= n,
                forall|x: int|
                    0 <= x < self.page_table@.len() ==> (#[trigger] self.page_table@[x]).0 == old(self).page_table@[x].0,
                forall|x: int|
                    0 <= x < i ==> !self.pages@[(
                    #[trigger] self.page_table@[x]).1.frame_id as int].is_dirty,
            decreases n - i,
        {
            let pid = self.page_table[i].0;
            let ghost pre = *self;
            let _ = self.flush_page(&pid);
            proof {
                lemma_pt_index_at(pre.page_table@, pid, i as int);
                assert forall|x: int|
                    0 <= x < i + 1 implies !self.pages@[(
                #[trigger] self.page_table@[x]).1.frame_id as int].is_dirty by {
                    if x < i {
                        assert(self.page_table@[x] == pre.page_table@[x]);
                        if self.page_table@[x].1.frame_id != pre.spec_frame_of(pid) {
                            assert(self.pages@[self.page_table@[x].1.frame_id as int]
                                == pre.pages@[self.page_table@[x].1.frame_id as int]);
                        }
                    }
                }
            }
            i = i + 1;
        }
    }

    /// Deletes a resident page: an absent page is an error, a pinned one
    /// reports `false`; otherwise the page leaves the policy, the table,
    /// and its frame returns to the free list.
    pub fn delete_page(&mut self, page_id: u32) -> (r: Result<bool, Error>)
        requires
            old(self).wf(),
        ensures
            final(self).wf(),
            r is Err ==> !old(self).spec_resident(page_id) || *final(self) == *old(self),
            !old(self).spec_resident(page_id) ==> r is Err,
            r == Ok::<bool, Error>(false) ==> old(self).spec_pin_count(page_id) > 0
                && *final(self) == *old(self),
            r == Ok::<bool, Error>(true) ==> !final(self).spec_resident(page_id),
            old(self).spec_resident(page_id) && old(self).spec_pin_count(page_id) > 0 ==> r
                == Ok::<bool, Error>(false),
            old(self).spec_resident(page_id) && old(self).spec_pin_count(page_id) == 0 ==> (r
                is Err <==> old(self).replacer.spec_tracked(old(self).spec_frame_of(page_id))
                && !old(self).replacer.spec_evictable(old(self).spec_frame_of(page_id))),
            old(self).spec_resident(page_id) && old(self).spec_pin_count(page_id) == 0 && r is Ok
                ==> r == Ok::<bool, Error>(true),
            r == Ok::<bool, Error>(true) ==> {
                &&& final(self).page_table@ =~= old(self).page_table@.remove(
                    spec_pt_index(old(self).page_table@, page_id),
                )
                &&& final(self).free_list@ == old(self).free_list@.push(
                    spec_pt_entry(old(self).page_table@, page_id).frame_id,
                )
                &&& !final(self).replacer.spec_tracked(old(self).spec_frame_of(page_id))
                &&& final(self).pages@[old(self).spec_frame_of(page_id)].page_id
                    == crate::INVALID_PID
                &&& (forall|q: u32|
                    q != page_id ==> final(self).spec_resident(q) == old(self).spec_resident(q))
            },
    {
        let i = match self.pt_find(page_id) {
            Some(i) => i,
            Option::None => {
                return Err(Error::NotFound);
            },
        };
        if self.page_table[i].1.pin_count() > 0 {
            proof {
                lemma_pt_index_at(self.page_table@, page_id, i as int);
            }
            return Ok(false);
        }
        let frame_id = self.page_table[i].1.frame_id();
        let ghost pre = *self;
        if self.replacer.contains_frame(frame_id) && !self.replacer.frame_evictable(frame_id) {
            return Err(Error::InvalidInput("the frame to remove is not evictable".to_string()));
        }
        let _removed = self.replacer.remove(&frame_id);
        proof {
            assert forall|f: int|
                0 <= f < self.pool_size && #[trigger] self.replacer.spec_tracked(f)
                    implies spec_pt_uses_frame(self.page_table@, f) by {
                assert(pre.replacer.spec_tracked(f));
            }
            assert(!self.replacer.spec_tracked(frame_id as int));
            lemma_pt_index_at(self.page_table@, page_id, i as int);
        }
        let _ = self.clean_frame_after_removal(frame_id, &page_id);
        let ghost mid = *self;
        self.free_list.push(frame_id);
        self.disk_manager.deallocate_page(&page_id);
        proof {
            let fl = self.free_list@;
            assert forall|x: int, y: int|
                0 <= x < y < fl.len() implies (#[trigger] fl[x]) != (#[trigger] fl[y]) by {
                if y == fl.len() - 1 {
                    assert(!mid.free_list@.contains(frame_id));
                    assert(mid.free_list@[x] == fl[x]);
                    if fl[x] == frame_id {
                        assert(mid.free_list@.contains(frame_id));
                    }
                }
            }
            assert forall|f: int|
                0 <= f < self.pool_size && Some(f) != Option::<int>::None implies (
            fl.contains(f as usize) || spec_pt_uses_frame(self.page_table@, f)) by {
                if f == frame_id {
                    assert(fl[fl.len() - 1] == frame_id);
                } else {
                    if mid.free_list@.contains(f as usize) {
                        let e = choose|e: int|
                            0 <= e < mid.free_list@.len() && (#[trigger] mid.free_list@[e])
                                == f as usize;
                        assert(fl[e] == f as usize);
                    }
                }
            }
            let pt0 = old(self).page_table@;
            let pt1 = self.page_table@;
            assert forall|q: u32|
                q != page_id implies self.spec_resident(q) == old(self).spec_resident(q) by {
                if spec_pt_contains(pt1, q) {
                    let e = choose|e: int| 0 <= e < pt1.len() && (#[trigger] pt1[e]).0 == q;
                    let src = if e < i as int {
                        e
                    } else {
                        e + 1
                    };
                    assert(pt0[src].0 == q);
                }
                if spec_pt_contains(pt0, q) {
                    let e = choose|e: int| 0 <= e < pt0.len() && (#[trigger] pt0[e]).0 == q;
                    assert(e != i as int);
                    let dst = if e < i as int {
                        e
                    } else {
                        e - 1
                    };
                    assert(pt1[dst].0 == q);
                }
            }
        }
        Ok(true)
    }
}

} // verus!

verus! {

impl BufferPoolManager {
    /// Runs a tuple insertion against a resident page in its frame.
    pub fn page_insert_tuple(
        &mut self,
        page_id: &u32,
        meta: crate::tuple::TupleMetadata,
        tuple: crate::tuple::Tuple,
    ) -> (r: Result<Option<u16>, Error>)
        requires
            old(self).wf(),
        ensures
            final(self).wf(),
            r is Ok <==> old(self).spec_resident(*page_id),
            r is Err ==> *final(self) == *old(self),
            final(self).page_table@ == old(self).page_table@,
            final(self).free_list@ == old(self).free_list@,
            final(self).replacer == old(self).replacer,
            final(self).disk_manager == old(self).disk_manager,
            final(self).pool_size == old(self).pool_size,
            r is Ok ==> {
                let f = old(self).spec_frame_of(*page_id);
                let page = old(self).pages@[f];
                &&& (forall|g: int|
                    0 <= g < old(self).pages@.len() && g != f ==> final(self).pages@[g] == old(self).pages@[g])
                &&& (r->Ok_0 is Some <==> page.spec_fits(tuple@.len() as int))
                &&& (r->Ok_0 is None ==> final(self).pages@[f] == page)
                &&& (r->Ok_0 matches Some(slot) ==> {
                    let offset = page.spec_tuples_end() - tuple@.len();
                    &&& slot == page.tuple_info@.len()
                    &&& final(self).pages@[f].tuple_info@ =~= page.tuple_info@.push(
                        crate::page::TupleInfo {
                            offset: offset as u16,
                            size_bytes: tuple@.len() as u16,
                            metadata: meta,
                        },
                    )
                    &&& final(self).pages@[f].data@ =~= page.data@.take(offset) + tuple@
                        + page.data@.skip(offset + tuple@.len())
                    &&& final(self).pages@[f].page_id == page.page_id
                    &&& final(self).pages@[f].next_page_id == page.next_page_id
                })
            },
            r is Ok ==> spec_slots_preserved(*old(self), *final(self)),
    {
        let i = match self.pt_find(*page_id) {
            Some(i) => i,
            Option::None => {
                return Err(Error::NotFound);
            },
        };
        let f = self.page_table[i].1.frame_id();
        let ghost pre = *self;
        proof {
            lemma_pt_index_at(self.page_table@, *page_id, i as int);
            assert(pre.pages@[f as int].wf());
        }
        let page = &mut self.pages[f];
        let slot = page.insert_tuple(meta, tuple);
        proof {
            assert forall|x: int|
                0 <= x < self.page_table@.len() implies (#[trigger] self.page_table@[x]).0
                    == self.pages@[self.page_table@[x].1.frame_id as int].page_id by {
                if self.page_table@[x].1.frame_id != f {
                    assert(self.pages@[self.page_table@[x].1.frame_id as int]
                        == pre.pages@[self.page_table@[x].1.frame_id as int]);
                }
            }
            let oldp = pre.pages@[f as int];
            assert forall|r2: crate::record_id::RecordId|
                spec_slot_deleted(pre, r2) implies spec_slot_deleted(*self, r2) by {
                if r2.page_id == *page_id {
                    assert(spec_slots_of(pre, r2.page_id) == oldp.tuple_info@);
                    if slot is Some {
                        assert(self.pages@[f as int].tuple_info@[r2.slot_id as int]
                            == oldp.tuple_info@[r2.slot_id as int]);
                    }
                } else {
                    if pre.spec_resident(r2.page_id) {
                        assert(pre.spec_frame_of(r2.page_id) != f as int);
                    }
                }
            }
            assert forall|r2: crate::record_id::RecordId|
                spec_slot_live(pre, r2) implies spec_slot_live(*self, r2) && spec_tuple_at(
                *self,
                r2,
            ) == spec_tuple_at(pre, r2) by {
                if r2.page_id == *page_id {
                    assert(spec_slots_of(pre, r2.page_id) == oldp.tuple_info@);
                    let info = oldp.tuple_info@[r2.slot_id as int];
                    if slot is Some {
                        assert(self.pages@[f as int].tuple_info@[r2.slot_id as int] == info);
                        let offset = oldp.spec_tuples_end() - tuple@.len();
                        assert(oldp.wf());
                        assert(info.offset >= oldp.spec_tuples_end()) by {
                            assert(oldp.tuple_info@[oldp.tuple_info@.len() - 1].offset
                                <= info.offset || (info.offset == 0 && info.size_bytes == 0
                                && info.metadata.spec_is_deleted()));
                        }
                        assert(self.pages@[f as int].data@.subrange(
                            info.offset as int,
                            info.offset + info.size_bytes,
                        ) =~= oldp.data@.subrange(info.offset as int, info.offset
                            + info.size_bytes));
                    }
                } else {
                    if pre.spec_resident(r2.page_id) {
                        assert(pre.spec_frame_of(r2.page_id) != f as int);
                    }
                }
            }
        }
        Ok(slot)
    }

    /// Reads a tuple from a resident page.
    pub fn page_get_tuple(&self, page_id: &u32, rid: &crate::record_id::RecordId) -> (r: Result<
        crate::tuple::Tuple,
        Error,
    >)
        requires
            self.wf(),
        ensures
            !self.spec_resident(*page_id) ==> r == Err::<crate::tuple::Tuple, Error>(
                Error::NotFound,
            ),
            self.spec_resident(*page_id) ==> {
                let page = self.pages@[self.spec_frame_of(*page_id)];
                &&& (r is Ok <==> rid.page_id == page.page_id && rid.slot_id
                    < page.tuple_info@.len()
                    && !page.tuple_info@[rid.slot_id as int].metadata.spec_is_deleted())
                &&& (r matches Ok(t) ==> t@ == page.data@.subrange(
                    page.tuple_info@[rid.slot_id as int].offset as int,
                    page.tuple_info@[rid.slot_id as int].offset
                        + page.tuple_info@[rid.slot_id as int].size_bytes,
                ))
            },
    {
        match self.get_page(page_id) {
            Some(p) => p.get_tuple(rid),
            Option::None => Err(Error::NotFound),
        }
    }

    /// Reads a tuple's metadata from a resident page.
    pub fn page_get_tuple_metadata(&self, page_id: &u32, rid: &crate::record_id::RecordId) -> (r:
        Result<crate::tuple::TupleMetadata, Error>)
        requires
            self.wf(),
        ensures
            !self.spec_resident(*page_id) ==> r == Err::<crate::tuple::TupleMetadata, Error>(
                Error::NotFound,
            ),
            self.spec_resident(*page_id) ==> {
                let page = self.pages@[self.spec_frame_of(*page_id)];
                &&& (r is Ok <==> rid.page_id == page.page_id && rid.slot_id
                    < page.tuple_info@.len())
                &&& (r matches Ok(m) ==> m == page.tuple_info@[rid.slot_id as int].metadata)
            },
    {
        match self.get_page(page_id) {
            Some(p) => p.get_tuple_metadata(rid),
            Option::None => Err(Error::NotFound),
        }
    }

    /// Replaces a tuple's metadata on a resident page.
    pub fn page_update_tuple_metadata(
        &mut self,
        page_id: &u32,
        metadata: &crate::tuple::TupleMetadata,
        rid: &crate::record_id::RecordId,
    ) -> (r: Result<(), Error>)
        requires
            old(self).wf(),
            old(self).spec_resident(*page_id) ==> {
                let page = old(self).pages@[old(self).spec_frame_of(*page_id)];
                !metadata.spec_is_deleted() && rid.page_id == page.page_id && rid.slot_id
                    < page.tuple_info@.len() ==> 12 + 4 * page.tuple_info@.len()
                    <= page.tuple_info@[rid.slot_id as int].offset
            },
        ensures
            final(self).wf(),
            !old(self).spec_resident(*page_id) ==> r is Err && *final(self) == *old(self),
            final(self).page_table@ == old(self).page_table@,
            final(self).free_list@ == old(self).free_list@,
            final(self).replacer == old(self).replacer,
            final(self).disk_manager == old(self).disk_manager,
            final(self).pool_size == old(self).pool_size,
            old(self).spec_resident(*page_id) ==> {
                let f = old(self).spec_frame_of(*page_id);
                let page = old(self).pages@[f];
                &&& (r is Ok <==> rid.page_id == page.page_id && rid.slot_id
                    < page.tuple_info@.len())
                &&& (forall|g: int|
                    0 <= g < old(self).pages@.len() && g != f ==> final(self).pages@[g] == old(self).pages@[g])
                &&& (r is Ok ==> final(self).pages@[f].tuple_info@ =~= page.tuple_info@.update(
                    rid.slot_id as int,
                    crate::page::TupleInfo {
                        metadata: *metadata,
                        ..page.tuple_info@[rid.slot_id as int]
                    },
                ) && final(self).pages@[f].data@ == page.data@ && final(self).pages@[f].page_id
                    == page.page_id && final(self).pages@[f].next_page_id == page.next_page_id)
                &&& (r is Err ==> final(self).pages@[f] == page)
            },
            r is Ok ==> (forall|r2: crate::record_id::RecordId|
                (r2.page_id != *page_id || r2.slot_id != rid.slot_id) && spec_slot_deleted(
                    *old(self),
                    r2,
                ) ==> spec_slot_deleted(*final(self), r2)),
            r is Ok ==> (forall|r2: crate::record_id::RecordId|
                (r2.page_id != *page_id || r2.slot_id != rid.slot_id) && spec_slot_live(
                    *old(self),
                    r2,
                ) ==> spec_slot_live(*final(self), r2) && spec_tuple_at(*final(self), r2)
                    == spec_tuple_at(*old(self), r2)),
            r is Ok && metadata.spec_is_deleted() ==> spec_slot_deleted(
                *final(self),
                crate::record_id::RecordId { page_id: *page_id, slot_id: rid.slot_id },
            ),
    {
        let i = match self.pt_find(*page_id) {
            Some(i) => i,
            Option::None => {
                return Err(Error::NotFound);
            },
        };
        let f = self.page_table[i].1.frame_id();
        let ghost pre = *self;
        proof {
            lemma_pt_index_at(self.page_table@, *page_id, i as int);
            assert(pre.pages@[f as int].wf());
        }
        let page = &mut self.pages[f];
        let r = page.update_tuple_metadata(metadata, rid);
        proof {
            assert forall|x: int|
                0 <= x < self.page_table@.len() implies (#[trigger] self.page_table@[x]).0
                    == self.pages@[self.page_table@[x].1.frame_id as int].page_id by {
                if self.page_table@[x].1.frame_id != f {
                    assert(self.pages@[self.page_table@[x].1.frame_id as int]
                        == pre.pages@[self.page_table@[x].1.frame_id as int]);
                }
            }
        }
        r
    }

    /// Overwrites a tuple in place on a resident page; sizes must match.
    pub fn page_update_tuple_in_place(
        &mut self,
        page_id: &u32,
        meta: crate::tuple::TupleMetadata,
        tuple: crate::tuple::Tuple,
        rid: &crate::record_id::RecordId,
    ) -> (r: Result<(), Error>)
        requires
            old(self).wf(),
            old(self).spec_resident(*page_id) ==> {
                let page = old(self).pages@[old(self).spec_frame_of(*page_id)];
                &&& rid.slot_id < page.tuple_info@.len()
                &&& tuple@.len() == page.tuple_info@[rid.slot_id as int].size_bytes
                &&& (!meta.spec_is_deleted() ==> 12 + 4 * page.tuple_info@.len()
                    <= page.tuple_info@[rid.slot_id as int].offset)
            },
        ensures
            final(self).wf(),
            r is Ok <==> old(self).spec_resident(*page_id),
            r is Err ==> *final(self) == *old(self),
            final(self).page_table@ == old(self).page_table@,
            final(self).free_list@ == old(self).free_list@,
            final(self).replacer == old(self).replacer,
            final(self).disk_manager == old(self).disk_manager,
            final(self).pool_size == old(self).pool_size,
            r is Ok ==> {
                let f = old(self).spec_frame_of(*page_id);
                let page = old(self).pages@[f];
                &&& (forall|g: int|
                    0 <= g < old(self).pages@.len() && g != f ==> final(self).pages@[g] == old(self).pages@[g])
                &&& final(self).pages@[f].tuple_info@ =~= page.tuple_info@.update(
                    rid.slot_id as int,
                    crate::page::TupleInfo {
                        metadata: meta,
                        ..page.tuple_info@[rid.slot_id as int]
                    },
                )
                &&& final(self).pages@[f].data@ =~= page.data@.take(
                    page.tuple_info@[rid.slot_id as int].offset as int,
                ) + tuple@ + page.data@.skip(
                    page.tuple_info@[rid.slot_id as int].offset
                        + page.tuple_info@[rid.slot_id as int].size_bytes,
                )
                &&& final(self).pages@[f].page_id == page.page_id
                &&& final(self).pages@[f].next_page_id == page.next_page_id
            },
            r is Ok ==> (forall|r2: crate::record_id::RecordId|
                (r2.page_id != *page_id || r2.slot_id != rid.slot_id) && spec_slot_deleted(
                    *old(self),
                    r2,
                ) ==> spec_slot_deleted(*final(self), r2)),
            r is Ok ==> (forall|r2: crate::record_id::RecordId|
                r2.page_id != *page_id && spec_slot_live(*old(self), r2) ==> spec_slot_live(
                    *final(self),
                    r2,
                ) && spec_tuple_at(*final(self), r2) == spec_tuple_at(*old(self), r2)),
            r is Ok ==> (forall|r2: crate::record_id::RecordId|
                r2.page_id == *page_id && r2.slot_id != rid.slot_id && spec_slot_live(
                    *old(self),
                    r2,
                ) ==> spec_slot_live(*final(self), r2)),
    {
        let i = match self.pt_find(*page_id) {
            Some(i) => i,
            Option::None => {
                return Err(Error::NotFound);
            },
        };
        let f = self.page_table[i].1.frame_id();
        let ghost pre = *self;
        proof {
            lemma_pt_index_at(self.page_table@, *page_id, i as int);
            assert(pre.pages@[f as int].wf());
        }
        let page = &mut self.pages[f];
        let r = page.update_tuple_in_place_unchecked(meta, tuple, rid);
        proof {
            assert forall|x: int|
                0 <= x < self.page_table@.len() implies (#[trigger] self.page_table@[x]).0
                    == self.pages@[self.page_table@[x].1.frame_id as int].page_id by {
                if self.page_table@[x].1.frame_id != f {
                    assert(self.pages@[self.page_table@[x].1.frame_id as int]
                        == pre.pages@[self.page_table@[x].1.frame_id as int]);
                }
            }
        }
        r
    }

    /// Links a resident page to a successor page.
    pub fn page_set_next_page_id(&mut self, page_id: &u32, next: u32) -> (r: Result<(), Error>)
        requires
            old(self).wf(),
        ensures
            final(self).wf(),
            r is Ok <==> old(self).spec_resident(*page_id),
            r is Err ==> *final(self) == *old(self),
            final(self).page_table@ == old(self).page_table@,
            final(self).free_list@ == old(self).free_list@,
            final(self).replacer == old(self).replacer,
            final(self).disk_manager == old(self).disk_manager,
            final(self).pool_size == old(self).pool_size,
            r is Ok ==> final(self).pages@ =~= old(self).pages@.update(
                old(self).spec_frame_of(*page_id),
                TablePage {
                    next_page_id: next,
                    ..old(self).pages@[old(self).spec_frame_of(*page_id)]
                },
            ),
            spec_slots_preserved(*old(self), *final(self)),
    {
        let i = match self.pt_find(*page_id) {
            Some(i) => i,
            Option::None => {
                return Err(Error::NotFound);
            },
        };
        let f = self.page_table[i].1.frame_id();
        let ghost pre = *self;
        proof {
            lemma_pt_index_at(self.page_table@, *page_id, i as int);
        }
        let page = &mut self.pages[f];
        page.set_next_page_id(next);
        proof {
            assert forall|x: int|
                0 <= x < self.page_table@.len() implies (#[trigger] self.page_table@[x]).0
                    == self.pages@[self.page_table@[x].1.frame_id as int].page_id by {
                if self.page_table@[x].1.frame_id != f {
                    assert(self.pages@[self.page_table@[x].1.frame_id as int]
                        == pre.pages@[self.page_table@[x].1.frame_id as int]);
                }
            }
            assert(self.pages@[f as int].wf());
            assert(self.pages@ =~= pre.pages@.update(
                f as int,
                TablePage { next_page_id: next, ..pre.pages@[f as int] },
            ));
        }
        Ok(())
    }

    /// A cursor over the live tuples of a resident page.
    pub fn page_iter(&self, page_id: &u32) -> (r: Option<crate::page::TablePageIterator>)
        requires
            self.wf(),
        ensures
            r is Some <==> self.spec_resident(*page_id),
            r matches Some(it) ==> {
                let page = self.pages@[self.spec_frame_of(*page_id)];
                &&& it.page.wf()
                &&& it.page.page_id == page.page_id
                &&& it.page.next_page_id == page.next_page_id
                &&& it.page.data@ == page.data@
                &&& it.page.tuple_info@ == page.tuple_info@
                &&& it.index == 0
            },
    {
        match self.get_page(page_id) {
            Some(p) => Some(p.iter()),
            Option::None => Option::None,
        }
    }
}

} // verus!
