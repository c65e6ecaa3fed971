use vstd::prelude::*;

use crate::buffer::{
    lemma_slots_preserved_trans, spec_bytes_of, spec_slot_deleted, spec_slot_live,
    spec_slots_of, spec_slots_preserved, spec_tuple_at, BufferPoolManager,
};
use crate::errors::Error;
use crate::record_id::RecordId;
use crate::schema::Table;
use crate::tuple::{Tuple, TupleMetadata};
use crate::INVALID_PID;

verus! {

/// A table stored as a linked list of slotted pages. The heap keeps the
/// chain's endpoints; the pages themselves live in the buffer pool it is
/// given for each operation.
#[derive(Debug)]
pub struct TableHeap {
    pub page_cnt: u32,
    pub schema: Table,
    pub first_page_id: u32,
    pub last_page_id: u32,
}

impl TableHeap {
    /// The heap's endpoints name pages that exist on the pool's disk.
    pub open spec fn wf(&self, bpm: BufferPoolManager) -> bool {
        &&& bpm.disk_manager.spec_allocated(self.first_page_id)
        &&& bpm.disk_manager.spec_allocated(self.last_page_id)
    }

    /// A heap over a fresh page of the given pool.
    pub fn new(schema: Table, bpm: &mut BufferPoolManager) -> (r: Result<TableHeap, Error>)
        requires
            old(bpm).wf(),
        ensures
            final(bpm).wf(),
            final(bpm).disk_manager.current_page_no >= old(bpm).disk_manager.current_page_no,
            r matches Ok(h) ==> h.wf(*final(bpm)) && h.page_cnt == 1 && h.first_page_id
                == h.last_page_id,
            r matches Ok(h) ==> h.schema == schema && final(bpm).spec_resident(h.first_page_id)
                && final(bpm).pages@[final(bpm).spec_frame_of(h.first_page_id)].tuple_info@.len()
                == 0,
            old(bpm).disk_manager.current_page_no + 1 < crate::INVALID_PID && old(
                bpm,
            ).replacer.current_timestamp < usize::MAX && (old(bpm).free_list@.len() > 0 || old(
                bpm,
            ).replacer.curr_size > 0) ==> r is Ok,
    {
        let page_id = match bpm.new_page() {
            Some(p) => p,
            Option::None => {
                return Err(Error::CreationError);
            },
        };
        let _ignored = bpm.unpin_page(&page_id, false);
        Ok(TableHeap { page_cnt: 1, schema, first_page_id: page_id, last_page_id: page_id })
    }

    /// The table's schema.
    pub fn schema(&self) -> (r: Table)
        ensures
            r.name == self.schema.name,
            r.fixed_field_size_bytes == self.schema.fixed_field_size_bytes,
            r.columns@ == self.schema.columns@,
    {
        self.schema.clone()
    }

    /// The number of pages in the chain.
    pub fn num_pages(&self) -> (r: u32)
        ensures
            r == self.page_cnt,
    {
        self.page_cnt
    }

    /// Grows the chain by one page: the new page is linked after the old
    /// last page and becomes the new last page.
    pub fn create_new_page(&mut self, bpm: &mut BufferPoolManager) -> (r: Result<u32, Error>)
        requires
            old(bpm).wf(),
            old(self).wf(*old(bpm)),
        ensures
            final(bpm).wf(),
            final(bpm).disk_manager.current_page_no >= old(bpm).disk_manager.current_page_no,
            final(self).wf(*final(bpm)),
            r matches Ok(pid) ==> final(self).last_page_id == pid && final(self).page_cnt == old(
                self,
            ).page_cnt + 1 && final(self).first_page_id == old(self).first_page_id,
            r is Err ==> *final(self) == *old(self),
            r matches Ok(pid) ==> final(bpm).spec_resident(old(self).last_page_id) && final(bpm).pages@[final(bpm).spec_frame_of(old(self).last_page_id)].next_page_id == pid,
            spec_slots_preserved(*old(bpm), *final(bpm)),
    {
        if self.page_cnt == u32::MAX {
            proof {
                crate::buffer::lemma_slots_preserved_refl(*bpm);
            }
            return Err(Error::CreationError);
        }
        let ghost m0 = *bpm;
        let new_page_id = match bpm.new_page() {
            Some(p) => p,
            Option::None => {
                return Err(Error::CreationError);
            },
        };
        let ghost m1 = *bpm;
        let _ignored = bpm.unpin_page(&new_page_id, false);
        let ghost m2 = *bpm;
        proof {
            lemma_slots_preserved_trans(m0, m1, m2);
        }
        match bpm.fetch_page(&self.last_page_id) {
            Some(_) => {},
            Option::None => {
                proof {
                    lemma_slots_preserved_trans(m0, m2, *bpm);
                }
                return Err(Error::CreationError);
            },
        }
        let ghost m3 = *bpm;
        proof {
            lemma_slots_preserved_trans(m0, m2, m3);
        }
        let _ignored = bpm.page_set_next_page_id(&self.last_page_id, new_page_id);
        let ghost m4 = *bpm;
        proof {
            lemma_slots_preserved_trans(m0, m3, m4);
        }
        let _ignored = bpm.unpin_page(&self.last_page_id, true);
        proof {
            lemma_slots_preserved_trans(m0, m4, *bpm);
        }
        self.last_page_id = new_page_id;
        self.page_cnt = self.page_cnt + 1;
        Ok(new_page_id)
    }

    /// Tombstones the tuple at the given record id.
    pub fn delete_tuple(&self, rid: &RecordId, bpm: &mut BufferPoolManager) -> (r: Result<
        (),
        Error,
    >)
        requires
            old(bpm).wf(),
            old(bpm).disk_manager.spec_allocated(rid.page_id),
        ensures
            final(bpm).wf(),
            final(bpm).disk_manager.current_page_no >= old(bpm).disk_manager.current_page_no,
            r is Ok ==> {
                let page = final(bpm).pages@[final(bpm).spec_frame_of(rid.page_id)];
                &&& final(bpm).spec_resident(rid.page_id)
                &&& rid.slot_id < page.tuple_info@.len()
                &&& page.tuple_info@[rid.slot_id as int].metadata.spec_is_deleted()
            },
            r is Ok ==> spec_slot_deleted(*final(bpm), *rid),
            forall|r2: RecordId|
                spec_slot_deleted(*old(bpm), r2) ==> spec_slot_deleted(*final(bpm), r2),
            forall|r2: RecordId|
                (r2.page_id != rid.page_id || r2.slot_id != rid.slot_id) && spec_slot_live(
                    *old(bpm),
                    r2,
                ) ==> spec_slot_live(*final(bpm), r2) && spec_tuple_at(*final(bpm), r2)
                    == spec_tuple_at(*old(bpm), r2),
    {
        let ghost m0 = *bpm;
        match bpm.fetch_page(&rid.page_id()) {
            Some(_) => {},
            Option::None => {
                return Err(Error::CreationError);
            },
        }
        let ghost m1 = *bpm;
        let deleted = TupleMetadata::deleted_payload_metadata();
        let r = bpm.page_update_tuple_metadata(&rid.page_id(), &deleted, rid);
        let ghost m2 = *bpm;
        let _ignored = bpm.unpin_page(&rid.page_id(), true);
        proof {
            if r is Err {
                assert(m2.pages@ =~= m1.pages@);
                assert(m2.page_table@ == m1.page_table@ && m2.disk_manager == m1.disk_manager);
            }
            assert forall|r2: RecordId|
                spec_slot_deleted(m0, r2) implies spec_slot_deleted(*bpm, r2) by {
                assert(spec_slot_deleted(m1, r2));
                if r is Ok {
                    if r2.page_id == rid.page_id && r2.slot_id == rid.slot_id {
                        assert(spec_slot_deleted(m2, r2));
                    } else {
                        assert(spec_slot_deleted(m2, r2));
                    }
                } else {
                    assert(spec_slots_of(m2, r2.page_id) == spec_slots_of(m1, r2.page_id));
                    assert(spec_slot_deleted(m2, r2));
                }
                assert(spec_slot_deleted(*bpm, r2));
            }
            assert forall|r2: RecordId|
                (r2.page_id != rid.page_id || r2.slot_id != rid.slot_id) && spec_slot_live(
                    m0,
                    r2,
                ) implies spec_slot_live(*bpm, r2) && spec_tuple_at(*bpm, r2) == spec_tuple_at(
                m0,
                r2,
            ) by {
                assert(spec_slot_live(m1, r2) && spec_tuple_at(m1, r2) == spec_tuple_at(m0, r2));
                if r is Ok {
                    assert(spec_slot_live(m2, r2) && spec_tuple_at(m2, r2) == spec_tuple_at(
                        m1,
                        r2,
                    ));
                } else {
                    assert(spec_slots_of(m2, r2.page_id) == spec_slots_of(m1, r2.page_id));
                    assert(spec_bytes_of(m2, r2.page_id) == spec_bytes_of(m1, r2.page_id));
                    assert(spec_slot_live(m2, r2) && spec_tuple_at(m2, r2) == spec_tuple_at(
                        m1,
                        r2,
                    ));
                }
                assert(spec_slot_live(*bpm, r2) && spec_tuple_at(*bpm, r2) == spec_tuple_at(
                    m2,
                    r2,
                ));
            }
        }
        r
    }

    /// Reads the tuple at the given record id.
    pub fn get_tuple(&self, rid: &RecordId, bpm: &mut BufferPoolManager) -> (r: Result<
        Tuple,
        Error,
    >)
        requires
            old(bpm).wf(),
            old(bpm).disk_manager.spec_allocated(rid.page_id),
        ensures
            final(bpm).wf(),
            final(bpm).disk_manager.current_page_no >= old(bpm).disk_manager.current_page_no,
            r matches Ok(t) ==> {
                let page = final(bpm).pages@[final(bpm).spec_frame_of(rid.page_id)];
                &&& final(bpm).spec_resident(rid.page_id)
                &&& rid.slot_id < page.tuple_info@.len()
                &&& !page.tuple_info@[rid.slot_id as int].metadata.spec_is_deleted()
                &&& t@ == page.data@.subrange(
                    page.tuple_info@[rid.slot_id as int].offset as int,
                    page.tuple_info@[rid.slot_id as int].offset
                        + page.tuple_info@[rid.slot_id as int].size_bytes,
                )
            },
            r matches Ok(t) ==> spec_slot_live(*old(bpm), *rid) && t@ == spec_tuple_at(
                *old(bpm),
                *rid,
            ),
            spec_slot_live(*old(bpm), *rid) && (old(bpm).spec_resident(rid.page_id) ==> old(bpm).spec_pin_count(rid.page_id) < usize::MAX) && (!old(bpm).spec_resident(rid.page_id)
                ==> old(bpm).replacer.current_timestamp < usize::MAX && (old(bpm).free_list@.len() > 0 || old(bpm).replacer.curr_size > 0)) ==> r is Ok,
            forall|r2: RecordId|
                spec_slot_deleted(*old(bpm), r2) ==> spec_slot_deleted(*final(bpm), r2),
            forall|r2: RecordId|
                spec_slot_live(*old(bpm), r2) ==> spec_slot_live(*final(bpm), r2)
                    && spec_tuple_at(*final(bpm), r2) == spec_tuple_at(*old(bpm), r2),
    {
        match bpm.fetch_page(&rid.page_id()) {
            Some(_) => {},
            Option::None => {
                return Err(Error::CreationError);
            },
        }
        let r = bpm.page_get_tuple(&rid.page_id(), rid);
        let _ignored = bpm.unpin_page(&rid.page_id(), false);
        r
    }

    /// Appends a tuple: to the last page when it fits, else to a fresh
    /// page. Returns where the tuple landed.
    pub fn insert_tuple(&mut self, tuple: Tuple, bpm: &mut BufferPoolManager) -> (r: Result<
        RecordId,
        Error,
    >)
        requires
            old(bpm).wf(),
            old(self).wf(*old(bpm)),
        ensures
            final(bpm).wf(),
            final(bpm).disk_manager.current_page_no >= old(bpm).disk_manager.current_page_no,
            final(self).wf(*final(bpm)),
            final(self).first_page_id == old(self).first_page_id,
            r matches Ok(rid) ==> rid.page_id == final(self).last_page_id,
            r matches Ok(rid) ==> {
                let page = final(bpm).pages@[final(bpm).spec_frame_of(rid.page_id)];
                &&& final(bpm).spec_resident(rid.page_id)
                &&& rid.slot_id == page.tuple_info@.len() - 1
                &&& !page.tuple_info@[rid.slot_id as int].metadata.spec_is_deleted()
                &&& page.data@.subrange(
                    page.tuple_info@[rid.slot_id as int].offset as int,
                    page.tuple_info@[rid.slot_id as int].offset
                        + page.tuple_info@[rid.slot_id as int].size_bytes,
                ) == tuple@
            },
            r matches Ok(rid) ==> spec_slot_live(*final(bpm), rid) && spec_tuple_at(
                *final(bpm),
                rid,
            ) == tuple@,
            forall|r2: RecordId|
                spec_slot_deleted(*old(bpm), r2) ==> spec_slot_deleted(*final(bpm), r2),
            forall|r2: RecordId|
                spec_slot_live(*old(bpm), r2) ==> spec_slot_live(*final(bpm), r2)
                    && spec_tuple_at(*final(bpm), r2) == spec_tuple_at(*old(bpm), r2),
    {
        match bpm.fetch_page(&self.last_page_id) {
            Some(_) => {},
            Option::None => {
                return Err(Error::CreationError);
            },
        }
        let first_try = match bpm.page_insert_tuple(
            &self.last_page_id,
            TupleMetadata::new(false),
            tuple.clone(),
        ) {
            Ok(s) => s,
            Err(e) => {
                let _ignored = bpm.unpin_page(&self.last_page_id, false);
                return Err(e);
            },
        };
        match first_try {
            Some(slot) => {
                let rid = RecordId::new(self.last_page_id, slot);
                let _ignored = bpm.unpin_page(&self.last_page_id, true);
                Ok(rid)
            },
            Option::None => {
                // the tuple does not fit on the last page: grow the chain
                let _ignored = bpm.unpin_page(&self.last_page_id, false);
                let new_page_id = match self.create_new_page(bpm) {
                    Ok(p) => p,
                    Err(e) => {
                        return Err(e);
                    },
                };
                match bpm.fetch_page(&new_page_id) {
                    Some(_) => {},
                    Option::None => {
                        return Err(Error::CreationError);
                    },
                }
                let second_try = match bpm.page_insert_tuple(
                    &new_page_id,
                    TupleMetadata::new(false),
                    tuple,
                ) {
                    Ok(s) => s,
                    Err(e) => {
                        let _ignored = bpm.unpin_page(&new_page_id, false);
                        return Err(e);
                    },
                };
                let r = match second_try {
                    Some(slot) => Ok(RecordId::new(new_page_id, slot)),
                    Option::None => Err(
                        Error::InvalidInput("the tuple does not fit on a page".to_string()),
                    ),
                };
                let _ignored = bpm.unpin_page(&new_page_id, true);
                r
            },
        }
    }

    /// Replaces the tuple at the given record id: in place when the new
    /// payload has the old payload's size, otherwise by tombstoning the old
    /// slot and appending the new payload, possibly on a fresh page. The
    /// record id changes in the second path.
    pub fn update_tuple(&mut self, rid: &RecordId, payload: Tuple, bpm: &mut BufferPoolManager) -> (
        r: Result<(), Error>)
        requires
            old(bpm).wf(),
            old(self).wf(*old(bpm)),
            old(bpm).disk_manager.spec_allocated(rid.page_id),
        ensures
            final(bpm).wf(),
            final(bpm).disk_manager.current_page_no >= old(bpm).disk_manager.current_page_no,
            final(self).wf(*final(bpm)),
            final(self).first_page_id == old(self).first_page_id,
            forall|r2: RecordId|
                spec_slot_deleted(*old(bpm), r2) ==> spec_slot_deleted(*final(bpm), r2),
            r is Ok && spec_slot_live(*old(bpm), *rid) && spec_slots_of(*old(bpm), rid.page_id)[rid.slot_id as int].size_bytes != payload@.len() ==> spec_slot_deleted(*final(bpm), *rid)
                && (exists|nr: RecordId|
                spec_slot_live(*final(bpm), nr) && spec_tuple_at(*final(bpm), nr) == payload@),
            r is Ok && spec_slot_live(*old(bpm), *rid) && spec_slots_of(*old(bpm), rid.page_id)[rid.slot_id as int].size_bytes == payload@.len() ==> spec_slot_live(*final(bpm), *rid)
                && spec_tuple_at(*final(bpm), *rid) == payload@,
    {
        let ghost m0 = *bpm;
        match bpm.fetch_page(&rid.page_id()) {
            Some(_) => {},
            Option::None => {
                return Err(Error::CreationError);
            },
        }
        let ghost m1 = *bpm;
        let metadata = match bpm.page_get_tuple_metadata(&rid.page_id(), rid) {
            Ok(m) => m,
            Err(e) => {
                let _ignored = bpm.unpin_page(&rid.page_id(), false);
                return Err(e);
            },
        };
        let existing = match bpm.page_get_tuple(&rid.page_id(), rid) {
            Ok(t) => t,
            Err(e) => {
                let _ignored = bpm.unpin_page(&rid.page_id(), false);
                return Err(e);
            },
        };
        proof {
            if spec_slot_live(m0, *rid) {
                assert(spec_slots_of(m1, rid.page_id) == spec_slots_of(m0, rid.page_id));
                assert(existing@.len() == spec_slots_of(m0, rid.page_id)[rid.slot_id as int].size_bytes);
            }
        }
        if existing.data.len() == payload.data.len() {
            let ghost before = *bpm;
            let r = bpm.page_update_tuple_in_place(&rid.page_id(), metadata, payload, rid);
            let ghost after = *bpm;
            let _ignored = bpm.unpin_page(&rid.page_id(), true);
            proof {
                if r is Ok && spec_slot_live(m0, *rid) {
                    let f = before.spec_frame_of(rid.page_id);
                    let info = before.pages@[f].tuple_info@[rid.slot_id as int];
                    assert(!metadata.spec_is_deleted());
                    assert(spec_slot_live(after, *rid) && spec_tuple_at(after, *rid)
                        == payload@) by {
                        assert(after.pages@[f].data@.subrange(
                            info.offset as int,
                            info.offset + info.size_bytes,
                        ) =~= payload@);
                    }
                    assert(spec_slot_live(*bpm, *rid) && spec_tuple_at(*bpm, *rid) == payload@);
                }
                assert forall|r2: RecordId|
                    spec_slot_deleted(m0, r2) implies spec_slot_deleted(*bpm, r2) by {
                    assert(spec_slot_deleted(m1, r2));
                    assert(spec_slot_deleted(before, r2));
                    if r is Ok {
                        assert(r2.page_id != rid.page_id || r2.slot_id != rid.slot_id);
                        assert(spec_slot_deleted(after, r2));
                    } else {
                        assert(spec_slots_of(after, r2.page_id) == spec_slots_of(
                            before,
                            r2.page_id,
                        ));
                    }
                    assert(spec_slot_deleted(*bpm, r2));
                }
            }
            r
        } else {
            let ghost before = *bpm;
            let deleted = TupleMetadata::deleted_payload_metadata();
            let r = bpm.page_update_tuple_metadata(&rid.page_id(), &deleted, rid);
            let ghost after = *bpm;
            let _ignored = bpm.unpin_page(&rid.page_id(), true);
            let ghost m2 = *bpm;
            proof {
                assert forall|r2: RecordId|
                    spec_slot_deleted(m0, r2) implies spec_slot_deleted(m2, r2) by {
                    assert(spec_slot_deleted(before, r2));
                    if r is Ok {
                        if r2.page_id == rid.page_id && r2.slot_id == rid.slot_id {
                            assert(spec_slot_deleted(after, r2));
                        } else {
                            assert(spec_slot_deleted(after, r2));
                        }
                    } else {
                        assert(after.pages@ =~= before.pages@);
                        assert(spec_slots_of(after, r2.page_id) == spec_slots_of(
                            before,
                            r2.page_id,
                        ));
                        assert(spec_slot_deleted(after, r2));
                    }
                    assert(spec_slot_deleted(m2, r2));
                }
                if r is Ok && spec_slot_live(m0, *rid) {
                    assert(spec_slot_deleted(after, *rid));
                    assert(spec_slot_deleted(m2, *rid));
                }
            }
            match r {
                Ok(_) => {},
                Err(e) => {
                    return Err(e);
                },
            }
            let inserted = self.insert_tuple(payload, bpm);
            proof {
                assert forall|r2: RecordId|
                    spec_slot_deleted(m0, r2) implies spec_slot_deleted(*bpm, r2) by {
                    assert(spec_slot_deleted(m2, r2));
                }
                if inserted is Ok && spec_slot_live(m0, *rid) {
                    assert(spec_slot_deleted(m2, *rid));
                    assert(spec_slot_deleted(*bpm, *rid));
                    let nr = inserted->Ok_0;
                    assert(spec_slot_live(*bpm, nr) && spec_tuple_at(*bpm, nr) == payload@);
                }
            }
            match inserted {
                Ok(_) => Ok(()),
                Err(e) => Err(e),
            }
        }
    }

    /// Every live tuple of the table, page by page along the chain, in
    /// slot order within each page.
    pub fn scan(&self, bpm: &mut BufferPoolManager) -> (r: Result<Vec<(RecordId, Tuple)>, Error>)
        requires
            old(bpm).wf(),
            self.wf(*old(bpm)),
        ensures
            final(bpm).wf(),
            final(bpm).disk_manager.current_page_no >= old(bpm).disk_manager.current_page_no,
            spec_slots_preserved(*old(bpm), *final(bpm)),
            r matches Ok(v) ==> (forall|x: int|
                0 <= x < v@.len() ==> spec_slot_live(*final(bpm), (#[trigger] v@[x]).0)
                    && v@[x].1@ == spec_tuple_at(*final(bpm), v@[x].0)),
    {
        let mut out: Vec<(RecordId, Tuple)> = Vec::new();
        let mut current_page_id = self.first_page_id;
        let mut hops: u32 = 0;
        proof {
            crate::buffer::lemma_slots_preserved_refl(*bpm);
        }
        loop
            invariant
                bpm.wf(),
                bpm.disk_manager.spec_allocated(current_page_id),
                bpm.disk_manager.current_page_no >= old(bpm).disk_manager.current_page_no,
                hops <= u32::MAX,
                spec_slots_preserved(*old(bpm), *bpm),
                forall|x: int|
                    0 <= x < out@.len() ==> spec_slot_live(*bpm, (#[trigger] out@[x]).0)
                        && out@[x].1@ == spec_tuple_at(*bpm, out@[x].0),
            ensures
                bpm.wf(),
                bpm.disk_manager.current_page_no >= old(bpm).disk_manager.current_page_no,
                spec_slots_preserved(*old(bpm), *bpm),
                forall|x: int|
                    0 <= x < out@.len() ==> spec_slot_live(*bpm, (#[trigger] out@[x]).0)
                        && out@[x].1@ == spec_tuple_at(*bpm, out@[x].0),
            decreases u32::MAX - hops,
        {
            let ghost b0 = *bpm;
            match bpm.fetch_page(&current_page_id) {
                Some(_) => {},
                Option::None => {
                    proof {
                        lemma_slots_preserved_trans(*old(bpm), b0, *bpm);
                    }
                    return Err(Error::CreationError);
                },
            }
            let mut it = match bpm.page_iter(&current_page_id) {
                Some(it) => it,
                Option::None => {
                    proof {
                        lemma_slots_preserved_trans(*old(bpm), b0, *bpm);
                    }
                    return Err(Error::CreationError);
                },
            };
            let ghost b1 = *bpm;
            let _ignored = bpm.unpin_page(&current_page_id, false);
            proof {
                lemma_slots_preserved_trans(b0, b1, *bpm);
                lemma_slots_preserved_trans(*old(bpm), b0, *bpm);
            }
            let ghost bstable = *bpm;
            proof {
                assert(bpm.spec_resident(current_page_id));
                assert(bpm.pages@[bpm.spec_frame_of(current_page_id)].tuple_info@
                    == it.page.tuple_info@);
                assert(bpm.pages@[bpm.spec_frame_of(current_page_id)].data@ == it.page.data@);
                assert(it.page.page_id == current_page_id);
            }
            loop
                invariant
                    it.page.wf(),
                    it.index <= it.page.tuple_info@.len() + 1,
                    *bpm == bstable,
                    bpm.wf(),
                    bpm.spec_resident(current_page_id),
                    bpm.pages@[bpm.spec_frame_of(current_page_id)].tuple_info@
                        == it.page.tuple_info@,
                    bpm.pages@[bpm.spec_frame_of(current_page_id)].data@ == it.page.data@,
                    it.page.page_id == current_page_id,
                    bpm.disk_manager.spec_allocated(current_page_id),
                    forall|x: int|
                        0 <= x < out@.len() ==> spec_slot_live(*bpm, (#[trigger] out@[x]).0)
                            && out@[x].1@ == spec_tuple_at(*bpm, out@[x].0),
                ensures
                    *bpm == bstable,
                    it.page.page_id == current_page_id,
                    forall|x: int|
                        0 <= x < out@.len() ==> spec_slot_live(*bpm, (#[trigger] out@[x]).0)
                            && out@[x].1@ == spec_tuple_at(*bpm, out@[x].0),
                decreases it.page.tuple_info@.len() + 1 - it.index,
            {
                let before = it.index;
                let ghost len0 = it.page.tuple_info@.len() as int;
                match it.next() {
                    Some(item) => {
                        proof {
                            crate::page::lemma_next_live_props(
                                it.page.tuple_info@,
                                before as int,
                            );
                            let s = crate::page::spec_next_live(
                                it.page.tuple_info@,
                                before as int,
                            )->0;
                            assert(spec_slot_live(*bpm, item.0) && item.1@ == spec_tuple_at(
                                *bpm,
                                item.0,
                            )) by {
                                assert(item.0.page_id == current_page_id);
                                assert(!it.page.tuple_info@[s].metadata.spec_is_deleted());
                            }
                        }
                        out.push(item);
                        proof {
                            assert(it.page.tuple_info@.len() as int == len0);
                            assert(it.index > before);
                            assert(it.index <= len0 + 1);
                        }
                    },
                    Option::None => {
                        break;
                    },
                }
            }
            let next_page_id = it.next_page_id();
            if next_page_id == INVALID_PID {
                break;
            }
            if hops == u32::MAX {
                return Err(Error::InvalidData("the page chain does not terminate".to_string()));
            }
            // the chain is trusted to stay within allocated pages; a link
            // that leaves them is corruption
            if next_page_id == 0 || next_page_id > bpm.disk_manager.current_page_no_exec() {
                return Err(Error::InvalidData("a page link points outside the file".to_string()));
            }
            current_page_id = next_page_id;
            hops = hops + 1;
        }
        Ok(out)
    }
}

} // verus!
