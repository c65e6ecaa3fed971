use vstd::prelude::*;

use crate::errors::Error;
use crate::record_id::RecordId;
use crate::tuple::{Tuple, TupleMetadata};
use crate::{INVALID_PID, RUSTY_DB_PAGE_SIZE_BYTES};

verus! {

/// One slot of a page: where its tuple's bytes start, how many there are,
/// and the slot's metadata.
#[derive(Clone, Copy, Debug, PartialEq, Eq, Structural)]
pub struct TupleInfo {
    pub offset: u16,
    pub size_bytes: u16,
    pub metadata: TupleMetadata,
}

/// Number of live (non-tombstone) slots among the first `n`.
pub open spec fn spec_live_count(infos: Seq<TupleInfo>, n: int) -> int
    decreases n,
{
    if n <= 0 {
        0
    } else {
        spec_live_count(infos, n - 1) + (if infos[n - 1].metadata.spec_is_deleted() {
            0int
        } else {
            1int
        })
    }
}

/// A page of the slotted layout: a fixed-size byte buffer holding tuple
/// payloads that grow from the end toward the front, described by a slot
/// array that grows from the front.
#[derive(Debug)]
pub struct TablePage {
    pub page_id: u32,
    /// The next page of the owning heap file; pages form a singly-linked list.
    pub next_page_id: u32,
    pub data: Vec<u8>,
    /// Number of live tuples.
    pub tuple_cnt: u16,
    /// Number of tombstoned tuples.
    pub deleted_tuple_cnt: u16,
    pub tuple_info: Vec<TupleInfo>,
    pub is_dirty: bool,
}

impl TablePage {
    /// Well-formedness of a page: the buffer has the page size; the counters
    /// match the slot array; every slot's payload lies inside the buffer;
    /// the last slot starts no later than any other; and every live slot
    /// clears the serialized header and slot array.
    pub open spec fn wf(&self) -> bool {
        let n = self.tuple_info@.len() as int;
        &&& self.data@.len() == RUSTY_DB_PAGE_SIZE_BYTES
        &&& n <= u16::MAX
        &&& n == self.tuple_cnt + self.deleted_tuple_cnt
        &&& self.tuple_cnt == spec_live_count(self.tuple_info@, n)
        &&& forall|i: int|
            0 <= i < n ==> (#[trigger] self.tuple_info@[i]).offset + self.tuple_info@[i].size_bytes
                <= RUSTY_DB_PAGE_SIZE_BYTES
        &&& forall|i: int|
            0 <= i < n ==> (self.tuple_info@[n - 1].offset <= (#[trigger] self.tuple_info@[i]).offset
                || (self.tuple_info@[i].offset == 0 && self.tuple_info@[i].size_bytes == 0
                && self.tuple_info@[i].metadata.spec_is_deleted()))
        &&& 12 + 4 * n <= RUSTY_DB_PAGE_SIZE_BYTES
        &&& forall|i: int|
            0 <= i < n && !(#[trigger] self.tuple_info@[i]).metadata.spec_is_deleted() ==> 12 + 4
                * n <= self.tuple_info@[i].offset
    }

    /// Where the occupied tuple region starts: the last slot's offset, or
    /// the end of the buffer on a page without slots.
    pub open spec fn spec_tuples_end(&self) -> int {
        if self.tuple_info@.len() == 0 {
            RUSTY_DB_PAGE_SIZE_BYTES as int
        } else {
            self.tuple_info@.last().offset as int
        }
    }

    /// Whether a payload of the given byte length fits on this page: it
    /// must fit under the occupied region, with the grown header and slot
    /// array still clearing the payload's new start.
    pub open spec fn spec_fits(&self, len: int) -> bool {
        &&& len <= self.spec_tuples_end()
        &&& 12 + 4 * (self.tuple_info@.len() + 1) <= self.spec_tuples_end() - len
    }

    /// A fresh page full of zero bytes.
    pub fn new(page_id: u32, next_page_id: u32) -> (r: TablePage)
        ensures
            r.wf(),
            r.page_id == page_id,
            r.next_page_id == next_page_id,
            r.tuple_cnt == 0,
            r.deleted_tuple_cnt == 0,
            r.tuple_info@ =~= Seq::<TupleInfo>::empty(),
            r.data@ =~= Seq::new(RUSTY_DB_PAGE_SIZE_BYTES as nat, |i: int| 0u8),
            !r.is_dirty,
    {
        let mut data: Vec<u8> = Vec::new();
        let mut i: usize = 0;
        while i < RUSTY_DB_PAGE_SIZE_BYTES
            invariant
                i <= RUSTY_DB_PAGE_SIZE_BYTES,
                data@.len() == i,
                forall|j: int| 0 <= j < i ==> data@[j] == 0u8,
            decreases RUSTY_DB_PAGE_SIZE_BYTES - i,
        {
            data.push(0);
            i = i + 1;
        }
        let r = TablePage {
            page_id,
            next_page_id,
            data,
            tuple_cnt: 0,
            deleted_tuple_cnt: 0,
            tuple_info: Vec::new(),
            is_dirty: false,
        };
        proof {
            assert(r.data@ =~= Seq::new(RUSTY_DB_PAGE_SIZE_BYTES as nat, |i: int| 0u8));
        }
        r
    }

    /// A fresh page builder.
    pub fn builder() -> (r: TablePageBuilder)
        ensures
            r.page_id is None,
            r.next_page_id is None,
    {
        TablePageBuilder { page_id: Option::None, next_page_id: Option::None }
    }

    /// The page that stands for "no page": both ids invalid.
    pub fn create_invalid_page() -> (r: TablePage)
        ensures
            r.wf(),
            r.page_id == INVALID_PID,
            r.next_page_id == INVALID_PID,
            r.tuple_info@.len() == 0,
    {
        TablePage::new(INVALID_PID, INVALID_PID)
    }

    /// Whether this is the "no page" sentinel.
    pub fn is_invalid(&self) -> (r: bool)
        ensures
            r == (self.page_id == INVALID_PID && self.next_page_id == INVALID_PID),
    {
        self.page_id == INVALID_PID && self.next_page_id == INVALID_PID
    }

    /// The next page in the owning heap file's chain.
    pub fn get_next_page_id(&self) -> (r: u32)
        ensures
            r == self.next_page_id,
    {
        self.next_page_id
    }

    /// Links this page to its successor.
    pub fn set_next_page_id(&mut self, pid: u32)
        ensures
            *final(self) == (TablePage { next_page_id: pid, ..*old(self) }),
    {
        self.next_page_id = pid;
    }

    /// The page's own id.
    pub fn page_id(&self) -> (r: u32)
        ensures
            r == self.page_id,
    {
        self.page_id
    }

    /// The number of live tuples.
    pub fn tuple_count(&self) -> (r: u16)
        ensures
            r == self.tuple_cnt,
    {
        self.tuple_cnt
    }

    /// The number of tombstoned tuples.
    pub fn deleted_tuple_count(&self) -> (r: u16)
        ensures
            r == self.deleted_tuple_cnt,
    {
        self.deleted_tuple_cnt
    }

    /// Live and tombstoned tuples together: the slot count.
    pub fn total_tuple_count(&self) -> (r: u16)
        requires
            self.wf(),
        ensures
            r == self.tuple_info@.len(),
    {
        self.tuple_cnt + self.deleted_tuple_cnt
    }

    /// Whether the page has been modified since it was last read from or
    /// written to disk.
    pub fn get_is_dirty(&self) -> (r: bool)
        ensures
            r == self.is_dirty,
    {
        self.is_dirty
    }

    /// Sets the dirty flag, reporting whether it changed.
    pub fn set_is_dirty(&mut self, is_dirty: bool) -> (r: bool)
        ensures
            *final(self) == (TablePage { is_dirty, ..*old(self) }),
            r == (old(self).is_dirty != is_dirty),
    {
        if self.is_dirty == is_dirty {
            return false;
        }
        self.is_dirty = is_dirty;
        true
    }

    /// Where the given payload would start on this page, if it fits.
    pub fn get_next_tuple_offset(&self, payload: &Tuple) -> (r: Option<u16>)
        requires
            self.wf(),
        ensures
            r is Some <==> self.spec_fits(payload@.len() as int),
            r matches Some(o) ==> o == self.spec_tuples_end() - payload@.len(),
    {
        let tuple_size_bytes = payload.data.len();
        let total = self.total_tuple_count() as usize;
        let tuples_end: usize = if total == 0 {
            RUSTY_DB_PAGE_SIZE_BYTES
        } else {
            self.tuple_info[total - 1].offset as usize
        };
        if tuple_size_bytes > tuples_end {
            return Option::None;
        }
        let tuples_start = tuples_end - tuple_size_bytes;
        // the full on-disk header (12 bytes and 4 per slot, the new slot
        // included) must clear the payload's start
        if 12 + 4 * (total + 1) <= tuples_start {
            Some(tuples_start as u16)
        } else {
            Option::None
        }
    }

    /// Adjusts the live/tombstone counters for a metadata transition.
    pub fn update_tuple_cnt(&mut self, old_meta_delete: &bool, new_meta_delete: &bool)
        requires
            *old_meta_delete && !*new_meta_delete ==> old(self).deleted_tuple_cnt > 0
                && old(self).tuple_cnt < u16::MAX,
            !*old_meta_delete && *new_meta_delete ==> old(self).tuple_cnt > 0 && old(
                self,
            ).deleted_tuple_cnt < u16::MAX,
        ensures
            *old_meta_delete && !*new_meta_delete ==> *final(self) == (TablePage {
                tuple_cnt: (old(self).tuple_cnt + 1) as u16,
                deleted_tuple_cnt: (old(self).deleted_tuple_cnt - 1) as u16,
                ..*old(self)
            }),
            !*old_meta_delete && *new_meta_delete ==> *final(self) == (TablePage {
                tuple_cnt: (old(self).tuple_cnt - 1) as u16,
                deleted_tuple_cnt: (old(self).deleted_tuple_cnt + 1) as u16,
                ..*old(self)
            }),
            *old_meta_delete == *new_meta_delete ==> *final(self) == *old(self),
    {
        if *old_meta_delete && !*new_meta_delete {
            self.tuple_cnt = self.tuple_cnt + 1;
            self.deleted_tuple_cnt = self.deleted_tuple_cnt - 1;
        } else if !*old_meta_delete && *new_meta_delete {
            self.tuple_cnt = self.tuple_cnt - 1;
            self.deleted_tuple_cnt = self.deleted_tuple_cnt + 1;
        }
    }

    /// The payload bytes at the given record id, or an error when the id
    /// names another page, a slot past the end, or a tombstone.
    pub fn get_tuple(&self, rid: &RecordId) -> (r: Result<Tuple, Error>)
        requires
            self.wf(),
        ensures
            r is Ok <==> rid.page_id == self.page_id && rid.slot_id < self.tuple_info@.len()
                && !self.tuple_info@[rid.slot_id as int].metadata.spec_is_deleted(),
            r matches Ok(t) ==> t@ == self.data@.subrange(
                self.tuple_info@[rid.slot_id as int].offset as int,
                self.tuple_info@[rid.slot_id as int].offset
                    + self.tuple_info@[rid.slot_id as int].size_bytes,
            ),
            r matches Err(e) ==> e is InvalidInput,
    {
        if rid.page_id() != self.page_id || rid.slot_id() >= self.total_tuple_count() {
            return Err(Error::InvalidInput(rid.to_string()));
        }
        let slot = rid.slot_id() as usize;
        let info = self.tuple_info[slot];
        if info.metadata.is_deleted() {
            return Err(Error::InvalidInput(rid.to_string()));
        }
        let offset = info.offset as usize;
        let size_bytes = info.size_bytes as usize;
        let payload = vstd::slice::slice_subrange(self.data.as_slice(), offset, offset
            + size_bytes);
        Ok(Tuple::from(payload))
    }

    /// The metadata at the given record id, with the same bounds checks as
    /// reading the tuple.
    pub fn get_tuple_metadata(&self, rid: &RecordId) -> (r: Result<TupleMetadata, Error>)
        requires
            self.wf(),
        ensures
            r is Ok <==> rid.page_id == self.page_id && rid.slot_id < self.tuple_info@.len(),
            r matches Ok(m) ==> m == self.tuple_info@[rid.slot_id as int].metadata,
            r matches Err(e) ==> e is InvalidInput,
    {
        if rid.page_id() != self.page_id || rid.slot_id() >= self.total_tuple_count() {
            return Err(Error::InvalidInput(rid.to_string()));
        }
        Ok(self.tuple_info[rid.slot_id() as usize].metadata)
    }

    /// Replaces the metadata at the given record id, keeping the counters
    /// consistent with the tombstone transition.
    pub fn update_tuple_metadata(&mut self, metadata: &TupleMetadata, rid: &RecordId) -> (r: Result<
        (),
        Error,
    >)
        requires
            old(self).wf(),
            !metadata.spec_is_deleted() && rid.page_id == old(self).page_id && rid.slot_id < old(
                self,
            ).tuple_info@.len() ==> 12 + 4 * old(self).tuple_info@.len() <= old(
                self,
            ).tuple_info@[rid.slot_id as int].offset,
        ensures
            final(self).wf(),
            r is Ok <==> rid.page_id == old(self).page_id && rid.slot_id < old(
                self,
            ).tuple_info@.len(),
            r is Ok ==> final(self).tuple_info@ =~= old(self).tuple_info@.update(
                rid.slot_id as int,
                TupleInfo { metadata: *metadata, ..old(self).tuple_info@[rid.slot_id as int] },
            ),
            r is Ok ==> final(self).data@ == old(self).data@ && final(self).page_id == old(
                self,
            ).page_id && final(self).next_page_id == old(self).next_page_id && final(self).is_dirty
                == old(self).is_dirty,
            r is Err ==> *final(self) == *old(self),
            r matches Err(e) ==> e is InvalidInput,
    {
        if rid.page_id() != self.page_id || rid.slot_id() >= self.total_tuple_count() {
            return Err(Error::InvalidInput(rid.to_string()));
        }
        let slot = rid.slot_id() as usize;
        let old_meta = self.tuple_info[slot].metadata;
        proof {
            lemma_live_count_member(self.tuple_info@, self.tuple_info@.len() as int, slot as int);
            lemma_live_count_update(
                self.tuple_info@,
                slot as int,
                TupleInfo { metadata: *metadata, ..self.tuple_info@[slot as int] },
            );
        }
        self.update_tuple_cnt(&old_meta.is_deleted(), &metadata.is_deleted());
        let mut info = self.tuple_info[slot];
        info.metadata = *metadata;
        self.tuple_info.set(slot, info);
        Ok(())
    }

    /// Overwrites the payload and metadata at the given record id in place;
    /// the new payload must have exactly the old payload's size, and the
    /// slot must exist.
    pub fn update_tuple_in_place_unchecked(
        &mut self,
        meta: TupleMetadata,
        tuple: Tuple,
        rid: &RecordId,
    ) -> (r: Result<(), Error>)
        requires
            old(self).wf(),
            rid.slot_id < old(self).tuple_info@.len(),
            tuple@.len() == old(self).tuple_info@[rid.slot_id as int].size_bytes,
            !meta.spec_is_deleted() ==> 12 + 4 * old(self).tuple_info@.len() <= old(
                self,
            ).tuple_info@[rid.slot_id as int].offset,
        ensures
            final(self).wf(),
            r is Ok,
            final(self).tuple_info@ =~= old(self).tuple_info@.update(
                rid.slot_id as int,
                TupleInfo { metadata: meta, ..old(self).tuple_info@[rid.slot_id as int] },
            ),
            final(self).data@ =~= old(self).data@.take(
                old(self).tuple_info@[rid.slot_id as int].offset as int,
            ) + tuple@ + old(self).data@.skip(
                old(self).tuple_info@[rid.slot_id as int].offset
                    + old(self).tuple_info@[rid.slot_id as int].size_bytes,
            ),
            final(self).page_id == old(self).page_id,
            final(self).next_page_id == old(self).next_page_id,
            final(self).is_dirty == old(self).is_dirty,
    {
        let slot = rid.slot_id() as usize;
        let len = self.tuple_info[slot].size_bytes as usize;
        let old_meta = self.tuple_info[slot].metadata;
        proof {
            lemma_live_count_member(self.tuple_info@, self.tuple_info@.len() as int, slot as int);
            lemma_live_count_update(
                self.tuple_info@,
                slot as int,
                TupleInfo { metadata: meta, ..self.tuple_info@[slot as int] },
            );
        }
        self.update_tuple_cnt(&old_meta.is_deleted(), &meta.is_deleted());
        let mut info = self.tuple_info[slot];
        info.metadata = meta;
        self.tuple_info.set(slot, info);
        let offset = self.tuple_info[slot].offset as usize;
        copy_into(&mut self.data, offset, &tuple.data);
        Ok(())
    }

    /// Appends a tuple to the page: the payload is copied to its computed
    /// start, and a new slot is appended. Returns the new slot id, or
    /// nothing when the payload does not fit.
    pub fn insert_tuple(&mut self, meta: TupleMetadata, tuple: Tuple) -> (r: Option<u16>)
        requires
            old(self).wf(),
            old(self).tuple_info@.len() + 1 < u16::MAX,
        ensures
            final(self).wf(),
            r is Some <==> old(self).spec_fits(tuple@.len() as int),
            r is None ==> *final(self) == *old(self),
            r matches Some(slot) ==> {
                let offset = old(self).spec_tuples_end() - tuple@.len();
                &&& slot == old(self).tuple_info@.len()
                &&& final(self).tuple_info@ =~= old(self).tuple_info@.push(
                    TupleInfo {
                        offset: offset as u16,
                        size_bytes: tuple@.len() as u16,
                        metadata: meta,
                    },
                )
                &&& final(self).data@ =~= old(self).data@.take(offset) + tuple@ + old(
                    self,
                ).data@.skip(offset + tuple@.len())
                &&& final(self).page_id == old(self).page_id
                &&& final(self).next_page_id == old(self).next_page_id
                &&& final(self).is_dirty == old(self).is_dirty
                &&& final(self).tuple_cnt == old(self).tuple_cnt + (if meta.spec_is_deleted() {
                    0int
                } else {
                    1int
                })
                &&& final(self).deleted_tuple_cnt == old(self).deleted_tuple_cnt + (
                if meta.spec_is_deleted() {
                    1int
                } else {
                    0int
                })
            },
    {
        let offset_u16 = match self.get_next_tuple_offset(&tuple) {
            Some(o) => o,
            Option::None => {
                return Option::None;
            },
        };
        let offset = offset_u16 as usize;
        copy_into(&mut self.data, offset, &tuple.data);
        let tuple_info = TupleInfo {
            offset: offset_u16,
            size_bytes: tuple.data.len() as u16,
            metadata: meta,
        };
        let slot = self.tuple_cnt + self.deleted_tuple_cnt;
        proof {
            lemma_live_count_push(self.tuple_info@, tuple_info);
        }
        self.tuple_info.push(tuple_info);
        if meta.is_deleted() {
            self.deleted_tuple_cnt = self.deleted_tuple_cnt + 1;
        } else {
            self.tuple_cnt = self.tuple_cnt + 1;
        }
        Some(slot)
    }
}

/// Replaces `dst[at .. at + src.len()]` with the bytes of `src`.
fn copy_into(dst: &mut Vec<u8>, at: usize, src: &Vec<u8>)
    requires
        at + src@.len() <= old(dst)@.len(),
    ensures
        final(dst)@ =~= old(dst)@.take(at as int) + src@ + old(dst)@.skip(at + src@.len()),
        final(dst)@.len() == old(dst)@.len(),
{
    let n = src.len();
    let dlen: usize = dst.len();
    let mut j: usize = 0;
    while j < n
        invariant
            n == src@.len(),
            at + n <= dlen,
            dlen == dst@.len(),
            dst@.len() == old(dst)@.len(),
            j <= n,
            forall|x: int| 0 <= x < j ==> dst@[at + x] == src@[x],
            forall|x: int| 0 <= x < dst@.len() && !(at <= x < at + j) ==> dst@[x] == old(dst)@[x],
        decreases n - j,
    {
        dst.set(at + j, src[j]);
        j = j + 1;
    }
    proof {
        assert(dst@ =~= old(dst)@.take(at as int) + src@ + old(dst)@.skip(at + src@.len()));
    }
}

/// The live count is bounded by the prefix length, and a known live or
/// tombstoned slot bounds it further.
proof fn lemma_live_count_member(infos: Seq<TupleInfo>, n: int, at: int)
    requires
        0 <= at < n <= infos.len(),
    ensures
        0 <= spec_live_count(infos, n) <= n,
        infos[at].metadata.spec_is_deleted() ==> spec_live_count(infos, n) <= n - 1,
        !infos[at].metadata.spec_is_deleted() ==> spec_live_count(infos, n) >= 1,
    decreases n,
{
    if at == n - 1 {
        lemma_live_count_bound(infos, n - 1);
    } else {
        lemma_live_count_member(infos, n - 1, at);
    }
}

/// The live count lies between zero and the prefix length.
proof fn lemma_live_count_bound(infos: Seq<TupleInfo>, n: int)
    requires
        n <= infos.len(),
    ensures
        0 <= spec_live_count(infos, n),
        n >= 0 ==> spec_live_count(infos, n) <= n,
    decreases n,
{
    if n > 0 {
        lemma_live_count_bound(infos, n - 1);
    }
}

/// How the live count changes when one slot's entry is replaced.
proof fn lemma_live_count_update(infos: Seq<TupleInfo>, at: int, v: TupleInfo)
    requires
        0 <= at < infos.len(),
    ensures
        spec_live_count(infos.update(at, v), infos.len() as int) == spec_live_count(
            infos,
            infos.len() as int,
        ) + (if infos[at].metadata.spec_is_deleted() && !v.metadata.spec_is_deleted() {
            1int
        } else if !infos[at].metadata.spec_is_deleted() && v.metadata.spec_is_deleted() {
            -1int
        } else {
            0int
        }),
{
    lemma_live_count_update_prefix(infos, at, v, infos.len() as int);
}

/// The prefix form of `lemma_live_count_update`.
proof fn lemma_live_count_update_prefix(infos: Seq<TupleInfo>, at: int, v: TupleInfo, n: int)
    requires
        0 <= at < infos.len(),
        n <= infos.len(),
    ensures
        spec_live_count(infos.update(at, v), n) == spec_live_count(infos, n) + (if at < n {
            if infos[at].metadata.spec_is_deleted() && !v.metadata.spec_is_deleted() {
                1int
            } else if !infos[at].metadata.spec_is_deleted() && v.metadata.spec_is_deleted() {
                -1int
            } else {
                0int
            }
        } else {
            0int
        }),
    decreases n,
{
    if n > 0 {
        lemma_live_count_update_prefix(infos, at, v, n - 1);
    }
}

/// The live count over a pushed sequence.
proof fn lemma_live_count_push(infos: Seq<TupleInfo>, v: TupleInfo)
    ensures
        spec_live_count(infos.push(v), infos.len() + 1int) == spec_live_count(
            infos,
            infos.len() as int,
        ) + (if v.metadata.spec_is_deleted() {
            0int
        } else {
            1int
        }),
{
    lemma_live_count_push_prefix(infos, v, infos.len() as int);
}

/// Prefixes of a pushed sequence count like the original.
proof fn lemma_live_count_push_prefix(infos: Seq<TupleInfo>, v: TupleInfo, n: int)
    requires
        n <= infos.len(),
    ensures
        spec_live_count(infos.push(v), n) == spec_live_count(infos, n),
    decreases n,
{
    if n > 0 {
        lemma_live_count_push_prefix(infos, v, n - 1);
    }
}

/// A builder for a table page.
pub struct TablePageBuilder {
    pub page_id: Option<u32>,
    pub next_page_id: Option<u32>,
}

impl TablePageBuilder {
    /// Sets the page id.
    pub fn page_id(self, page_id: u32) -> (r: TablePageBuilder)
        ensures
            r.page_id == Some(page_id),
            r.next_page_id == self.next_page_id,
    {
        TablePageBuilder { page_id: Some(page_id), next_page_id: self.next_page_id }
    }

    /// Sets the next page id.
    pub fn next_page_id(self, next_page_id: u32) -> (r: TablePageBuilder)
        ensures
            r.next_page_id == Some(next_page_id),
            r.page_id == self.page_id,
    {
        TablePageBuilder { page_id: self.page_id, next_page_id: Some(next_page_id) }
    }

    /// Builds the page; the page id must have been set, and a missing next
    /// page id means the page ends its chain.
    pub fn build(self) -> (r: TablePage)
        requires
            self.page_id is Some,
        ensures
            r.wf(),
            r.page_id == self.page_id->0,
            r.next_page_id == (if self.next_page_id is Some {
                self.next_page_id->0
            } else {
                INVALID_PID
            }),
            r.tuple_cnt == 0,
            r.deleted_tuple_cnt == 0,
            r.tuple_info@.len() == 0,
            !r.is_dirty,
            r.data@ =~= Seq::new(RUSTY_DB_PAGE_SIZE_BYTES as nat, |i: int| 0u8),
    {
        let page_id = match self.page_id {
            Some(p) => p,
            Option::None => 0,
        };
        let next = match self.next_page_id {
            Some(p) => p,
            Option::None => INVALID_PID,
        };
        TablePage::new(page_id, next)
    }
}

} // verus!

verus! {

/// The four on-disk bytes of one slot: its offset and size, little-endian,
/// with a tombstone persisted as four zero bytes.
pub open spec fn spec_slot_bytes(info: TupleInfo) -> Seq<u8> {
    if info.metadata.spec_is_deleted() {
        vstd::bytes::spec_u16_to_le_bytes(0) + vstd::bytes::spec_u16_to_le_bytes(0)
    } else {
        vstd::bytes::spec_u16_to_le_bytes(info.offset) + vstd::bytes::spec_u16_to_le_bytes(
            info.size_bytes,
        )
    }
}

/// The on-disk slot array of the first `n` slots.
pub open spec fn spec_slots_bytes(infos: Seq<TupleInfo>, n: int) -> Seq<u8>
    decreases n,
{
    if n <= 0 {
        Seq::empty()
    } else {
        spec_slots_bytes(infos, n - 1) + spec_slot_bytes(infos[n - 1])
    }
}

/// The serialized bytes of a page: page id, next page id, the two tuple
/// counters, the slot array, and the tuple region of the buffer.
pub open spec fn spec_page_bytes(p: TablePage) -> Seq<u8> {
    let n = p.tuple_info@.len() as int;
    vstd::bytes::spec_u32_to_le_bytes(p.page_id) + vstd::bytes::spec_u32_to_le_bytes(
        p.next_page_id,
    ) + vstd::bytes::spec_u16_to_le_bytes(p.tuple_cnt) + vstd::bytes::spec_u16_to_le_bytes(
        p.deleted_tuple_cnt,
    ) + spec_slots_bytes(p.tuple_info@, n) + p.data@.skip(12 + 4 * n)
}

/// The slot parsed from the on-disk slot array at position `i`: four zero
/// bytes come back as a tombstone.
pub open spec fn spec_parsed_slot(bytes: Seq<u8>, i: int) -> TupleInfo {
    let offset = vstd::bytes::spec_u16_from_le_bytes(bytes.subrange(12 + 4 * i, 14 + 4 * i));
    let size = vstd::bytes::spec_u16_from_le_bytes(bytes.subrange(14 + 4 * i, 16 + 4 * i));
    TupleInfo {
        offset,
        size_bytes: size,
        metadata: TupleMetadata { is_deleted: offset == 0 && size == 0 },
    }
}

/// The number of slots a page image declares: its live count plus its
/// tombstone count.
pub open spec fn spec_parsed_count(bytes: Seq<u8>) -> int {
    vstd::bytes::spec_u16_from_le_bytes(bytes.subrange(8, 10))
        + vstd::bytes::spec_u16_from_le_bytes(bytes.subrange(10, 12))
}

/// The slot array parsed from a page image.
pub open spec fn spec_parsed_slots(bytes: Seq<u8>) -> Seq<TupleInfo> {
    Seq::new(spec_parsed_count(bytes) as nat, |i: int| spec_parsed_slot(bytes, i))
}

/// Whether a buffer decodes as a page: it has the page size, its slot
/// array fits, its counters match its tombstones, every real slot lies in
/// bounds past the header, and the last slot starts no later than any
/// other real slot.
pub open spec fn spec_page_parses(bytes: Seq<u8>) -> bool {
    let n = spec_parsed_count(bytes);
    let infos = spec_parsed_slots(bytes);
    &&& bytes.len() == RUSTY_DB_PAGE_SIZE_BYTES
    &&& 12 + 4 * n <= RUSTY_DB_PAGE_SIZE_BYTES
    &&& vstd::bytes::spec_u16_from_le_bytes(bytes.subrange(8, 10)) == spec_live_count(infos, n)
    &&& forall|i: int|
        0 <= i < n ==> ((#[trigger] infos[i]).metadata.spec_is_deleted() || (12 + 4 * n
            <= infos[i].offset && infos[i].offset + infos[i].size_bytes
            <= RUSTY_DB_PAGE_SIZE_BYTES))
    &&& forall|i: int|
        0 <= i < n ==> (infos[n - 1].offset <= (#[trigger] infos[i]).offset || (infos[i].offset
            == 0 && infos[i].size_bytes == 0 && infos[i].metadata.spec_is_deleted()))
}

impl TablePage {
    /// Serializes the page into its fixed-size on-disk image.
    pub fn serialize(&self) -> (r: Vec<u8>)
        requires
            self.wf(),
        ensures
            r@ == spec_page_bytes(*self),
            r@.len() == RUSTY_DB_PAGE_SIZE_BYTES,
    {
        let ghost infos = self.tuple_info@;
        let n = self.tuple_info.len();
        let mut out = vstd::bytes::u32_to_le_bytes(self.page_id);
        let mut part = vstd::bytes::u32_to_le_bytes(self.next_page_id);
        out.append(&mut part);
        let mut part = vstd::bytes::u16_to_le_bytes(self.tuple_cnt);
        out.append(&mut part);
        let mut part = vstd::bytes::u16_to_le_bytes(self.deleted_tuple_cnt);
        out.append(&mut part);
        let ghost header = out@;
        let mut i: usize = 0;
        proof {
            assert(out@ =~= header + spec_slots_bytes(infos, 0));
        }
        while i < n
            invariant
                self.wf(),
                infos == self.tuple_info@,
                n == infos.len(),
                i <= n,
                out@ == header + spec_slots_bytes(infos, i as int),
            decreases n - i,
        {
            let info = self.tuple_info[i];
            if info.metadata.is_deleted() {
                let mut part = vstd::bytes::u16_to_le_bytes(0);
                out.append(&mut part);
                let mut part = vstd::bytes::u16_to_le_bytes(0);
                out.append(&mut part);
                proof {
                    assert(out@ =~= header + spec_slots_bytes(infos, i as int + 1));
                }
            } else {
                let mut part = vstd::bytes::u16_to_le_bytes(info.offset);
                out.append(&mut part);
                let mut part = vstd::bytes::u16_to_le_bytes(info.size_bytes);
                out.append(&mut part);
                proof {
                    assert(out@ =~= header + spec_slots_bytes(infos, i as int + 1));
                }
            }
            i = i + 1;
        }
        let tail = vstd::slice::slice_subrange(
            self.data.as_slice(),
            12 + 4 * n,
            RUSTY_DB_PAGE_SIZE_BYTES,
        );
        let mut tail_vec = vstd::slice::slice_to_vec(tail);
        proof {
            lemma_slots_bytes_len(infos, n as int);
        }
        out.append(&mut tail_vec);
        proof {
            assert(out@ =~= spec_page_bytes(*self));
        }
        out
    }

    /// Reads a page back from its on-disk image.
    pub fn deserialize(buffer: &[u8]) -> (r: TablePage)
        requires
            spec_page_parses(buffer@),
        ensures
            r.wf(),
            r.page_id == vstd::bytes::spec_u32_from_le_bytes(buffer@.subrange(0, 4)),
            r.next_page_id == vstd::bytes::spec_u32_from_le_bytes(buffer@.subrange(4, 8)),
            r.tuple_cnt == vstd::bytes::spec_u16_from_le_bytes(buffer@.subrange(8, 10)),
            r.deleted_tuple_cnt == vstd::bytes::spec_u16_from_le_bytes(buffer@.subrange(10, 12)),
            r.tuple_info@ == spec_parsed_slots(buffer@),
            r.data@ == buffer@,
            !r.is_dirty,
    {
        let page_id = vstd::bytes::u32_from_le_bytes(vstd::slice::slice_subrange(buffer, 0, 4));
        let next_page_id = vstd::bytes::u32_from_le_bytes(
            vstd::slice::slice_subrange(buffer, 4, 8),
        );
        let tuple_cnt = vstd::bytes::u16_from_le_bytes(vstd::slice::slice_subrange(buffer, 8, 10));
        let deleted_tuple_cnt = vstd::bytes::u16_from_le_bytes(
            vstd::slice::slice_subrange(buffer, 10, 12),
        );
        let n: usize = tuple_cnt as usize + deleted_tuple_cnt as usize;
        let mut tuple_info: Vec<TupleInfo> = Vec::new();
        let mut i: usize = 0;
        while i < n
            invariant
                spec_page_parses(buffer@),
                n == spec_parsed_count(buffer@),
                i <= n,
                tuple_info@.len() == i,
                forall|j: int| 0 <= j < i ==> tuple_info@[j] == spec_parsed_slots(buffer@)[j],
            decreases n - i,
        {
            let offset = vstd::bytes::u16_from_le_bytes(
                vstd::slice::slice_subrange(buffer, 12 + 4 * i, 14 + 4 * i),
            );
            let size = vstd::bytes::u16_from_le_bytes(
                vstd::slice::slice_subrange(buffer, 14 + 4 * i, 16 + 4 * i),
            );
            let deleted = size == 0 && offset == 0;
            tuple_info.push(
                TupleInfo { offset, size_bytes: size, metadata: TupleMetadata::new(deleted) },
            );
            i = i + 1;
        }
        let data = vstd::slice::slice_to_vec(buffer);
        let r = TablePage {
            page_id,
            next_page_id,
            data,
            tuple_cnt,
            deleted_tuple_cnt,
            tuple_info,
            is_dirty: false,
        };
        proof {
            assert(r.tuple_info@ =~= spec_parsed_slots(buffer@));
        }
        r
    }
}

/// The slot array serializes to four bytes per slot.
pub proof fn lemma_slots_bytes_len(infos: Seq<TupleInfo>, n: int)
    ensures
        spec_slots_bytes(infos, n).len() == (if n >= 0 {
            4 * n
        } else {
            0int
        }),
    decreases n,
{
    if n > 0 {
        lemma_slots_bytes_len(infos, n - 1);
        vstd::bytes::lemma_auto_spec_u16_to_from_le_bytes();
    }
}

} // verus!

verus! {

/// Each slot's four on-disk bytes sit at its position in the slot array.
proof fn lemma_slot_entry(infos: Seq<TupleInfo>, n: int, i: int)
    requires
        0 <= i < n <= infos.len(),
    ensures
        spec_slots_bytes(infos, n).subrange(4 * i, 4 * i + 4) == spec_slot_bytes(infos[i]),
    decreases n,
{
    lemma_slots_bytes_len(infos, n - 1);
    vstd::bytes::lemma_auto_spec_u16_to_from_le_bytes();
    if i == n - 1 {
        let pre = spec_slots_bytes(infos, n - 1);
        let entry = spec_slot_bytes(infos[i]);
        assert((pre + entry).subrange(4 * i, 4 * i + 4) =~= entry);
    } else {
        lemma_slot_entry(infos, n - 1, i);
        let pre = spec_slots_bytes(infos, n - 1);
        let entry = spec_slot_bytes(infos[n - 1]);
        assert((pre + entry).subrange(4 * i, 4 * i + 4) =~= pre.subrange(4 * i, 4 * i + 4));
    }
}

/// Two slot arrays with the same tombstone flags have the same live count.
proof fn lemma_live_count_congruent(a: Seq<TupleInfo>, b: Seq<TupleInfo>, n: int)
    requires
        forall|i: int|
            0 <= i < n ==> (#[trigger] a[i]).metadata.spec_is_deleted()
                == b[i].metadata.spec_is_deleted(),
    ensures
        spec_live_count(a, n) == spec_live_count(b, n),
    decreases n,
{
    if n > 0 {
        lemma_live_count_congruent(a, b, n - 1);
    }
}

/// Reading a serialized page back yields an equivalent page: the same ids
/// and counters, the same tombstone flags, the same slots for every live
/// tuple, and the same payload bytes under every live slot. This is the
/// round-trip law for pages; a tombstone's stale offset and size are not
/// persisted, which is the one part of a page that the disk forgets.
pub proof fn lemma_page_roundtrip(p: TablePage)
    requires
        p.wf(),
    ensures
        ({
            let bytes = spec_page_bytes(p);
            let infos = spec_parsed_slots(bytes);
            &&& spec_page_parses(bytes)
            &&& vstd::bytes::spec_u32_from_le_bytes(bytes.subrange(0, 4)) == p.page_id
            &&& vstd::bytes::spec_u32_from_le_bytes(bytes.subrange(4, 8)) == p.next_page_id
            &&& vstd::bytes::spec_u16_from_le_bytes(bytes.subrange(8, 10)) == p.tuple_cnt
            &&& vstd::bytes::spec_u16_from_le_bytes(bytes.subrange(10, 12))
                == p.deleted_tuple_cnt
            &&& infos.len() == p.tuple_info@.len()
            &&& forall|i: int|
                0 <= i < infos.len() ==> (#[trigger] infos[i]).metadata.spec_is_deleted()
                    == p.tuple_info@[i].metadata.spec_is_deleted()
            &&& forall|i: int|
                0 <= i < infos.len() && !(#[trigger] infos[i]).metadata.spec_is_deleted()
                    ==> infos[i] == p.tuple_info@[i]
            &&& forall|i: int|
                0 <= i < infos.len() && !(#[trigger] p.tuple_info@[i]).metadata.spec_is_deleted()
                    ==> bytes.subrange(
                    p.tuple_info@[i].offset as int,
                    p.tuple_info@[i].offset + p.tuple_info@[i].size_bytes,
                ) == p.data@.subrange(
                    p.tuple_info@[i].offset as int,
                    p.tuple_info@[i].offset + p.tuple_info@[i].size_bytes,
                )
        }),
{
    let bytes = spec_page_bytes(p);
    let n = p.tuple_info@.len() as int;
    let a = vstd::bytes::spec_u32_to_le_bytes(p.page_id);
    let b = vstd::bytes::spec_u32_to_le_bytes(p.next_page_id);
    let c = vstd::bytes::spec_u16_to_le_bytes(p.tuple_cnt);
    let d = vstd::bytes::spec_u16_to_le_bytes(p.deleted_tuple_cnt);
    let s = spec_slots_bytes(p.tuple_info@, n);
    let t = p.data@.skip(12 + 4 * n);
    vstd::bytes::lemma_auto_spec_u32_to_from_le_bytes();
    vstd::bytes::lemma_auto_spec_u16_to_from_le_bytes();
    lemma_slots_bytes_len(p.tuple_info@, n);
    assert(bytes =~= a + b + c + d + s + t);
    assert(bytes.len() == RUSTY_DB_PAGE_SIZE_BYTES);
    assert(bytes.subrange(0, 4) =~= a);
    assert(bytes.subrange(4, 8) =~= b);
    assert(bytes.subrange(8, 10) =~= c);
    assert(bytes.subrange(10, 12) =~= d);
    let infos = spec_parsed_slots(bytes);
    assert(spec_parsed_count(bytes) == n);
    // each parsed slot matches its source
    assert forall|i: int| 0 <= i < n implies (#[trigger] infos[i]).metadata.spec_is_deleted()
        == p.tuple_info@[i].metadata.spec_is_deleted() && (
    !p.tuple_info@[i].metadata.spec_is_deleted() ==> infos[i] == p.tuple_info@[i]) && (
    p.tuple_info@[i].metadata.spec_is_deleted() ==> infos[i].offset == 0 && infos[i].size_bytes
        == 0) by {
        lemma_slot_entry(p.tuple_info@, n, i);
        assert(bytes.subrange(12 + 4 * i, 14 + 4 * i) =~= s.subrange(4 * i, 4 * i + 4).subrange(
            0,
            2,
        ));
        assert(bytes.subrange(14 + 4 * i, 16 + 4 * i) =~= s.subrange(4 * i, 4 * i + 4).subrange(
            2,
            4,
        ));
        let info = p.tuple_info@[i];
        if info.metadata.spec_is_deleted() {
            assert(spec_slot_bytes(info).subrange(0, 2) =~= vstd::bytes::spec_u16_to_le_bytes(0));
            assert(spec_slot_bytes(info).subrange(2, 4) =~= vstd::bytes::spec_u16_to_le_bytes(0));
        } else {
            assert(spec_slot_bytes(info).subrange(0, 2) =~= vstd::bytes::spec_u16_to_le_bytes(
                info.offset,
            ));
            assert(spec_slot_bytes(info).subrange(2, 4) =~= vstd::bytes::spec_u16_to_le_bytes(
                info.size_bytes,
            ));
            assert(12 + 4 * n <= info.offset);
        }
    }
    lemma_live_count_congruent(infos, p.tuple_info@, n);
    // the tuple region is carried over unchanged
    assert forall|i: int|
        0 <= i < n && !(#[trigger] p.tuple_info@[i]).metadata.spec_is_deleted() implies bytes
        .subrange(
        p.tuple_info@[i].offset as int,
        p.tuple_info@[i].offset + p.tuple_info@[i].size_bytes,
    ) == p.data@.subrange(
        p.tuple_info@[i].offset as int,
        p.tuple_info@[i].offset + p.tuple_info@[i].size_bytes,
    ) by {
        let off = p.tuple_info@[i].offset as int;
        let sz = p.tuple_info@[i].size_bytes as int;
        assert forall|x: int| 0 <= x < sz implies #[trigger] bytes[off + x] == p.data@[off
            + x] by {
            assert(bytes[off + x] == t[off + x - (12 + 4 * n)]);
        }
        assert(bytes.subrange(off, off + sz) =~= p.data@.subrange(off, off + sz));
    }
    assert(spec_page_parses(bytes));
}

impl Clone for TablePage {
    fn clone(&self) -> (r: TablePage)
        ensures
            r.page_id == self.page_id,
            r.next_page_id == self.next_page_id,
            r.data@ == self.data@,
            r.tuple_cnt == self.tuple_cnt,
            r.deleted_tuple_cnt == self.deleted_tuple_cnt,
            r.tuple_info@ == self.tuple_info@,
            r.is_dirty == self.is_dirty,
    {
        let data = self.data.clone();
        let tuple_info = self.tuple_info.clone();
        proof {
            assert forall|i: int| 0 <= i < self.data@.len() implies data@[i]
                == self.data@[i] by {
                assert(vstd::pervasive::cloned::<u8>(self.data@[i], data@[i]));
            }
            assert(data@ =~= self.data@);
            assert forall|i: int| 0 <= i < self.tuple_info@.len() implies tuple_info@[i]
                == self.tuple_info@[i] by {
                assert(vstd::pervasive::cloned::<TupleInfo>(
                    self.tuple_info@[i],
                    tuple_info@[i],
                ));
            }
            assert(tuple_info@ =~= self.tuple_info@);
        }
        TablePage {
            page_id: self.page_id,
            next_page_id: self.next_page_id,
            data,
            tuple_cnt: self.tuple_cnt,
            deleted_tuple_cnt: self.deleted_tuple_cnt,
            tuple_info,
            is_dirty: self.is_dirty,
        }
    }
}

/// The first live slot at or past `from`, if any.
pub open spec fn spec_next_live(infos: Seq<TupleInfo>, from: int) -> Option<int>
    decreases infos.len() - from,
{
    if from < 0 || from >= infos.len() {
        Option::None
    } else if !infos[from].metadata.spec_is_deleted() {
        Some(from)
    } else {
        spec_next_live(infos, from + 1)
    }
}

/// The slot `spec_next_live` finds is in range and not a tombstone.
pub proof fn lemma_next_live_props(infos: Seq<TupleInfo>, from: int)
    requires
        spec_next_live(infos, from) is Some,
    ensures
        ({
            let s = spec_next_live(infos, from)->0;
            0 <= s < infos.len() && !infos[s].metadata.spec_is_deleted()
        }),
    decreases infos.len() - from,
{
    if !(from < 0 || from >= infos.len()) && infos[from].metadata.spec_is_deleted() {
        lemma_next_live_props(infos, from + 1);
    }
}

/// A cursor over the live tuples of one page, in slot order.
pub struct TablePageIterator {
    pub page: TablePage,
    pub index: u16,
}

impl TablePage {
    /// A cursor over this page's live tuples; the cursor works on its own
    /// copy of the page.
    pub fn iter(&self) -> (r: TablePageIterator)
        ensures
            r.page.page_id == self.page_id,
            r.page.next_page_id == self.next_page_id,
            r.page.data@ == self.data@,
            r.page.tuple_cnt == self.tuple_cnt,
            r.page.deleted_tuple_cnt == self.deleted_tuple_cnt,
            r.page.tuple_info@ == self.tuple_info@,
            r.index == 0,
    {
        TablePageIterator { page: self.clone(), index: 0 }
    }
}

impl TablePageIterator {
    /// The page id the cursor's page links to next.
    pub fn next_page_id(&self) -> (r: u32)
        ensures
            r == self.page.next_page_id,
    {
        self.page.get_next_page_id()
    }

    /// The tuple at the given slot, unless the slot is a tombstone.
    pub fn tuple_if_exists(&self, page_slot: u16) -> (r: Option<(RecordId, Tuple)>)
        requires
            self.page.wf(),
            page_slot < self.page.tuple_info@.len(),
        ensures
            r is Some <==> !self.page.tuple_info@[page_slot as int].metadata.spec_is_deleted(),
            r matches Some(item) ==> item.0 == (RecordId {
                page_id: self.page.page_id,
                slot_id: page_slot,
            }) && item.1@ == self.page.data@.subrange(
                self.page.tuple_info@[page_slot as int].offset as int,
                self.page.tuple_info@[page_slot as int].offset
                    + self.page.tuple_info@[page_slot as int].size_bytes,
            ),
    {
        if self.page.tuple_info[page_slot as usize].metadata.is_deleted() {
            return Option::None;
        }
        let rid = RecordId::new(self.page.page_id(), page_slot);
        match self.page.get_tuple(&rid) {
            Ok(payload) => Some((rid, payload)),
            Err(_) => Option::None,
        }
    }

    /// The next live tuple at or past the cursor, advancing the cursor
    /// beyond it; or nothing once only tombstones remain.
    pub fn next(&mut self) -> (r: Option<(RecordId, Tuple)>)
        requires
            old(self).page.wf(),
        ensures
            final(self).page == old(self).page,
            r is Some <==> spec_next_live(old(self).page.tuple_info@, old(self).index as int)
                is Some,
            r matches Some(item) ==> {
                let s = spec_next_live(old(self).page.tuple_info@, old(self).index as int)->0;
                &&& final(self).index == s + 1
                &&& item.0 == (RecordId { page_id: old(self).page.page_id, slot_id: s as u16 })
                &&& item.1@ == old(self).page.data@.subrange(
                    old(self).page.tuple_info@[s].offset as int,
                    old(self).page.tuple_info@[s].offset
                        + old(self).page.tuple_info@[s].size_bytes,
                )
            },
            r is None ==> final(self).index >= old(self).page.tuple_info@.len(),
            r is None ==> final(self).index == old(self).index || final(self).index == old(
                self,
            ).page.tuple_info@.len(),
            r is Some ==> final(self).index > old(self).index,
            r is Some ==> final(self).index <= old(self).page.tuple_info@.len(),
    {
        let n = self.page.total_tuple_count();
        let ghost start = self.index;
        loop
            invariant
                self.page == old(self).page,
                self.page.wf(),
                self.index >= start,
                start == old(self).index,
                self.index <= n || self.index == start,
                n == self.page.tuple_info@.len(),
                spec_next_live(self.page.tuple_info@, old(self).index as int) == spec_next_live(
                    self.page.tuple_info@,
                    self.index as int,
                ),
            ensures
                self.page == old(self).page,
                self.index >= start,
                start == old(self).index,
                self.index >= n ==> self.index == start || self.index == n,
                spec_next_live(self.page.tuple_info@, old(self).index as int) == spec_next_live(
                    self.page.tuple_info@,
                    self.index as int,
                ),
                self.index < n <==> spec_next_live(self.page.tuple_info@, old(self).index as int)
                    is Some,
                self.index < n ==> spec_next_live(self.page.tuple_info@, old(self).index as int)
                    == Some(self.index as int),
                self.index < n ==> !self.page.tuple_info@[self.index as int].metadata.spec_is_deleted(),
            decreases n - self.index,
        {
            if self.index >= n {
                break;
            }
            if !self.page.tuple_info[self.index as usize].metadata.is_deleted() {
                break;
            }
            self.index = self.index + 1;
        }
        if self.index >= n {
            return Option::None;
        }
        let slot = self.index;
        self.index = self.index + 1;
        self.tuple_if_exists(slot)
    }

    /// Skips `n` slots, then yields the next live tuple as `next` does.
    pub fn nth(&mut self, n: u16) -> (r: Option<(RecordId, Tuple)>)
        requires
            old(self).page.wf(),
            old(self).index + n <= u16::MAX,
        ensures
            final(self).page == old(self).page,
            r is Some <==> spec_next_live(old(self).page.tuple_info@, old(self).index + n) is Some,
    {
        self.index = self.index + n;
        self.next()
    }
}

} // verus!
