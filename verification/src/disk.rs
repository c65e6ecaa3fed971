use vstd::prelude::*;

use crate::page::{spec_page_bytes, spec_page_parses, TablePage};
use crate::{INVALID_PID, RUSTY_DB_PAGE_SIZE_BYTES};

verus! {

/// Page-granular storage: the image of the database file, held as one
/// page-sized byte buffer per page id. Page ids start at one; entry zero is
/// reserved. A host that persists the engine carries this image to and
/// from a file.
#[derive(Debug)]
pub struct DiskManager {
    /// The byte image of each page, indexed by page id.
    pub pages: Vec<Vec<u8>>,
    /// The highest page id handed out so far.
    pub current_page_no: u32,
}

impl DiskManager {
    /// The disk's invariant: one image per allocated page id, each of page
    /// size, and each allocated image decodes as a page.
    pub open spec fn wf(&self) -> bool {
        &&& self.pages@.len() == self.current_page_no + 1
        &&& self.current_page_no < INVALID_PID
        &&& forall|i: int|
            1 <= i <= self.current_page_no ==> spec_page_parses((#[trigger] self.pages@[i])@)
    }

    /// Whether a page id has been allocated.
    pub open spec fn spec_allocated(&self, page_id: u32) -> bool {
        1 <= page_id <= self.current_page_no
    }

    /// An empty disk with no pages allocated.
    pub fn new() -> (r: DiskManager)
        ensures
            r.wf(),
            r.current_page_no == 0,
    {
        let mut pages: Vec<Vec<u8>> = Vec::new();
        pages.push(Vec::new());
        DiskManager { pages, current_page_no: 0 }
    }

    /// Reserves the next page id, writes a fresh empty page at it, and
    /// returns the id.
    pub fn allocate_new_page(&mut self) -> (r: u32)
        requires
            old(self).wf(),
            old(self).current_page_no + 1 < INVALID_PID,
        ensures
            final(self).wf(),
            r == old(self).current_page_no + 1,
            final(self).current_page_no == r,
            forall|i: int| 0 <= i <= old(self).current_page_no ==> final(self).pages@[i] == old(self).pages@[i],
            final(self).spec_allocated(r),
            ({
                let fresh = final(self).pages@[r as int];
                exists|p: TablePage|
                    {
                        &&& #[trigger] spec_page_bytes(p) == fresh@
                        &&& p.wf()
                        &&& p.page_id == r
                        &&& p.next_page_id == INVALID_PID
                        &&& p.tuple_info@.len() == 0
                    }
            }),
    {
        let page_id = self.current_page_no + 1;
        self.current_page_no = page_id;
        let page = TablePage::new(page_id, INVALID_PID);
        let bytes = page.serialize();
        proof {
            crate::page::lemma_page_roundtrip(page);
        }
        self.pages.push(bytes);
        proof {
            assert(spec_page_bytes(page) == final(self).pages@[page_id as int]@);
        }
        page_id
    }

    /// The highest page id handed out so far.
    pub fn current_page_no_exec(&self) -> (r: u32)
        ensures
            r == self.current_page_no,
    {
        self.current_page_no
    }

    /// Frees a page id; space reclamation is not attempted.
    pub fn deallocate_page(&mut self, page_id: &u32)
        ensures
            *final(self) == *old(self),
    {
        let _ = page_id;
    }

    /// Reads an allocated page back from its image.
    pub fn read_page(&self, page_id: &u32) -> (r: TablePage)
        requires
            self.wf(),
            self.spec_allocated(*page_id),
        ensures
            r.wf(),
            spec_page_parses(self.pages@[*page_id as int]@),
            r.page_id == vstd::bytes::spec_u32_from_le_bytes(
                self.pages@[*page_id as int]@.subrange(0, 4),
            ),
            r.next_page_id == vstd::bytes::spec_u32_from_le_bytes(
                self.pages@[*page_id as int]@.subrange(4, 8),
            ),
            r.tuple_info@ == crate::page::spec_parsed_slots(self.pages@[*page_id as int]@),
            r.data@ == self.pages@[*page_id as int]@,
            !r.is_dirty,
    {
        let pid = *page_id as usize;
        TablePage::deserialize(self.pages[pid].as_slice())
    }

    /// Writes a page's image over its slot on disk.
    pub fn write_page(&mut self, page: TablePage)
        requires
            old(self).wf(),
            page.wf(),
            old(self).spec_allocated(page.page_id),
        ensures
            final(self).wf(),
            final(self).current_page_no == old(self).current_page_no,
            final(self).pages@.len() == old(self).pages@.len(),
            forall|i: int|
                0 <= i < old(self).pages@.len() && i != page.page_id ==> final(self).pages@[i]
                    == old(self).pages@[i],
            final(self).pages@[page.page_id as int]@ == spec_page_bytes(page),
    {
        let pid = page.page_id as usize;
        let bytes = page.serialize();
        proof {
            crate::page::lemma_page_roundtrip(page);
        }
        self.pages.set(pid, bytes);
    }
}

} // verus!
