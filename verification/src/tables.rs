use vstd::prelude::*;

use crate::buffer::{
    spec_slot_deleted, spec_slot_live, spec_slots_of, spec_tuple_at, BufferPoolManager,
};
use crate::errors::Error;
use crate::heap::TableHeap;
use crate::record_id::RecordId;
use crate::schema::Table;
use crate::tuple::Tuple;

verus! {

/// A storage key: a table and a record location inside it.
pub struct Key<'a> {
    pub table_name: &'a str,
    pub record_id: &'a RecordId,
}

impl<'a> Key<'a> {
    /// A key from its parts.
    pub fn new(table_name: &'a str, record_id: &'a RecordId) -> (r: Key<'a>)
        ensures
            r.table_name@ == table_name@,
            r.record_id == record_id,
    {
        Key { table_name, record_id }
    }
}

/// A storage engine's health summary.
#[derive(Clone, Debug, PartialEq, Eq)]
pub struct Status {
    /// The name of the storage engine.
    pub name: String,
    /// The number of live keys in the engine.
    pub keys: u64,
    /// The logical size of live key/value pairs.
    pub size: u64,
}

/// Whether some table of the list carries the given name.
pub open spec fn spec_has_table(heaps: Seq<(String, TableHeap)>, name: Seq<char>) -> bool {
    exists|i: int| 0 <= i < heaps.len() && (#[trigger] heaps[i]).0@ == name
}

/// The storage engine: one heap file per table, all sharing one buffer
/// pool.
pub struct HeapTableManager {
    pub heaps: Vec<(String, TableHeap)>,
    pub bpm: BufferPoolManager,
}

impl HeapTableManager {
    /// The engine's invariant: a healthy pool, well-formed heaps, and one
    /// heap per table name.
    pub open spec fn wf(&self) -> bool {
        &&& self.bpm.wf()
        &&& forall|i: int|
            0 <= i < self.heaps@.len() ==> (#[trigger] self.heaps@[i]).1.wf(self.bpm)
        &&& forall|i: int, j: int|
            0 <= i < j < self.heaps@.len() ==> (#[trigger] self.heaps@[i]).0@ != (
            #[trigger] self.heaps@[j]).0@
    }

    /// An engine over the given pool, with no tables.
    pub fn new(bpm: BufferPoolManager) -> (r: HeapTableManager)
        requires
            bpm.wf(),
        ensures
            r.wf(),
            r.heaps@.len() == 0,
    {
        HeapTableManager { heaps: Vec::new(), bpm }
    }

    /// The index of the table with the given name.
    fn find(&self, table_name: &str) -> (r: Option<usize>)
        requires
            self.wf(),
        ensures
            r matches Some(i) ==> i < self.heaps@.len() && self.heaps@[i as int].0@
                == table_name@,
            r is Some <==> spec_has_table(self.heaps@, table_name@),
    {
        let wanted = table_name.to_string();
        let n = self.heaps.len();
        let mut i: usize = 0;
        while i < n
            invariant
                n == self.heaps@.len(),
                wanted@ == table_name@,
                i <= n,
                forall|j: int| 0 <= j < i ==> (#[trigger] self.heaps@[j]).0@ != table_name@,
            decreases n - i,
        {
            if self.heaps[i].0 == wanted {
                return Some(i);
            }
            i = i + 1;
        }
        Option::None
    }

    /// Creates a table with the given schema; a second table of the same
    /// name is refused.
    pub fn create_table(&mut self, table: Table) -> (r: Result<(), Error>)
        requires
            old(self).wf(),
        ensures
            final(self).wf(),
            spec_has_table(old(self).heaps@, table.name@) ==> (r matches Err(e) && e
                is InvalidInput),
            r is Ok ==> spec_has_table(final(self).heaps@, table.name@),
            !spec_has_table(old(self).heaps@, table.name@) && old(
                self,
            ).bpm.disk_manager.current_page_no + 1 < crate::INVALID_PID && old(
                self,
            ).bpm.replacer.current_timestamp < usize::MAX && (old(self).bpm.free_list@.len() > 0
                || old(self).bpm.replacer.curr_size > 0) ==> r is Ok,
    {
        match self.find(table.name()) {
            Some(_) => {
                return Err(
                    Error::InvalidInput("a table with this name already exists".to_string()),
                );
            },
            Option::None => {},
        }
        let ghost pre = *self;
        let name = table.name().to_string();
        let heap = match TableHeap::new(table, &mut self.bpm) {
            Ok(h) => h,
            Err(e) => {
                proof {
                    assert forall|x: int|
                        0 <= x < self.heaps@.len() implies (#[trigger] self.heaps@[x]).1.wf(
                        self.bpm,
                    ) by {
                        assert(self.heaps@[x].1.wf(pre.bpm));
                    }
                }
                return Err(e);
            },
        };
        proof {
            assert forall|i: int|
                0 <= i < self.heaps@.len() implies (#[trigger] self.heaps@[i]).1.wf(
                self.bpm,
            ) by {
                assert(self.heaps@[i].1.wf(pre.bpm));
            }
        }
        self.heaps.push((name, heap));
        proof {
            assert(self.heaps@[self.heaps@.len() - 1].0@ == table.name@);
            assert forall|i: int, j: int|
                0 <= i < j < self.heaps@.len() implies (#[trigger] self.heaps@[i]).0@ != (
            #[trigger] self.heaps@[j]).0@ by {
                if j == self.heaps@.len() - 1 {
                    if self.heaps@[i].0@ == table.name@ {
                        assert(spec_has_table(pre.heaps@, table.name@));
                    }
                }
            }
        }
        Ok(())
    }

    /// Drops a table; reports whether it existed.
    pub fn delete_table(&mut self, table_name: &str) -> (r: Result<bool, Error>)
        requires
            old(self).wf(),
        ensures
            final(self).wf(),
            r matches Ok(existed) && existed == spec_has_table(old(self).heaps@, table_name@),
            r matches Ok(true) ==> !spec_has_table(final(self).heaps@, table_name@),
    {
        let i = match self.find(table_name) {
            Some(i) => i,
            Option::None => {
                return Ok(false);
            },
        };
        let ghost pre = *self;
        self.heaps.remove(i);
        proof {
            let hs = self.heaps@;
            assert(hs =~= pre.heaps@.remove(i as int));
            assert forall|x: int| 0 <= x < hs.len() implies (#[trigger] hs[x]).1.wf(self.bpm)
                && (forall|y: int| 0 <= y < x ==> hs[y].0@ != (#[trigger] hs[x]).0@) by {
                let sx = if x < i as int {
                    x
                } else {
                    x + 1
                };
                assert(hs[x] == pre.heaps@[sx]);
                assert forall|y: int| 0 <= y < x implies hs[y].0@ != hs[x].0@ by {
                    let sy = if y < i as int {
                        y
                    } else {
                        y + 1
                    };
                    assert(hs[y] == pre.heaps@[sy]);
                }
            }
            assert(!spec_has_table(hs, table_name@)) by {
                if spec_has_table(hs, table_name@) {
                    let e = choose|e: int| 0 <= e < hs.len() && (#[trigger] hs[e]).0@ == table_name@;
                    let se = if e < i as int {
                        e
                    } else {
                        e + 1
                    };
                    assert(pre.heaps@[se].0@ == table_name@);
                    if se < i as int {
                        assert(pre.heaps@[se].0@ != pre.heaps@[i as int].0@);
                    } else {
                        assert(pre.heaps@[i as int].0@ != pre.heaps@[se].0@);
                    }
                }
            }
        }
        Ok(true)
    }

    /// The schema of a table, if it exists: the stored heap's own schema.
    pub fn get_table(&mut self, table_name: &str) -> (r: Result<Option<Table>, Error>)
        requires
            old(self).wf(),
        ensures
            *final(self) == *old(self),
            r matches Ok(t) && (t is Some <==> spec_has_table(old(self).heaps@, table_name@)),
            r matches Ok(t) ==> (t matches Some(schema) ==> exists|i: int|
                0 <= i < old(self).heaps@.len() && (#[trigger] old(self).heaps@[i]).0@
                    == table_name@ && schema.name == old(self).heaps@[i].1.schema.name
                    && schema.columns@ == old(self).heaps@[i].1.schema.columns@
                    && schema.fixed_field_size_bytes
                    == old(self).heaps@[i].1.schema.fixed_field_size_bytes),
    {
        match self.find(table_name) {
            Some(i) => Ok(Some(self.heaps[i].1.schema())),
            Option::None => Ok(Option::None),
        }
    }

    /// Tombstones the record a key names.
    pub fn delete(&mut self, key: Key<'_>) -> (r: Result<(), Error>)
        requires
            old(self).wf(),
        ensures
            final(self).wf(),
            !spec_has_table(old(self).heaps@, key.table_name@) ==> (r matches Err(e) && e
                is InvalidData),
            spec_has_table(old(self).heaps@, key.table_name@) && (key.record_id.page_id == 0
                || key.record_id.page_id > old(self).bpm.disk_manager.current_page_no) ==> (r
                matches Err(e) && e is InvalidInput),
            r is Ok ==> {
                let page = final(self).bpm.pages@[final(self).bpm.spec_frame_of(
                    key.record_id.page_id,
                )];
                &&& final(self).bpm.spec_resident(key.record_id.page_id)
                &&& key.record_id.slot_id < page.tuple_info@.len()
                &&& page.tuple_info@[key.record_id.slot_id as int].metadata.spec_is_deleted()
            },
            r is Ok ==> spec_slot_deleted(final(self).bpm, *key.record_id),
            forall|r2: RecordId|
                spec_slot_deleted(old(self).bpm, r2) ==> spec_slot_deleted(final(self).bpm, r2),
    {
        let i = match self.find(key.table_name) {
            Some(i) => i,
            Option::None => {
                return Err(Error::InvalidData("no table with this name exists".to_string()));
            },
        };
        if key.record_id.page_id() == 0 || key.record_id.page_id()
            > self.bpm.disk_manager.current_page_no_exec() {
            return Err(Error::InvalidInput("the record id names no page".to_string()));
        }
        let ghost pre2 = *self;
        let r = self.heaps[i].1.delete_tuple(key.record_id, &mut self.bpm);
        proof {
            assert forall|x: int|
                0 <= x < self.heaps@.len() implies (#[trigger] self.heaps@[x]).1.wf(
                self.bpm,
            ) by {
                assert(self.heaps@[x].1.wf(pre2.bpm));
            }
        }
        r
    }

    /// Reads the tuple a key names.
    pub fn get(&mut self, key: Key<'_>) -> (r: Result<Tuple, Error>)
        requires
            old(self).wf(),
        ensures
            final(self).wf(),
            !spec_has_table(old(self).heaps@, key.table_name@) ==> (r matches Err(e) && e
                is InvalidData),
            spec_has_table(old(self).heaps@, key.table_name@) && (key.record_id.page_id == 0
                || key.record_id.page_id > old(self).bpm.disk_manager.current_page_no) ==> (r
                matches Err(e) && e is InvalidInput),
            r matches Ok(t) ==> {
                let page = final(self).bpm.pages@[final(self).bpm.spec_frame_of(
                    key.record_id.page_id,
                )];
                &&& final(self).bpm.spec_resident(key.record_id.page_id)
                &&& key.record_id.slot_id < page.tuple_info@.len()
                &&& !page.tuple_info@[key.record_id.slot_id as int].metadata.spec_is_deleted()
                &&& t@ == page.data@.subrange(
                    page.tuple_info@[key.record_id.slot_id as int].offset as int,
                    page.tuple_info@[key.record_id.slot_id as int].offset
                        + page.tuple_info@[key.record_id.slot_id as int].size_bytes,
                )
            },
            r matches Ok(t) ==> spec_slot_live(old(self).bpm, *key.record_id) && t@
                == spec_tuple_at(old(self).bpm, *key.record_id),
            spec_has_table(old(self).heaps@, key.table_name@) && spec_slot_live(
                old(self).bpm,
                *key.record_id,
            ) && (old(self).bpm.spec_resident(key.record_id.page_id) ==> old(
                self,
            ).bpm.spec_pin_count(key.record_id.page_id) < usize::MAX) && (!old(
                self,
            ).bpm.spec_resident(key.record_id.page_id) ==> old(
                self,
            ).bpm.replacer.current_timestamp < usize::MAX && (old(self).bpm.free_list@.len() > 0
                || old(self).bpm.replacer.curr_size > 0)) ==> r is Ok,
            forall|r2: RecordId|
                spec_slot_deleted(old(self).bpm, r2) ==> spec_slot_deleted(final(self).bpm, r2),
            forall|r2: RecordId|
                spec_slot_live(old(self).bpm, r2) ==> spec_slot_live(final(self).bpm, r2)
                    && spec_tuple_at(final(self).bpm, r2) == spec_tuple_at(old(self).bpm, r2),
    {
        let i = match self.find(key.table_name) {
            Some(i) => i,
            Option::None => {
                return Err(Error::InvalidData("no table with this name exists".to_string()));
            },
        };
        if key.record_id.page_id() == 0 || key.record_id.page_id()
            > self.bpm.disk_manager.current_page_no_exec() {
            return Err(Error::InvalidInput("the record id names no page".to_string()));
        }
        let ghost pre2 = *self;
        let r = self.heaps[i].1.get_tuple(key.record_id, &mut self.bpm);
        proof {
            assert forall|x: int|
                0 <= x < self.heaps@.len() implies (#[trigger] self.heaps@[x]).1.wf(
                self.bpm,
            ) by {
                assert(self.heaps@[x].1.wf(pre2.bpm));
            }
        }
        r
    }

    /// Appends a tuple to a table; returns where it landed.
    pub fn insert(&mut self, table_name: &str, value: Tuple) -> (r: Result<RecordId, Error>)
        requires
            old(self).wf(),
        ensures
            final(self).wf(),
            !spec_has_table(old(self).heaps@, table_name@) ==> (r matches Err(e) && e
                is InvalidData),
            r matches Ok(rid) ==> {
                let page = final(self).bpm.pages@[final(self).bpm.spec_frame_of(rid.page_id)];
                &&& final(self).bpm.spec_resident(rid.page_id)
                &&& page.tuple_info@.len() > 0
                &&& rid.slot_id == page.tuple_info@.len() - 1
                &&& !page.tuple_info@[rid.slot_id as int].metadata.spec_is_deleted()
                &&& page.data@.subrange(
                    page.tuple_info@[rid.slot_id as int].offset as int,
                    page.tuple_info@[rid.slot_id as int].offset
                        + page.tuple_info@[rid.slot_id as int].size_bytes,
                ) == value@
            },
            r matches Ok(rid) ==> spec_slot_live(final(self).bpm, rid) && spec_tuple_at(
                final(self).bpm,
                rid,
            ) == value@,
            forall|r2: RecordId|
                spec_slot_deleted(old(self).bpm, r2) ==> spec_slot_deleted(final(self).bpm, r2),
            forall|r2: RecordId|
                spec_slot_live(old(self).bpm, r2) ==> spec_slot_live(final(self).bpm, r2)
                    && spec_tuple_at(final(self).bpm, r2) == spec_tuple_at(old(self).bpm, r2),
    {
        let i = match self.find(table_name) {
            Some(i) => i,
            Option::None => {
                return Err(Error::InvalidData("no table with this name exists".to_string()));
            },
        };
        let ghost pre = *self;
        let entry = &mut self.heaps[i];
        let r = entry.1.insert_tuple(value, &mut self.bpm);
        proof {
            assert forall|x: int|
                0 <= x < self.heaps@.len() implies (#[trigger] self.heaps@[x]).1.wf(
                self.bpm,
            ) by {
                if x != i as int {
                    assert(self.heaps@[x] == pre.heaps@[x]);
                    assert(pre.heaps@[x].1.wf(pre.bpm));
                }
            }
            assert forall|x: int, y: int|
                0 <= x < y < self.heaps@.len() implies (#[trigger] self.heaps@[x]).0@ != (
            #[trigger] self.heaps@[y]).0@ by {
                assert(self.heaps@[x].0 == pre.heaps@[x].0);
                assert(self.heaps@[y].0 == pre.heaps@[y].0);
            }
        }
        r
    }

    /// Every live tuple of a table, in storage order.
    pub fn scan(&mut self, table_name: &str) -> (r: Result<Vec<(RecordId, Tuple)>, Error>)
        requires
            old(self).wf(),
        ensures
            final(self).wf(),
            !spec_has_table(old(self).heaps@, table_name@) ==> (r matches Err(e) && e
                is InvalidData),
            r matches Ok(v) ==> (forall|x: int|
                0 <= x < v@.len() ==> spec_slot_live(final(self).bpm, (#[trigger] v@[x]).0)
                    && v@[x].1@ == spec_tuple_at(final(self).bpm, v@[x].0)),
            forall|r2: RecordId|
                spec_slot_deleted(old(self).bpm, r2) ==> spec_slot_deleted(final(self).bpm, r2),
    {
        let i = match self.find(table_name) {
            Some(i) => i,
            Option::None => {
                return Err(Error::InvalidData("no table with this name exists".to_string()));
            },
        };
        let ghost pre2 = *self;
        let r = self.heaps[i].1.scan(&mut self.bpm);
        proof {
            assert forall|x: int|
                0 <= x < self.heaps@.len() implies (#[trigger] self.heaps@[x]).1.wf(
                self.bpm,
            ) by {
                assert(self.heaps@[x].1.wf(pre2.bpm));
            }
        }
        r
    }

    /// Replaces the tuple a key names; a new payload of a different size
    /// moves the record.
    pub fn update(&mut self, key: Key<'_>, value: Tuple) -> (r: Result<(), Error>)
        requires
            old(self).wf(),
        ensures
            final(self).wf(),
            !spec_has_table(old(self).heaps@, key.table_name@) ==> (r matches Err(e) && e
                is InvalidData),
            forall|r2: RecordId|
                spec_slot_deleted(old(self).bpm, r2) ==> spec_slot_deleted(final(self).bpm, r2),
            r is Ok && spec_slot_live(old(self).bpm, *key.record_id) && spec_slots_of(
                old(self).bpm,
                key.record_id.page_id,
            )[key.record_id.slot_id as int].size_bytes != value@.len() ==> spec_slot_deleted(
                final(self).bpm,
                *key.record_id,
            ) && (exists|nr: RecordId|
                spec_slot_live(final(self).bpm, nr) && spec_tuple_at(final(self).bpm, nr)
                    == value@),
            r is Ok && spec_slot_live(old(self).bpm, *key.record_id) && spec_slots_of(
                old(self).bpm,
                key.record_id.page_id,
            )[key.record_id.slot_id as int].size_bytes == value@.len() ==> spec_slot_live(
                final(self).bpm,
                *key.record_id,
            ) && spec_tuple_at(final(self).bpm, *key.record_id) == value@,
    {
        let i = match self.find(key.table_name) {
            Some(i) => i,
            Option::None => {
                return Err(Error::InvalidData("no table with this name exists".to_string()));
            },
        };
        if key.record_id.page_id() == 0 || key.record_id.page_id()
            > self.bpm.disk_manager.current_page_no_exec() {
            return Err(Error::InvalidInput("the record id names no page".to_string()));
        }
        let ghost pre = *self;
        let entry = &mut self.heaps[i];
        let r = entry.1.update_tuple(key.record_id, value, &mut self.bpm);
        proof {
            assert forall|x: int|
                0 <= x < self.heaps@.len() implies (#[trigger] self.heaps@[x]).1.wf(
                self.bpm,
            ) by {
                if x != i as int {
                    assert(self.heaps@[x] == pre.heaps@[x]);
                    assert(pre.heaps@[x].1.wf(pre.bpm));
                }
            }
            assert forall|x: int, y: int|
                0 <= x < y < self.heaps@.len() implies (#[trigger] self.heaps@[x]).0@ != (
            #[trigger] self.heaps@[y]).0@ by {
                assert(self.heaps@[x].0 == pre.heaps@[x].0);
                assert(self.heaps@[y].0 == pre.heaps@[y].0);
            }
        }
        r
    }

    /// The engine's health summary.
    pub fn status(&mut self) -> (r: Result<Status, Error>)
        ensures
            r matches Ok(s) && s.keys == 0 && s.size == 0,
    {
        proof {
            reveal_strlit("heap");
        }
        Ok(Status { name: "heap".to_string(), keys: 0, size: 0 })
    }
}

} // verus!
