use vstd::prelude::*;

use crate::buffer::{spec_slot_deleted, spec_slot_live, spec_slots_of, spec_tuple_at};

use crate::errors::Error;
use crate::record_id::RecordId;
use crate::schema::Table;
use crate::tables::{HeapTableManager, Key};
use crate::tuple::Tuple;

verus! {

/// A serial transactional surface over a storage engine. One transaction
/// runs at a time and owns the engine for its lifetime.
pub struct Simple {
    pub engine: HeapTableManager,
}

impl Simple {
    /// A transactional wrapper over the given engine.
    pub fn new(engine: HeapTableManager) -> (r: Simple)
        requires
            engine.wf(),
        ensures
            r.engine.wf(),
    {
        Simple { engine }
    }

    /// Begins the one serial read-write transaction.
    pub fn begin(self) -> (r: Result<Transaction, Error>)
        requires
            self.engine.wf(),
        ensures
            r matches Ok(t) && t.engine.wf(),
    {
        Ok(Transaction { engine: self.engine })
    }
}

/// The serial transaction: every read and write goes straight to the
/// engine, and writes are visible to later reads at once.
pub struct Transaction {
    pub engine: HeapTableManager,
}

impl Transaction {
    /// A transaction over the given engine.
    pub fn begin(engine: HeapTableManager) -> (r: Result<Transaction, Error>)
        requires
            engine.wf(),
        ensures
            r matches Ok(t) && t.engine.wf(),
    {
        Ok(Transaction { engine })
    }

    /// Creates a table.
    pub fn create_table(&mut self, table: Table) -> (r: Result<(), Error>)
        requires
            old(self).engine.wf(),
        ensures
            final(self).engine.wf(),
            crate::tables::spec_has_table(old(self).engine.heaps@, table.name@) ==> (r matches Err(
                e,
            ) && e is InvalidInput),
            r is Ok ==> crate::tables::spec_has_table(final(self).engine.heaps@, table.name@),
    {
        self.engine.create_table(table)
    }

    /// Drops a table; reports whether it existed.
    pub fn delete_table(&mut self, table_name: &str) -> (r: Result<bool, Error>)
        requires
            old(self).engine.wf(),
        ensures
            final(self).engine.wf(),
            r matches Ok(existed) && existed == crate::tables::spec_has_table(
                old(self).engine.heaps@,
                table_name@,
            ),
    {
        self.engine.delete_table(table_name)
    }

    /// Drops a table, erring when it does not exist unless told otherwise.
    pub fn drop_table(&mut self, table_name: &str, if_exists: bool) -> (r: Result<bool, Error>)
        requires
            old(self).engine.wf(),
        ensures
            final(self).engine.wf(),
            r matches Ok(existed) ==> existed == crate::tables::spec_has_table(
                old(self).engine.heaps@,
                table_name@,
            ),
            r is Err <==> !crate::tables::spec_has_table(old(self).engine.heaps@, table_name@)
                && !if_exists,
    {
        let existed = match self.engine.delete_table(table_name) {
            Ok(b) => b,
            Err(e) => {
                return Err(e);
            },
        };
        if !existed && !if_exists {
            return Err(Error::NotFound);
        }
        Ok(existed)
    }

    /// The schema of a table, if it exists.
    pub fn fetch_table(&mut self, table_name: &str) -> (r: Result<Option<Table>, Error>)
        requires
            old(self).engine.wf(),
        ensures
            final(self).engine.wf(),
            r matches Ok(t) && (t is Some <==> crate::tables::spec_has_table(
                old(self).engine.heaps@,
                table_name@,
            )),
    {
        self.engine.get_table(table_name)
    }

    /// The schema of a table, if it exists.
    pub fn get_table(&mut self, table_name: &str) -> (r: Result<Option<Table>, Error>)
        requires
            old(self).engine.wf(),
        ensures
            final(self).engine.wf(),
            r matches Ok(t) && (t is Some <==> crate::tables::spec_has_table(
                old(self).engine.heaps@,
                table_name@,
            )),
    {
        self.engine.get_table(table_name)
    }

    /// Tombstones the record a key names.
    pub fn delete(&mut self, key: Key<'_>) -> (r: Result<(), Error>)
        requires
            old(self).engine.wf(),
        ensures
            final(self).engine.wf(),
            !crate::tables::spec_has_table(old(self).engine.heaps@, key.table_name@) ==> (r
                matches Err(e) && e is InvalidData),
            r is Ok ==> {
                let bpm = final(self).engine.bpm;
                let page = bpm.pages@[bpm.spec_frame_of(key.record_id.page_id)];
                &&& bpm.spec_resident(key.record_id.page_id)
                &&& key.record_id.slot_id < page.tuple_info@.len()
                &&& page.tuple_info@[key.record_id.slot_id as int].metadata.spec_is_deleted()
            },
            r is Ok ==> spec_slot_deleted(final(self).engine.bpm, *key.record_id),
            forall|r2: crate::record_id::RecordId|
                spec_slot_deleted(old(self).engine.bpm, r2) ==> spec_slot_deleted(
                    final(self).engine.bpm,
                    r2,
                ),
    {
        self.engine.delete(key)
    }

    /// Reads the tuple a key names.
    pub fn get(&mut self, key: Key<'_>) -> (r: Result<Tuple, Error>)
        requires
            old(self).engine.wf(),
        ensures
            final(self).engine.wf(),
            !crate::tables::spec_has_table(old(self).engine.heaps@, key.table_name@) ==> (r
                matches Err(e) && e is InvalidData),
            r matches Ok(t) ==> {
                let bpm = final(self).engine.bpm;
                let page = bpm.pages@[bpm.spec_frame_of(key.record_id.page_id)];
                &&& bpm.spec_resident(key.record_id.page_id)
                &&& key.record_id.slot_id < page.tuple_info@.len()
                &&& !page.tuple_info@[key.record_id.slot_id as int].metadata.spec_is_deleted()
                &&& t@ == page.data@.subrange(
                    page.tuple_info@[key.record_id.slot_id as int].offset as int,
                    page.tuple_info@[key.record_id.slot_id as int].offset
                        + page.tuple_info@[key.record_id.slot_id as int].size_bytes,
                )
            },
            r matches Ok(t) ==> spec_slot_live(old(self).engine.bpm, *key.record_id) && t@
                == spec_tuple_at(old(self).engine.bpm, *key.record_id),
            forall|r2: crate::record_id::RecordId|
                spec_slot_live(old(self).engine.bpm, r2) ==> spec_slot_live(
                    final(self).engine.bpm,
                    r2,
                ) && spec_tuple_at(final(self).engine.bpm, r2) == spec_tuple_at(
                    old(self).engine.bpm,
                    r2,
                ),
    {
        self.engine.get(key)
    }

    /// Appends a tuple to a table; returns where it landed.
    pub fn insert(&mut self, table_name: &str, value: Tuple) -> (r: Result<RecordId, Error>)
        requires
            old(self).engine.wf(),
        ensures
            final(self).engine.wf(),
            !crate::tables::spec_has_table(old(self).engine.heaps@, table_name@) ==> (r
                matches Err(e) && e is InvalidData),
            r matches Ok(rid) ==> {
                let bpm = final(self).engine.bpm;
                let page = bpm.pages@[bpm.spec_frame_of(rid.page_id)];
                &&& bpm.spec_resident(rid.page_id)
                &&& page.tuple_info@.len() > 0
                &&& rid.slot_id == page.tuple_info@.len() - 1
                &&& !page.tuple_info@[rid.slot_id as int].metadata.spec_is_deleted()
                &&& page.data@.subrange(
                    page.tuple_info@[rid.slot_id as int].offset as int,
                    page.tuple_info@[rid.slot_id as int].offset
                        + page.tuple_info@[rid.slot_id as int].size_bytes,
                ) == value@
            },
            r matches Ok(rid) ==> spec_slot_live(final(self).engine.bpm, rid) && spec_tuple_at(
                final(self).engine.bpm,
                rid,
            ) == value@,
            forall|r2: crate::record_id::RecordId|
                spec_slot_deleted(old(self).engine.bpm, r2) ==> spec_slot_deleted(
                    final(self).engine.bpm,
                    r2,
                ),
            forall|r2: crate::record_id::RecordId|
                spec_slot_live(old(self).engine.bpm, r2) ==> spec_slot_live(
                    final(self).engine.bpm,
                    r2,
                ) && spec_tuple_at(final(self).engine.bpm, r2) == spec_tuple_at(
                    old(self).engine.bpm,
                    r2,
                ),
    {
        self.engine.insert(table_name, value)
    }

    /// Replaces the tuple a key names.
    pub fn update(&mut self, key: Key<'_>, value: Tuple) -> (r: Result<(), Error>)
        requires
            old(self).engine.wf(),
        ensures
            final(self).engine.wf(),
            !crate::tables::spec_has_table(old(self).engine.heaps@, key.table_name@) ==> (r
                matches Err(e) && e is InvalidData),
            forall|r2: crate::record_id::RecordId|
                spec_slot_deleted(old(self).engine.bpm, r2) ==> spec_slot_deleted(
                    final(self).engine.bpm,
                    r2,
                ),
            r is Ok && spec_slot_live(old(self).engine.bpm, *key.record_id) && spec_slots_of(
                old(self).engine.bpm,
                key.record_id.page_id,
            )[key.record_id.slot_id as int].size_bytes != value@.len() ==> spec_slot_deleted(
                final(self).engine.bpm,
                *key.record_id,
            ) && (exists|nr: crate::record_id::RecordId|
                spec_slot_live(final(self).engine.bpm, nr) && spec_tuple_at(
                    final(self).engine.bpm,
                    nr,
                ) == value@),
            r is Ok && spec_slot_live(old(self).engine.bpm, *key.record_id) && spec_slots_of(
                old(self).engine.bpm,
                key.record_id.page_id,
            )[key.record_id.slot_id as int].size_bytes == value@.len() ==> spec_slot_live(
                final(self).engine.bpm,
                *key.record_id,
            ) && spec_tuple_at(final(self).engine.bpm, *key.record_id) == value@,
    {
        self.engine.update(key, value)
    }

    /// A restartable cursor over a table's live tuples.
    pub fn scan(&mut self, table: &str) -> (r: Result<ScanIterator, Error>)
        requires
            old(self).engine.wf(),
        ensures
            final(self).engine.wf(),
            r matches Ok(it) ==> it.i == 0,
    {
        let buffer = match self.engine.scan(table) {
            Ok(v) => v,
            Err(e) => {
                return Err(e);
            },
        };
        Ok(ScanIterator { buffer, i: 0 })
    }
}

/// A cursor over a table's tuples. A clone shares the buffered rows and
/// carries its own position, so a scan can be rewound by cloning a cursor
/// taken at the start.
#[derive(Debug)]
pub struct ScanIterator {
    /// The buffered rows of the scan.
    pub buffer: Vec<(RecordId, Tuple)>,
    /// The position of the next tuple to hand out.
    pub i: usize,
}

impl Clone for ScanIterator {
    fn clone(&self) -> (r: ScanIterator)
        ensures
            r.buffer@.len() == self.buffer@.len(),
            (forall|j: int|
                0 <= j < self.buffer@.len() ==> (#[trigger] r.buffer@[j]).0 == self.buffer@[j].0
                    && r.buffer@[j].1@ == self.buffer@[j].1@),
            r.i == self.i,
    {
        let n = self.buffer.len();
        let mut buffer: Vec<(RecordId, Tuple)> = Vec::new();
        let mut j: usize = 0;
        while j < n
            invariant
                n == self.buffer@.len(),
                j <= n,
                buffer@.len() == j,
                forall|x: int|
                    0 <= x < j ==> (#[trigger] buffer@[x]).0 == self.buffer@[x].0
                        && buffer@[x].1@ == self.buffer@[x].1@,
            decreases n - j,
        {
            let rid = self.buffer[j].0;
            let payload = self.buffer[j].1.clone();
            buffer.push((rid, payload));
            j = j + 1;
        }
        ScanIterator { buffer, i: self.i }
    }
}

impl ScanIterator {
    /// The next buffered tuple, advancing the cursor.
    pub fn next(&mut self) -> (r: Option<(RecordId, Tuple)>)
        ensures
            final(self).buffer == old(self).buffer,
            r is Some <==> old(self).i < old(self).buffer@.len(),
            r matches Some(item) ==> (item.0 == old(self).buffer@[old(self).i as int].0
                && item.1@ == old(self).buffer@[old(self).i as int].1@
                && final(self).i == old(self).i + 1),
            r is None ==> final(self).i == old(self).i,
    {
        if self.i < self.buffer.len() {
            let rid = self.buffer[self.i].0;
            let payload = self.buffer[self.i].1.clone();
            self.i = self.i + 1;
            Some((rid, payload))
        } else {
            Option::None
        }
    }
}

} // verus!
