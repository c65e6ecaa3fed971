use vstd::prelude::*;

verus! {

/// A serialized row: an opaque byte buffer. It carries no schema, so
/// reading it back as a row needs the schema it was written with.
#[derive(Debug)]
pub struct Tuple {
    pub data: Vec<u8>,
}

impl View for Tuple {
    type V = Seq<u8>;

    open spec fn view(&self) -> Seq<u8> {
        self.data@
    }
}

impl PartialEq for Tuple {
    fn eq(&self, other: &Tuple) -> (r: bool) {
        let r = self.data == other.data;
        proof {
            if r {
                assert(self.data@ =~= other.data@);
            }
        }
        r
    }
}

impl Eq for Tuple {

}

impl Clone for Tuple {
    fn clone(&self) -> (r: Tuple)
        ensures
            r@ == self@,
    {
        let data = self.data.clone();
        proof {
            assert forall|i: int| 0 <= i < self.data@.len() implies data@[i] == self.data@[i] by {
                assert(vstd::pervasive::cloned::<u8>(self.data@[i], data@[i]));
            }
            assert(data@ =~= self.data@);
        }
        Tuple { data }
    }
}

impl vstd::std_specs::cmp::PartialEqSpecImpl for Tuple {
    open spec fn obeys_eq_spec() -> bool {
        true
    }

    open spec fn eq_spec(&self, other: &Tuple) -> bool {
        self@ == other@
    }
}

impl From<Vec<u8>> for Tuple {
    fn from(data: Vec<u8>) -> (r: Tuple) {
        Tuple { data }
    }
}

impl vstd::std_specs::convert::FromSpecImpl<Vec<u8>> for Tuple {
    open spec fn obeys_from_spec() -> bool {
        true
    }

    open spec fn from_spec(data: Vec<u8>) -> Tuple {
        Tuple { data }
    }
}

impl<'a> From<&'a [u8]> for Tuple {
    fn from(v: &'a [u8]) -> (r: Tuple)
        ensures
            r@ == v@,
    {
        Tuple { data: vstd::slice::slice_to_vec(v) }
    }
}

impl<'a> vstd::std_specs::convert::FromSpecImpl<&'a [u8]> for Tuple {
    open spec fn obeys_from_spec() -> bool {
        false
    }

    open spec fn from_spec(v: &'a [u8]) -> Tuple {
        arbitrary()
    }
}

/// Bookkeeping stored beside each slot of a page.
#[derive(PartialEq, Eq, Clone, Debug, Copy, Structural)]
pub struct TupleMetadata {
    pub is_deleted: bool,
}

impl TupleMetadata {
    /// Whether the slot is a tombstone, for use in contracts.
    pub open spec fn spec_is_deleted(&self) -> bool {
        self.is_deleted
    }

    /// Metadata with the given tombstone flag.
    pub fn new(is_deleted: bool) -> (r: TupleMetadata)
        ensures
            r.spec_is_deleted() == is_deleted,
    {
        TupleMetadata { is_deleted }
    }

    /// Metadata of a tombstoned slot.
    pub fn deleted_payload_metadata() -> (r: TupleMetadata)
        ensures
            r.spec_is_deleted(),
    {
        TupleMetadata::new(true)
    }

    /// Sets the tombstone flag.
    pub fn set_deleted(&mut self, d: bool)
        ensures
            final(self).spec_is_deleted() == d,
    {
        self.is_deleted = d;
    }

    /// Whether the slot is a tombstone.
    pub fn is_deleted(&self) -> (r: bool)
        ensures
            r == self.spec_is_deleted(),
    {
        self.is_deleted
    }

    /// A short description of the metadata.
    pub fn to_string(&self) -> (r: String)
        ensures
            self.spec_is_deleted() ==> r@ == "Deleted: true)"@,
            !self.spec_is_deleted() ==> r@ == "Deleted: false)"@,
    {
        proof {
            reveal_strlit("Deleted: true)");
            reveal_strlit("Deleted: false)");
        }
        if self.is_deleted {
            "Deleted: true)".to_string()
        } else {
            "Deleted: false)".to_string()
        }
    }
}

} // verus!
