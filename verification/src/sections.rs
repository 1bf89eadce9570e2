//! The mapping from section name to record, together with its names in the order in which
//! they first came in.

use vstd::hash_map::StringHashMap;
use vstd::prelude::*;

verus! {

/// The records by name, and beside them the names in a list.
#[verifier::reject_recursive_types(RowType)]
struct Listing<RowType> {
    records: StringHashMap<RowType>,
    names: Vec<String>,
}

/// A map from section name to record that can also list its names.
#[verifier::reject_recursive_types(RowType)]
pub struct SectionMap<RowType> {
    listing: Listing<RowType>,
}

impl<RowType> View for SectionMap<RowType> {
    type V = Map<Seq<char>, RowType>;

    closed spec fn view(&self) -> Map<Seq<char>, RowType> {
        self.listing.records@
    }
}

impl<RowType> SectionMap<RowType> {
    /// The names, each once, in the order in which they were first inserted.
    pub closed spec fn names(&self) -> Seq<Seq<char>> {
        self.listing.names.deep_view()
    }

    /// The list of names holds every name of the map, and none twice.
    #[verifier::type_invariant]
    spec fn names_listed(&self) -> bool {
        &&& self.names().no_duplicates()
        &&& self.names().to_set() == self@.dom()
    }

    /// The empty map.
    pub fn new() -> (sections: Self)
        ensures
            sections@ == Map::<Seq<char>, RowType>::empty(),
            sections.names() == Seq::<Seq<char>>::empty(),
    {
        let listing = Listing { records: StringHashMap::new(), names: Vec::new() };
        assert(listing.names.deep_view() =~= Seq::<Seq<char>>::empty());
        assert(listing.names.deep_view().to_set() =~= listing.records@.dom());
        SectionMap { listing }
    }

    /// Puts `record` under `name`, in place of the record that was there, if any.
    pub fn insert(&mut self, name: String, record: RowType)
        ensures
            final(self)@ == old(self)@.insert(name@, record),
            final(self).names() == if old(self)@.contains_key(name@) {
                old(self).names()
            } else {
                old(self).names().push(name@)
            },
    {
        proof {
            use_type_invariant(&*self);
        }
        let ghost before = self.names();
        let mut listing = Listing { records: StringHashMap::new(), names: Vec::new() };
        proof {
            assert(listing.names.deep_view() =~= Seq::<Seq<char>>::empty());
            assert(listing.names.deep_view().to_set() =~= listing.records@.dom());
        }
        std::mem::swap(&mut listing, &mut self.listing);
        if !listing.records.contains_key(name.as_str()) {
            assert(!before.contains(name@)) by {
                assert(before.to_set().contains(name@) == before.contains(name@));
            }
            listing.names.push(name.clone());
            let ghost after = listing.names.deep_view();
            assert(after =~= before.push(name@));
            assert(after.to_set() =~= before.to_set().insert(name@)) by {
                assert forall|other: Seq<char>|
                    after.to_set().contains(other) == before.to_set().insert(name@).contains(
                        other,
                    ) by {
                    if before.contains(other) {
                        let at = choose|at: int| 0 <= at < before.len() && before[at] == other;
                        assert(after[at] == other);
                    }
                    if other == name@ {
                        assert(after[before.len() as int] == other);
                    }
                }
            }
        } else {
            assert(before.to_set().contains(name@));
            assert(before.to_set().insert(name@) =~= before.to_set());
        }
        listing.records.insert(name, record);
        self.listing = listing;
    }

    /// The record under `name`.
    pub fn get(&self, name: &str) -> (record: Option<&RowType>)
        ensures
            match record {
                Some(r) => self@.contains_key(name@) && *r == self@[name@],
                None => !self@.contains_key(name@),
            },
    {
        self.listing.records.get(name)
    }

    /// Whether there is a record under `name`.
    pub fn contains_key(&self, name: &str) -> (found: bool)
        ensures
            found == self@.contains_key(name@),
    {
        self.listing.records.contains_key(name)
    }

    /// The number of records.
    pub fn len(&self) -> (count: usize)
        ensures
            count == self@.len(),
    {
        self.listing.records.len()
    }

    /// Whether there is no record.
    pub fn is_empty(&self) -> (none: bool)
        ensures
            none == self@.is_empty(),
    {
        self.listing.records.is_empty()
    }

    /// The names of the map, each once, in the order in which they were first inserted.
    pub fn section_names(&self) -> (names: &Vec<String>)
        ensures
            names.deep_view() == self.names(),
            names.deep_view().no_duplicates(),
            names.deep_view().to_set() == self@.dom(),
    {
        proof {
            use_type_invariant(self);
        }
        &self.listing.names
    }
}

} // verus!
