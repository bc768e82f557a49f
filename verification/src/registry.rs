//! The registry of described types, by which a field's named type is resolved.

use vstd::prelude::*;
use crate::schema::{Schema, SchemaModel};
use crate::text::same_text;

verus! {

/// The described types, each under its name. It is filled first and read afterwards.
#[derive(Clone, Debug)]
pub struct Registry {
    entries: Vec<Schema>,
}

/// The map that a list of registrations makes: a later schema replaces an earlier one of
/// the same name.
pub open spec fn registered(list: Seq<SchemaModel>) -> Map<Seq<char>, SchemaModel>
    decreases list.len(),
{
    if list.len() == 0 {
        Map::empty()
    } else {
        registered(list.drop_last()).insert(list.last().name(), list.last())
    }
}

impl View for Registry {
    type V = Map<Seq<char>, SchemaModel>;

    closed spec fn view(&self) -> Map<Seq<char>, SchemaModel> {
        registered(self.entries@.map_values(|s: Schema| s@))
    }
}

impl Registry {
    /// The registry that holds nothing.
    pub fn new() -> (r: Registry)
        ensures
            r@ == Map::<Seq<char>, SchemaModel>::empty(),
    {
        Registry { entries: Vec::new() }
    }

    /// Registers `schema` under its name, in place of what was registered under it.
    pub fn register(&mut self, schema: Schema)
        ensures
            final(self)@ == old(self)@.insert(schema@.name(), schema@),
    {
        let ghost before = self.entries@.map_values(|s: Schema| s@);
        self.entries.push(schema);
        assert(self.entries@.map_values(|s: Schema| s@).drop_last() == before);
    }

    /// The schema registered under `id`, if there is one.
    pub fn get(&self, id: &str) -> (r: Option<&Schema>)
        ensures
            r matches Some(s) ==> self@.contains_key(id@) && self@[id@] == s@,
            r is None ==> !self@.contains_key(id@),
    {
        let ghost list = self.entries@.map_values(|s: Schema| s@);
        let mut found: Option<&Schema> = None;
        let mut i: usize = 0;
        while i < self.entries.len()
            invariant
                i <= self.entries.len(),
                list == self.entries@.map_values(|s: Schema| s@),
                found matches Some(s) ==> registered(list.take(i as int)).contains_key(id@)
                    && registered(list.take(i as int))[id@] == s@,
                found is None ==> !registered(list.take(i as int)).contains_key(id@),
            decreases self.entries.len() - i,
        {
            assert(list.take(i + 1).drop_last() == list.take(i as int));
            if same_text(self.entries[i].name().as_str(), id) {
                found = Some(&self.entries[i]);
            }
            i = i + 1;
        }
        assert(list.take(self.entries.len() as int) == list);
        found
    }

    /// Whether a schema is registered under `id`.
    pub fn contains(&self, id: &str) -> (r: bool)
        ensures
            r == self@.contains_key(id@),
    {
        self.get(id).is_some()
    }
}
} // verus!
