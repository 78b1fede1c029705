use rustc_hash::FxHashMap;
use vstd::prelude::*;

verus! {

/// The hasher of the record's table: `rustc_hash::FxBuildHasher`.
#[verifier::external_type_specification]
#[verifier::external_body]
pub struct ExFxBuildHasher(rustc_hash::FxBuildHasher);

/// What a table holds: the value under each name that has one.
pub uninterp spec fn table_entries(table: FxHashMap<String, i32>) -> Map<Seq<char>, i32>;

/// Calls `FxHashMap::default`, which makes a table that holds nothing.
#[verifier::external_body]
fn table_new() -> (table: FxHashMap<String, i32>)
    ensures
        forall|name: Seq<char>| !table_entries(table).contains_key(name),
{
    FxHashMap::default()
}

/// Calls `insert` of the table, which puts `value` under `name`, in place of
/// any value that stood there, and leaves every other name as it was.
#[verifier::external_body]
fn table_insert(table: &mut FxHashMap<String, i32>, name: String, value: i32)
    ensures
        table_entries(*final(table)) == table_entries(*old(table)).insert(name@, value),
{
    table.insert(name, value);
}

/// Calls `get` of the table, which hands out the value under `name` where
/// there is one.
#[verifier::external_body]
fn table_get(table: &FxHashMap<String, i32>, name: &str) -> (value: Option<i32>)
    ensures
        value == (if table_entries(*table).contains_key(name@) {
            Some(table_entries(*table)[name@])
        } else {
            None
        }),
{
    table.get(name).copied()
}

/// One record: a flat mapping from variable name to value.
#[derive(Debug)]
pub struct DataBlob {
    map: FxHashMap<String, i32>,
}

impl DataBlob {
    /// The record as a map from names to values.
    pub closed spec fn view(&self) -> Map<Seq<char>, i32> {
        table_entries(self.map)
    }

    /// The value recorded for `name`, if any.
    pub open spec fn lookup(&self, name: Seq<char>) -> Option<i32> {
        if self.view().contains_key(name) {
            Some(self.view()[name])
        } else {
            None
        }
    }

    /// A record without variables.
    pub fn new() -> (blob: Self)
        ensures
            forall|name: Seq<char>| blob.lookup(name) is None,
    {
        DataBlob { map: table_new() }
    }

    /// Records `value` for `variable`, in place of any earlier value.
    pub fn insert(&mut self, variable: &str, value: i32)
        ensures
            final(self).view() == old(self).view().insert(variable@, value),
            final(self).lookup(variable@) == Some(value),
            forall|name: Seq<char>|
                name != variable@ ==> final(self).lookup(name) == old(self).lookup(name),
    {
        table_insert(&mut self.map, variable.to_owned(), value);
    }

    /// Looks a variable up.
    pub fn find(&self, variable: &str) -> (found: Option<i32>)
        ensures
            found == self.lookup(variable@),
    {
        table_get(&self.map, variable)
    }
}

} // verus!
