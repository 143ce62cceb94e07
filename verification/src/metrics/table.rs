//! A concurrent table from names to numbers.

use dashmap::DashMap;
use vstd::prelude::*;

verus! {

/// `dashmap`'s concurrent hash map.
#[verifier::external_type_specification]
#[verifier::external_body]
#[verifier::reject_recursive_types(K)]
#[verifier::reject_recursive_types(V)]
#[verifier::reject_recursive_types(S)]
pub struct ExDashMap<K, V, S>(DashMap<K, V, S>);

/// What a table holds. It changes only where the table is borrowed mutably.
pub uninterp spec fn contents(table: DashMap<String, u64>) -> Map<Seq<char>, u64>;

/// Whether `order` lists the names of a table, each once.
pub open spec fn lists(order: Seq<Seq<char>>, names: Set<Seq<char>>) -> bool {
    &&& order.no_duplicates()
    &&& forall|name: Seq<char>| #[trigger] order.contains(name) <==> names.contains(name)
}

/// The names of walked entries.
pub open spec fn walked_names(entries: Seq<(String, u64)>) -> Seq<Seq<char>> {
    Seq::new(entries.len(), |i: int| entries[i].0@)
}

/// `DashMap::new` makes an empty table.
#[verifier::external_body]
pub(crate) fn table_new() -> (table: DashMap<String, u64>)
    ensures
        contents(table).dom() == Set::<Seq<char>>::empty(),
{
    DashMap::new()
}

/// `DashMap::insert` gives a name a number, in place of the one it had.
#[verifier::external_body]
pub(crate) fn table_insert(table: &mut DashMap<String, u64>, name: String, number: u64)
    ensures
        contents(*final(table)) == contents(*old(table)).insert(name@, number),
{
    table.insert(name, number);
}

/// `DashMap::remove` forgets a name.
#[verifier::external_body]
pub(crate) fn table_remove(table: &mut DashMap<String, u64>, name: &str)
    ensures
        contents(*final(table)) == contents(*old(table)).remove(name@),
{
    table.remove(name);
}

/// `DashMap::get` finds a name's number.
#[verifier::external_body]
pub(crate) fn table_get(table: &DashMap<String, u64>, name: &str) -> (number: Option<u64>)
    ensures
        match number {
            Some(n) => contents(*table).contains_key(name@) && contents(*table)[name@] == n,
            None => !contents(*table).contains_key(name@),
        },
{
    table.get(name).map(|entry| *entry.value())
}

/// `DashMap::len` counts the names.
#[verifier::external_body]
pub(crate) fn table_len(table: &DashMap<String, u64>) -> (n: usize)
    ensures
        n == contents(*table).dom().len(),
{
    table.len()
}

/// `DashMap::iter` walks over every entry once; the order is not fixed.
#[verifier::external_body]
pub(crate) fn table_entries(table: &DashMap<String, u64>) -> (entries: Vec<(String, u64)>)
    ensures
        lists(walked_names(entries@), contents(*table).dom()),
        forall|i: int|
            0 <= i < entries.len() ==> contents(*table)[(#[trigger] entries@[i]).0@]
                == entries@[i].1,
{
    table.iter().map(|entry| (entry.key().clone(), *entry.value())).collect()
}

} // verus!
