//! The insertion-ordered maps that hold a document, and what is taken on
//! trust about them.
//!
//! Nothing here is proved. Each function below makes one call into
//! `indexmap` and states, over the entries of the map, what that call does.

use crate::model::{DocumentModel, SectionModel, position, upsert};
use indexmap::IndexMap;
use vstd::prelude::*;

verus! {

/// `indexmap::IndexMap`, carried as an opaque value.
#[verifier::external_type_specification]
#[verifier::external_body]
#[verifier::reject_recursive_types(K)]
#[verifier::reject_recursive_types(V)]
#[verifier::reject_recursive_types(S)]
pub struct ExIndexMap<K, V, S>(IndexMap<K, V, S>);

/// The key/value pairs that a section's map holds, in iteration order.
pub uninterp spec fn option_entries(m: IndexMap<String, String>) -> SectionModel;

/// The sections that a document's map holds, each with its pairs, in
/// iteration order.
pub uninterp spec fn section_entries(
    m: IndexMap<String, IndexMap<String, String>>,
) -> DocumentModel;

/// `IndexMap::new`: the new map holds nothing.
#[verifier::external_body]
pub(crate) fn options_new() -> (m: IndexMap<String, String>)
    ensures
        option_entries(m) == SectionModel::empty(),
{
    IndexMap::new()
}

/// `IndexMap::len`: the number of pairs held.
#[verifier::external_body]
pub(crate) fn options_len(m: &IndexMap<String, String>) -> (n: usize)
    ensures
        n == option_entries(*m).len(),
{
    m.len()
}

/// `IndexMap::get_index`: the pair at `index` in iteration order, and
/// nothing past the end.
#[verifier::external_body]
pub(crate) fn options_get_index(m: &IndexMap<String, String>, index: usize) -> (r: Option<
    (&String, &String),
>)
    ensures
        index < option_entries(*m).len() ==> {
            &&& r is Some
            &&& r.unwrap().0@ == option_entries(*m)[index as int].0
            &&& r.unwrap().1@ == option_entries(*m)[index as int].1
        },
        index >= option_entries(*m).len() ==> r is None,
{
    m.get_index(index)
}

/// `IndexMap::get`: the value stored under `key`, if the key is present.
#[verifier::external_body]
pub(crate) fn options_get<'a>(m: &'a IndexMap<String, String>, key: &str) -> (r: Option<
    &'a String,
>)
    ensures
        match position(option_entries(*m), key@) {
            Some(i) => r is Some && r.unwrap()@ == option_entries(*m)[i].1,
            None => r is None,
        },
{
    m.get(key)
}

/// `IndexMap::insert`: a key that is present keeps its place and gets the
/// new value; a new key goes last.
#[verifier::external_body]
pub(crate) fn options_insert(m: &mut IndexMap<String, String>, key: String, value: String)
    ensures
        option_entries(*final(m)) == upsert(option_entries(*old(m)), key@, value@),
{
    m.insert(key, value);
}

/// `IndexMap::clone`: the copy holds the same pairs in the same order.
#[verifier::external_body]
pub(crate) fn options_clone(m: &IndexMap<String, String>) -> (r: IndexMap<String, String>)
    ensures
        option_entries(r) == option_entries(*m),
{
    m.clone()
}

/// `IndexMap::new`: the new map holds nothing.
#[verifier::external_body]
pub(crate) fn sections_new() -> (m: IndexMap<String, IndexMap<String, String>>)
    ensures
        section_entries(m) == DocumentModel::empty(),
{
    IndexMap::new()
}

/// `IndexMap::len`: the number of sections held.
#[verifier::external_body]
pub(crate) fn sections_len(m: &IndexMap<String, IndexMap<String, String>>) -> (n: usize)
    ensures
        n == section_entries(*m).len(),
{
    m.len()
}

/// `IndexMap::get_index`: the section at `index` in iteration order, and
/// nothing past the end.
#[verifier::external_body]
pub(crate) fn sections_get_index(
    m: &IndexMap<String, IndexMap<String, String>>,
    index: usize,
) -> (r: Option<(&String, &IndexMap<String, String>)>)
    ensures
        index < section_entries(*m).len() ==> {
            &&& r is Some
            &&& r.unwrap().0@ == section_entries(*m)[index as int].0
            &&& option_entries(*r.unwrap().1) == section_entries(*m)[index as int].1
        },
        index >= section_entries(*m).len() ==> r is None,
{
    m.get_index(index)
}

/// `IndexMap::get`: the section stored under `key`, if the key is present.
#[verifier::external_body]
pub(crate) fn sections_get<'a>(
    m: &'a IndexMap<String, IndexMap<String, String>>,
    key: &str,
) -> (r: Option<&'a IndexMap<String, String>>)
    ensures
        match position(section_entries(*m), key@) {
            Some(i) => r is Some && option_entries(*r.unwrap()) == section_entries(*m)[i].1,
            None => r is None,
        },
{
    m.get(key)
}

/// `IndexMap::insert`: a section that is present keeps its place and gets
/// the new options; a new section goes last.
#[verifier::external_body]
pub(crate) fn sections_insert(
    m: &mut IndexMap<String, IndexMap<String, String>>,
    key: String,
    value: IndexMap<String, String>,
)
    ensures
        section_entries(*final(m)) == upsert(
            section_entries(*old(m)),
            key@,
            option_entries(value),
        ),
{
    m.insert(key, value);
}

/// `IndexMap::get_mut`: the section stored under `key`, if the key is
/// present, to be changed in place. The other sections, the names and the
/// order stay as they are.
#[verifier::external_body]
pub(crate) fn sections_get_mut<'a>(
    m: &'a mut IndexMap<String, IndexMap<String, String>>,
    key: &str,
) -> (r: Option<&'a mut IndexMap<String, String>>)
    ensures
        match position(section_entries(*old(m)), key@) {
            Some(i) => {
                &&& r is Some
                &&& option_entries(*r.unwrap()) == section_entries(*old(m))[i].1
                &&& section_entries(*final(m)) == section_entries(*old(m)).update(
                    i,
                    (section_entries(*old(m))[i].0, option_entries(*final(r.unwrap()))),
                )
            },
            None => r is None && section_entries(*final(m)) == section_entries(*old(m)),
        },
{
    m.get_mut(key)
}

/// `IndexMap::clone`: the copy holds the same sections in the same order.
#[verifier::external_body]
pub(crate) fn sections_clone(m: &IndexMap<String, IndexMap<String, String>>) -> (r: IndexMap<
    String,
    IndexMap<String, String>,
>)
    ensures
        section_entries(r) == section_entries(*m),
{
    m.clone()
}

} // verus!
