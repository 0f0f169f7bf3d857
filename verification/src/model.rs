//! The mathematical model of a document: sequences of named entries, in
//! insertion order.

use vstd::prelude::*;

verus! {

/// A section's options: key and value, oldest first.
pub type SectionModel = Seq<(Seq<char>, Seq<char>)>;

/// A document: section name and options, oldest first.
pub type DocumentModel = Seq<(Seq<char>, SectionModel)>;

/// The index of the first entry named `key`, if there is one.
pub open spec fn position<V>(entries: Seq<(Seq<char>, V)>, key: Seq<char>) -> Option<int>
    decreases entries.len(),
{
    if entries.len() == 0 {
        None
    } else {
        match position(entries.drop_last(), key) {
            Some(i) => Some(i),
            None => if entries.last().0 == key {
                Some(entries.len() - 1)
            } else {
                None
            },
        }
    }
}

/// The entries after `key` has been given `value`: an entry that is there
/// keeps its place and its name, a new one goes last.
pub open spec fn upsert<V>(entries: Seq<(Seq<char>, V)>, key: Seq<char>, value: V) -> Seq<
    (Seq<char>, V),
> {
    match position(entries, key) {
        Some(i) => entries.update(i, (key, value)),
        None => entries.push((key, value)),
    }
}

/// The names of the entries, in order.
pub open spec fn names<V>(entries: Seq<(Seq<char>, V)>) -> Seq<Seq<char>> {
    Seq::new(entries.len(), |i: int| entries[i].0)
}

/// No two entries share a name.
pub open spec fn distinct_names<V>(entries: Seq<(Seq<char>, V)>) -> bool {
    forall|i: int, j: int|
        0 <= i < j < entries.len() ==> (#[trigger] entries[i]).0 != (#[trigger] entries[j]).0
}

/// A document in which no two sections share a name, nor two options of one
/// section a key.
pub open spec fn valid_document(doc: DocumentModel) -> bool {
    &&& distinct_names(doc)
    &&& forall|i: int| 0 <= i < doc.len() ==> distinct_names((#[trigger] doc[i]).1)
}

/// `position` finds the first entry of that name, and none only where no
/// entry has it.
pub proof fn lemma_position<V>(entries: Seq<(Seq<char>, V)>, key: Seq<char>)
    ensures
        match position(entries, key) {
            Some(i) => {
                &&& 0 <= i < entries.len()
                &&& entries[i].0 == key
                &&& forall|j: int| 0 <= j < i ==> (#[trigger] entries[j]).0 != key
            },
            None => forall|j: int| 0 <= j < entries.len() ==> (#[trigger] entries[j]).0 != key,
        },
    decreases entries.len(),
{
    if entries.len() > 0 {
        let front = entries.drop_last();
        lemma_position(front, key);
        assert forall|j: int| 0 <= j < front.len() implies front[j] == entries[j] by {}
        match position(front, key) {
            Some(i) => {
                assert(front[i] == entries[i]);
                assert forall|j: int| 0 <= j < i implies (#[trigger] entries[j]).0 != key by {
                    assert(front[j] == entries[j]);
                }
            },
            None => {
                assert forall|j: int| 0 <= j < front.len() implies (#[trigger] entries[j]).0
                    != key by {
                    assert(front[j] == entries[j]);
                }
            },
        }
    }
}

/// Where names are distinct, an entry is found at its own index.
pub proof fn lemma_position_of_entry<V>(entries: Seq<(Seq<char>, V)>, i: int)
    requires
        distinct_names(entries),
        0 <= i < entries.len(),
    ensures
        position(entries, entries[i].0) == Some(i),
{
    lemma_position(entries, entries[i].0);
}

/// A name that no entry has is found after it was appended, at the end.
pub proof fn lemma_position_push<V>(entries: Seq<(Seq<char>, V)>, key: Seq<char>, value: V)
    ensures
        position(entries.push((key, value)), key) == match position(entries, key) {
            Some(i) => Some(i),
            None => Some(entries.len() as int),
        },
{
    assert(entries.push((key, value)).drop_last() =~= entries);
}

/// `upsert` keeps the names of the entries in their order, and appends the
/// name where it is new.
pub proof fn lemma_upsert_names<V>(entries: Seq<(Seq<char>, V)>, key: Seq<char>, value: V)
    ensures
        names(upsert(entries, key, value)) == if position(entries, key) is Some {
            names(entries)
        } else {
            names(entries).push(key)
        },
{
    lemma_position(entries, key);
    assert(names(upsert(entries, key, value)) =~= if position(entries, key) is Some {
        names(entries)
    } else {
        names(entries).push(key)
    });
}

/// `upsert` keeps names distinct, and the key then has the value.
pub proof fn lemma_upsert_distinct<V>(entries: Seq<(Seq<char>, V)>, key: Seq<char>, value: V)
    requires
        distinct_names(entries),
    ensures
        distinct_names(upsert(entries, key, value)),
{
    lemma_position(entries, key);
}

} // verus!
