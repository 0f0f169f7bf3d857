//! The order of sections and keys: what is new goes last, and what is there
//! stays where it is.

use crate::grammar::{
    LineModel, ParseState, classify, ensure_section, run, set_in_section, step, strip_returns,
};
use crate::model::{
    DocumentModel, SectionModel, lemma_position, lemma_position_push, lemma_upsert_names,
    names, position,
};
use vstd::prelude::*;

verus! {

/// `after` holds every section of `before` at its place, and in each of
/// them every key of `before` at its place: what is new stands behind what
/// was there.
pub open spec fn keeps_order(before: DocumentModel, after: DocumentModel) -> bool {
    &&& names(before).is_prefix_of(names(after))
    &&& forall|i: int|
        0 <= i < before.len() ==> names(#[trigger] before[i].1).is_prefix_of(names(after[i].1))
}

/// Setting an option keeps the order of all that was there.
pub proof fn lemma_set_in_section_keeps_order(
    doc: DocumentModel,
    section: Seq<char>,
    key: Seq<char>,
    value: Seq<char>,
)
    ensures
        keeps_order(doc, set_in_section(doc, section, key, value)),
{
    lemma_position(doc, section);
    match position(doc, section) {
        Some(i) => {
            lemma_upsert_names(doc[i].1, key, value);
        },
        None => {},
    }
}

/// A section that was made sure of keeps the order of all that was there.
pub proof fn lemma_ensure_section_keeps_order(doc: DocumentModel, name: Seq<char>)
    ensures
        keeps_order(doc, ensure_section(doc, name)),
{
    let made = ensure_section(doc, name);
    assert forall|i: int| 0 <= i < doc.len() implies names(#[trigger] doc[i].1).is_prefix_of(
        names(made[i].1),
    ) by {
        assert(made[i] == doc[i]);
    }
}

/// A document keeps its own order.
pub proof fn lemma_keeps_order_same(doc: DocumentModel)
    ensures
        keeps_order(doc, doc),
{
}

/// Keeping the order twice is keeping it.
pub proof fn lemma_keeps_order_twice(a: DocumentModel, b: DocumentModel, c: DocumentModel)
    requires
        keeps_order(a, b),
        keeps_order(b, c),
    ensures
        keeps_order(a, c),
{
    assert forall|i: int| 0 <= i < a.len() implies names(#[trigger] a[i].1).is_prefix_of(
        names(c[i].1),
    ) by {
        assert(names(a[i].1).is_prefix_of(names(b[i].1)));
        assert(names(b[i].1).is_prefix_of(names(c[i].1)));
    }
}

/// One more line keeps the order of all that was read.
pub proof fn lemma_step_keeps_order(st: ParseState, line: Seq<char>)
    ensures
        step(st, line) matches Ok(next) ==> keeps_order(st.doc, next.doc),
{
    match classify(line, st.current is Some) {
        LineModel::Header { name } => {
            lemma_ensure_section_keeps_order(st.doc, name);
        },
        LineModel::Pair { key, value } => {
            let section = st.current.unwrap();
            let made = ensure_section(st.doc, section);
            lemma_ensure_section_keeps_order(st.doc, section);
            lemma_set_in_section_keeps_order(made, section, key, value);
            lemma_keeps_order_twice(
                st.doc,
                made,
                set_in_section(made, section, key, value),
            );
        },
        _ => {
            lemma_keeps_order_same(st.doc);
        },
    }
}

/// Further lines keep the order of all that was read.
pub proof fn lemma_run_keeps_order(st: ParseState, ls: Seq<Seq<char>>)
    ensures
        run(st, ls) matches Ok(end) ==> keeps_order(st.doc, end.doc),
    decreases ls.len(),
{
    if ls.len() > 0 {
        lemma_step_keeps_order(st, strip_returns(ls[0]));
        match step(st, strip_returns(ls[0])) {
            Ok(next) => {
                lemma_run_keeps_order(next, ls.drop_first());
                match run(next, ls.drop_first()) {
                    Ok(end) => {
                        lemma_keeps_order_twice(st.doc, next.doc, end.doc);
                    },
                    Err(_) => {},
                }
            },
            Err(_) => {},
        }
    } else {
        lemma_keeps_order_same(st.doc);
    }
}

/// The names with `name` noted: last, unless it is among them.
pub open spec fn noted(seen: Seq<Seq<char>>, name: Seq<char>) -> Seq<Seq<char>> {
    if seen.contains(name) {
        seen
    } else {
        seen.push(name)
    }
}

/// The names in `seen`, then those of `mentioned` that are new, each once,
/// in the order in which each first stands there.
pub open spec fn first_mentions(seen: Seq<Seq<char>>, mentioned: Seq<Seq<char>>) -> Seq<
    Seq<char>,
>
    decreases mentioned.len(),
{
    if mentioned.len() == 0 {
        seen
    } else {
        first_mentions(noted(seen, mentioned[0]), mentioned.drop_first())
    }
}

/// The names of the well-formed headers among the lines, in order.
pub open spec fn headers(ls: Seq<Seq<char>>) -> Seq<Seq<char>>
    decreases ls.len(),
{
    if ls.len() == 0 {
        Seq::empty()
    } else {
        match classify(strip_returns(ls[0]), false) {
            LineModel::Header { name } => seq![name] + headers(ls.drop_first()),
            _ => headers(ls.drop_first()),
        }
    }
}

/// The keys of the option lines among the lines that go to the section named
/// `section`, in order, where options first go to `current`.
pub open spec fn keys_set(
    ls: Seq<Seq<char>>,
    current: Option<Seq<char>>,
    section: Seq<char>,
) -> Seq<Seq<char>>
    decreases ls.len(),
{
    if ls.len() == 0 {
        Seq::empty()
    } else {
        match classify(strip_returns(ls[0]), current is Some) {
            LineModel::Header { name } => keys_set(ls.drop_first(), Some(name), section),
            LineModel::Pair { key, value } => if current == Some(section) {
                seq![key] + keys_set(ls.drop_first(), current, section)
            } else {
                keys_set(ls.drop_first(), current, section)
            },
            _ => keys_set(ls.drop_first(), current, section),
        }
    }
}

/// The keys of the section named `section`, in order; none where the
/// document has no such section.
pub open spec fn keys_of(doc: DocumentModel, section: Seq<char>) -> Seq<Seq<char>> {
    match position(doc, section) {
        Some(i) => names(doc[i].1),
        None => Seq::empty(),
    }
}

/// The section that options go to is in the document.
pub open spec fn current_present(st: ParseState) -> bool {
    st.current matches Some(name) ==> position(st.doc, name) is Some
}

/// A name is found exactly where it is among the names.
pub proof fn lemma_position_by_names<V>(entries: Seq<(Seq<char>, V)>, key: Seq<char>)
    ensures
        position(entries, key) is Some <==> names(entries).contains(key),
{
    lemma_position(entries, key);
    if position(entries, key) is Some {
        let i = position(entries, key).unwrap();
        assert(names(entries)[i] == key);
    }
    if names(entries).contains(key) {
        let i = choose|i: int| 0 <= i < names(entries).len() && names(entries)[i] == key;
        assert(entries[i].0 == key);
    }
}

/// Where a name is found depends on the names alone.
pub proof fn lemma_position_same_names<V, W>(
    a: Seq<(Seq<char>, V)>,
    b: Seq<(Seq<char>, W)>,
    key: Seq<char>,
)
    requires
        names(a) == names(b),
    ensures
        position(a, key) == position(b, key),
    decreases a.len(),
{
    assert(a.len() == names(a).len());
    assert(b.len() == names(b).len());
    if a.len() > 0 {
        assert(names(a.drop_last()) =~= names(a).drop_last());
        assert(names(b.drop_last()) =~= names(b).drop_last());
        assert(a.last().0 == names(a).last());
        assert(b.last().0 == names(b).last());
        lemma_position_same_names(a.drop_last(), b.drop_last(), key);
    }
}

/// A section that was made sure of is noted among the names.
pub proof fn lemma_ensure_section_names(doc: DocumentModel, name: Seq<char>)
    ensures
        names(ensure_section(doc, name)) == noted(names(doc), name),
        position(ensure_section(doc, name), name) is Some,
{
    lemma_position_by_names(doc, name);
    lemma_position_push(doc, name, SectionModel::empty());
    assert(names(ensure_section(doc, name)) =~= noted(names(doc), name));
}

/// An option that was set leaves the names of the sections as they are, and
/// its key noted among the keys of its section.
pub proof fn lemma_set_in_section_names(
    doc: DocumentModel,
    section: Seq<char>,
    key: Seq<char>,
    value: Seq<char>,
    other: Seq<char>,
)
    requires
        position(doc, section) is Some,
    ensures
        names(set_in_section(doc, section, key, value)) == names(doc),
        keys_of(set_in_section(doc, section, key, value), section) == noted(
            keys_of(doc, section),
            key,
        ),
        other != section ==> keys_of(set_in_section(doc, section, key, value), other) == keys_of(
            doc,
            other,
        ),
{
    let after = set_in_section(doc, section, key, value);
    let at = position(doc, section).unwrap();
    lemma_position(doc, section);
    assert(names(after) =~= names(doc));
    lemma_position_same_names(after, doc, section);
    lemma_position_same_names(after, doc, other);
    lemma_upsert_names(doc[at].1, key, value);
    lemma_position_by_names(doc[at].1, key);
    lemma_position(doc, other);
}

/// The names of the sections after further lines are those that were there
/// and then those of the headers, in order of first mention.
pub proof fn lemma_run_names(st: ParseState, ls: Seq<Seq<char>>)
    requires
        current_present(st),
    ensures
        run(st, ls) matches Ok(end) ==> names(end.doc) == first_mentions(
            names(st.doc),
            headers(ls),
        ),
    decreases ls.len(),
{
    if ls.len() > 0 {
        let line = strip_returns(ls[0]);
        let rest = ls.drop_first();
        match step(st, line) {
            Ok(next) => {
                match classify(line, st.current is Some) {
                    LineModel::Header { name } => {
                        lemma_ensure_section_names(st.doc, name);
                        assert((seq![name] + headers(rest)).drop_first() =~= headers(rest));
                    },
                    LineModel::Pair { key, value } => {
                        let section = st.current.unwrap();
                        lemma_set_in_section_names(st.doc, section, key, value, section);
                        lemma_position_same_names(next.doc, st.doc, section);
                    },
                    _ => {},
                }
                lemma_run_names(next, rest);
            },
            Err(_) => {},
        }
    }
}

/// What one more line does to the keys of a section: an option line that
/// goes to it has its key noted, and any other line leaves them as they are.
pub proof fn lemma_step_keys(st: ParseState, line: Seq<char>, section: Seq<char>)
    requires
        current_present(st),
    ensures
        step(st, line) matches Ok(next) ==> current_present(next) && keys_of(next.doc, section)
            == match classify(line, st.current is Some) {
            LineModel::Pair { key, value } => if st.current == Some(section) {
                noted(keys_of(st.doc, section), key)
            } else {
                keys_of(st.doc, section)
            },
            _ => keys_of(st.doc, section),
        },
{
    match classify(line, st.current is Some) {
        LineModel::Header { name } => {
            let made = ensure_section(st.doc, name);
            lemma_ensure_section_names(st.doc, name);
            if position(st.doc, name) is None {
                assert(made.drop_last() =~= st.doc);
                lemma_position(st.doc, section);
                if name == section {
                    assert(position(made, section) == Some(st.doc.len() as int));
                    assert(names(made[st.doc.len() as int].1) =~= Seq::<Seq<char>>::empty());
                } else {
                    assert(position(made, section) == position(st.doc, section));
                    if position(st.doc, section) is Some {
                        let i = position(st.doc, section).unwrap();
                        assert(made[i] == st.doc[i]);
                    }
                }
            }
        },
        LineModel::Pair { key, value } => {
            let current = st.current.unwrap();
            lemma_set_in_section_names(st.doc, current, key, value, section);
            lemma_position_same_names(set_in_section(st.doc, current, key, value), st.doc, current);
        },
        _ => {},
    }
}

/// The keys of a section after further lines are those that were there and
/// then those of the option lines that went to it, in order of first
/// mention.
pub proof fn lemma_run_keys(st: ParseState, ls: Seq<Seq<char>>, section: Seq<char>)
    requires
        current_present(st),
    ensures
        run(st, ls) matches Ok(end) ==> keys_of(end.doc, section) == first_mentions(
            keys_of(st.doc, section),
            keys_set(ls, st.current, section),
        ),
    decreases ls.len(),
{
    if ls.len() > 0 {
        let line = strip_returns(ls[0]);
        let rest = ls.drop_first();
        lemma_step_keys(st, line, section);
        match step(st, line) {
            Ok(next) => {
                lemma_run_keys(next, rest, section);
                match classify(line, st.current is Some) {
                    LineModel::Pair { key, value } => {
                        if st.current == Some(section) {
                            let later = keys_set(rest, st.current, section);
                            assert((seq![key] + later).drop_first() =~= later);
                            assert((seq![key] + later)[0] == key);
                        }
                    },
                    _ => {},
                }
            },
            Err(_) => {},
        }
    }
}

} // verus!
