//! What every document that was read from text looks like.

use crate::chars::{first_index, lemma_counted_once, lemma_first_index_is_first, no_char};
use crate::feeding::{lemma_strip_is_plain, plain};
use crate::grammar::{
    LineModel, ParseState, classify, edge_ok, ensure_section, header_name, header_ok,
    is_header, is_pair, lemma_ensure_section_valid, lemma_equals_inside, lemma_lines_unfold,
    lemma_set_in_section_valid, lines, pair_key, pair_value, parse, run, set_in_section, start,
    step, strip_returns,
};
use crate::model::{DocumentModel, SectionModel, lemma_position, position, upsert, valid_document};
use vstd::prelude::*;

verus! {

/// A name that a header can carry: one line, no bracket.
pub open spec fn name_ok(name: Seq<char>) -> bool {
    plain(name) && no_char(name, '[') && no_char(name, ']')
}

/// An option that an option line can carry: key and value are not empty,
/// fit on a line and hold no `=`; the key does not begin and the value does
/// not end with `=` or a space; and the two together do not look like a
/// header.
pub open spec fn option_ok(option: (Seq<char>, Seq<char>)) -> bool {
    let key = option.0;
    let value = option.1;
    &&& plain(key)
    &&& plain(value)
    &&& key.len() > 0
    &&& value.len() > 0
    &&& edge_ok(key[0])
    &&& edge_ok(value.last())
    &&& no_char(key, '=')
    &&& no_char(value, '=')
    &&& !(key[0] == '[' && value.last() == ']')
}

/// Every option of the section can be carried by an option line.
pub open spec fn options_ok(options: SectionModel) -> bool {
    forall|j: int| 0 <= j < options.len() ==> option_ok(#[trigger] options[j])
}

/// A document as text can describe it: valid, and every name and option fit
/// to be written.
pub open spec fn canonical(doc: DocumentModel) -> bool {
    &&& valid_document(doc)
    &&& forall|i: int|
        0 <= i < doc.len() ==> name_ok((#[trigger] doc[i]).0) && options_ok(doc[i].1)
}

/// A state between two lines of a text: what was read is canonical, and so
/// is the name of the section that options go to.
pub open spec fn canonical_state(st: ParseState) -> bool {
    &&& canonical(st.doc)
    &&& st.current matches Some(name) ==> name_ok(name)
}

/// No line has a line feed in it.
pub proof fn lemma_lines_have_no_feed(text: Seq<char>)
    ensures
        forall|i: int| 0 <= i < lines(text).len() ==> no_char(#[trigger] lines(text)[i], '\n'),
    decreases text.len(),
{
    if text.len() > 0 {
        lemma_lines_unfold(text);
        lemma_first_index_is_first(text, '\n');
        let n = first_index(text, '\n') as int;
        if n < text.len() {
            lemma_lines_have_no_feed(text.skip(n + 1));
        }
        assert forall|i: int| 0 <= i < lines(text).len() implies no_char(
            #[trigger] lines(text)[i],
            '\n',
        ) by {
            if i > 0 {
                assert(lines(text)[i] == lines(text).drop_first()[i - 1]);
            }
        }
    }
}

/// The name of a well-formed header can be carried by a header.
pub proof fn lemma_header_name_ok(line: Seq<char>)
    requires
        plain(line),
        is_header(line),
        header_ok(line),
    ensures
        name_ok(header_name(line)),
{
    let name = header_name(line);
    let last = line.len() - 1;
    assert(line.len() >= 2) by {
        if line.len() == 1 {
            assert(line[0] == line.last());
        }
    }
    assert forall|i: int| 0 <= i < name.len() implies name[i] != '[' && name[i] != ']'
        && name[i] != '\n' && name[i] != '\r' by {
        assert(name[i] == line[i + 1]);
        lemma_counted_once(line, '[', 0, i + 1);
        if line[i + 1] == ']' {
            lemma_counted_once(line, ']', i + 1, last);
        }
    }
}

/// Key and value of an option line can be carried by an option line.
pub proof fn lemma_pair_ok(line: Seq<char>)
    requires
        plain(line),
        is_pair(line),
        !is_header(line),
    ensures
        option_ok((pair_key(line), pair_value(line))),
{
    lemma_equals_inside(line);
    lemma_first_index_is_first(line, '=');
    let e = first_index(line, '=') as int;
    let key = pair_key(line);
    let value = pair_value(line);
    let shift = line.len() - value.len();
    assert(key[0] == line[0]);
    assert(value.last() == line.last());
    assert forall|i: int| 0 <= i < key.len() implies key[i] != '=' && key[i] != '\n' && key[i]
        != '\r' by {
        assert(key[i] == line[i]);
    }
    assert forall|i: int| 0 <= i < value.len() implies value[i] != '=' && value[i] != '\n'
        && value[i] != '\r' by {
        assert(value[i] == line[i + shift]);
        lemma_counted_once(line, '=', e, i + shift);
    }
}

/// A section that was made sure of leaves a canonical document canonical.
pub proof fn lemma_ensure_section_canonical(doc: DocumentModel, name: Seq<char>)
    requires
        canonical(doc),
        name_ok(name),
    ensures
        canonical(ensure_section(doc, name)),
{
    lemma_ensure_section_valid(doc, name);
}

/// An option that can be carried leaves a canonical document canonical.
pub proof fn lemma_set_in_section_canonical(
    doc: DocumentModel,
    section: Seq<char>,
    key: Seq<char>,
    value: Seq<char>,
)
    requires
        canonical(doc),
        option_ok((key, value)),
    ensures
        canonical(set_in_section(doc, section, key, value)),
{
    lemma_set_in_section_valid(doc, section, key, value);
    lemma_position(doc, section);
    match position(doc, section) {
        Some(i) => {
            let options = doc[i].1;
            lemma_position(options, key);
            assert(options_ok(upsert(options, key, value)));
        },
        None => {},
    }
}

/// One more line leaves a canonical state canonical.
pub proof fn lemma_step_canonical(st: ParseState, line: Seq<char>)
    requires
        canonical_state(st),
        plain(line),
    ensures
        step(st, line) matches Ok(next) ==> canonical_state(next),
{
    match classify(line, st.current is Some) {
        LineModel::Header { name } => {
            lemma_header_name_ok(line);
            lemma_ensure_section_canonical(st.doc, name);
        },
        LineModel::Pair { key, value } => {
            let section = st.current.unwrap();
            lemma_pair_ok(line);
            lemma_ensure_section_canonical(st.doc, section);
            lemma_set_in_section_canonical(ensure_section(st.doc, section), section, key, value);
        },
        _ => {},
    }
}

/// Reading lines leaves a canonical state canonical.
pub proof fn lemma_run_canonical(st: ParseState, ls: Seq<Seq<char>>)
    requires
        canonical_state(st),
        forall|i: int| 0 <= i < ls.len() ==> no_char(#[trigger] ls[i], '\n'),
    ensures
        run(st, ls) matches Ok(end) ==> canonical_state(end),
    decreases ls.len(),
{
    if ls.len() > 0 {
        lemma_strip_is_plain(ls[0]);
        lemma_step_canonical(st, strip_returns(ls[0]));
        match step(st, strip_returns(ls[0])) {
            Ok(next) => {
                let rest = ls.drop_first();
                assert forall|i: int| 0 <= i < rest.len() implies no_char(
                    #[trigger] rest[i],
                    '\n',
                ) by {
                    assert(rest[i] == ls[i + 1]);
                }
                lemma_run_canonical(next, rest);
            },
            Err(_) => {},
        }
    }
}

/// Every document that is read from a text is canonical.
pub proof fn lemma_parse_canonical(text: Seq<char>)
    ensures
        parse(text) matches Ok(doc) ==> canonical(doc),
{
    lemma_lines_have_no_feed(text);
    lemma_run_canonical(start(), lines(text));
}

} // verus!
