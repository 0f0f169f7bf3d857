//! The grammar of the text, line by line, and the canonical text of a
//! document.

use crate::chars::{count, first_index, lemma_counted_is_found, lemma_first_index_is_first};
use crate::error::IniErrorModel;
use crate::model::{
    DocumentModel, SectionModel, lemma_position, lemma_position_push, lemma_upsert_distinct,
    position, upsert, valid_document,
};
use vstd::prelude::*;

verus! {

/// The lines of `text`: the stretches between line feeds. A line feed at the
/// very end starts no further line.
pub open spec fn lines(text: Seq<char>) -> Seq<Seq<char>>
    decreases text.len(),
{
    if text.len() == 0 {
        Seq::empty()
    } else {
        let n = first_index(text, '\n') as int;
        if n >= text.len() {
            seq![text]
        } else {
            seq![text.take(n)] + lines(text.skip(n + 1))
        }
    }
}

/// The line without its carriage returns.
pub open spec fn strip_returns(line: Seq<char>) -> Seq<char> {
    line.filter(|c: char| c != '\r')
}

/// A line in brackets: it opens with `[` and closes with `]`.
pub open spec fn is_header(line: Seq<char>) -> bool {
    line.len() > 0 && line[0] == '[' && line.last() == ']'
}

/// A well-formed header has one `[` and one `]`.
pub open spec fn header_ok(line: Seq<char>) -> bool {
    count(line, '[') == 1 && count(line, ']') == 1
}

/// What stands between the brackets of a header.
pub open spec fn header_name(line: Seq<char>) -> Seq<char> {
    line.subrange(1, line.len() - 1)
}

/// A character with which an option line may begin and end.
pub open spec fn edge_ok(c: char) -> bool {
    c != '=' && c != ' '
}

/// An option line: one `=`, and neither `=` nor a space at either end.
pub open spec fn is_pair(line: Seq<char>) -> bool {
    line.len() > 0 && count(line, '=') == 1 && edge_ok(line[0]) && edge_ok(line.last())
}

/// Whether the `=` of an option line stands between two spaces, which then
/// belong to the separator.
pub open spec fn spaced(line: Seq<char>) -> bool {
    let e = first_index(line, '=') as int;
    1 <= e && e + 1 < line.len() && line[e - 1] == ' ' && line[e + 1] == ' '
}

/// The key of an option line: what stands before the separator.
pub open spec fn pair_key(line: Seq<char>) -> Seq<char> {
    let e = first_index(line, '=') as int;
    if spaced(line) {
        line.take(e - 1)
    } else {
        line.take(e)
    }
}

/// The value of an option line: what stands after the separator.
pub open spec fn pair_value(line: Seq<char>) -> Seq<char> {
    let e = first_index(line, '=') as int;
    if spaced(line) {
        line.skip(e + 2)
    } else {
        line.skip(e + 1)
    }
}

/// What a line is, given whether a header came before it.
pub enum LineModel {
    Blank,
    Header { name: Seq<char> },
    Pair { key: Seq<char>, value: Seq<char> },
    Comment,
    BadHeader,
    BadContent,
}

/// Reads one line, already without its carriage returns. Only a line of no
/// characters at all is blank; an option needs a section to belong to, and is
/// looked for before a comment.
pub open spec fn classify(line: Seq<char>, in_section: bool) -> LineModel {
    if line.len() == 0 {
        LineModel::Blank
    } else if is_header(line) {
        if header_ok(line) {
            LineModel::Header { name: header_name(line) }
        } else {
            LineModel::BadHeader
        }
    } else if in_section && is_pair(line) {
        LineModel::Pair { key: pair_key(line), value: pair_value(line) }
    } else if line[0] == ';' {
        LineModel::Comment
    } else {
        LineModel::BadContent
    }
}

/// The document with a section of that name: unchanged where it has one,
/// else with an empty one at the end.
pub open spec fn ensure_section(doc: DocumentModel, name: Seq<char>) -> DocumentModel {
    if position(doc, name) is Some {
        doc
    } else {
        doc.push((name, SectionModel::empty()))
    }
}

/// The document with `key` set to `value` in the section of that name;
/// unchanged where it has no such section.
pub open spec fn set_in_section(
    doc: DocumentModel,
    section: Seq<char>,
    key: Seq<char>,
    value: Seq<char>,
) -> DocumentModel {
    match position(doc, section) {
        Some(i) => doc.update(i, (doc[i].0, upsert(doc[i].1, key, value))),
        None => doc,
    }
}

/// What the parser holds between two lines.
pub struct ParseState {
    /// The document so far.
    pub doc: DocumentModel,
    /// The section that options now go to, once a header was read.
    pub current: Option<Seq<char>>,
}

/// The state after one more line, or the error that the line is.
pub open spec fn step(st: ParseState, line: Seq<char>) -> Result<ParseState, IniErrorModel> {
    match classify(line, st.current is Some) {
        LineModel::Blank => Ok(st),
        LineModel::Comment => Ok(st),
        LineModel::Header { name } => Ok(
            ParseState { doc: ensure_section(st.doc, name), current: Some(name) },
        ),
        LineModel::Pair { key, value } => Ok(
            ParseState {
                doc: set_in_section(
                    ensure_section(st.doc, st.current.unwrap()),
                    st.current.unwrap(),
                    key,
                    value,
                ),
                current: st.current,
            },
        ),
        LineModel::BadHeader => Err(IniErrorModel::InvalidSection),
        LineModel::BadContent => Err(IniErrorModel::InvalidContent),
    }
}

/// The state after all of `ls`, read in order from `st`, or the error of the
/// first line that is one.
pub open spec fn run(st: ParseState, ls: Seq<Seq<char>>) -> Result<ParseState, IniErrorModel>
    decreases ls.len(),
{
    if ls.len() == 0 {
        Ok(st)
    } else {
        match step(st, strip_returns(ls[0])) {
            Ok(next) => run(next, ls.drop_first()),
            Err(e) => Err(e),
        }
    }
}

/// The state before the first line.
pub open spec fn start() -> ParseState {
    ParseState { doc: DocumentModel::empty(), current: None }
}

/// The document that `text` describes, or why it describes none.
pub open spec fn parse(text: Seq<char>) -> Result<DocumentModel, IniErrorModel> {
    match run(start(), lines(text)) {
        Ok(st) => Ok(st.doc),
        Err(e) => Err(e),
    }
}

/// A section that was made sure of leaves a valid document valid.
pub proof fn lemma_ensure_section_valid(doc: DocumentModel, name: Seq<char>)
    requires
        valid_document(doc),
    ensures
        valid_document(ensure_section(doc, name)),
        position(ensure_section(doc, name), name) is Some,
{
    lemma_position(doc, name);
    lemma_position_push(doc, name, SectionModel::empty());
}

/// An option that was set leaves a valid document valid.
pub proof fn lemma_set_in_section_valid(
    doc: DocumentModel,
    section: Seq<char>,
    key: Seq<char>,
    value: Seq<char>,
)
    requires
        valid_document(doc),
    ensures
        valid_document(set_in_section(doc, section, key, value)),
{
    lemma_position(doc, section);
    match position(doc, section) {
        Some(i) => {
            lemma_upsert_distinct(doc[i].1, key, value);
        },
        None => {},
    }
}

/// A step from a valid document ends in a valid document.
pub proof fn lemma_step_valid(st: ParseState, line: Seq<char>)
    requires
        valid_document(st.doc),
    ensures
        step(st, line) matches Ok(next) ==> valid_document(next.doc),
{
    match classify(line, st.current is Some) {
        LineModel::Header { name } => {
            lemma_ensure_section_valid(st.doc, name);
        },
        LineModel::Pair { key, value } => {
            let section = st.current.unwrap();
            lemma_ensure_section_valid(st.doc, section);
            lemma_set_in_section_valid(ensure_section(st.doc, section), section, key, value);
        },
        _ => {},
    }
}

/// The first line of a text ends at its first line feed, and the other lines
/// are those of what follows it.
pub proof fn lemma_lines_unfold(text: Seq<char>)
    requires
        text.len() > 0,
    ensures
        first_index(text, '\n') <= text.len(),
        lines(text).len() > 0,
        lines(text)[0] == text.take(first_index(text, '\n') as int),
        lines(text).drop_first() == if first_index(text, '\n') < text.len() {
            lines(text.skip(first_index(text, '\n') as int + 1))
        } else {
            Seq::<Seq<char>>::empty()
        },
{
    lemma_first_index_is_first(text, '\n');
    let n = first_index(text, '\n') as int;
    if n >= text.len() {
        assert(text.take(n) == text);
        assert(lines(text).drop_first() =~= Seq::<Seq<char>>::empty());
    } else {
        assert(lines(text).drop_first() =~= lines(text.skip(n + 1)));
    }
}

/// In an option line the `=` has a character on either side.
pub proof fn lemma_equals_inside(line: Seq<char>)
    requires
        is_pair(line),
    ensures
        1 <= first_index(line, '=') < line.len() - 1,
{
    lemma_counted_is_found(line, '=');
    lemma_first_index_is_first(line, '=');
}

} // verus!
