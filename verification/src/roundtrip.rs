//! Reading back what was written: the canonical text of a canonical document
//! describes that document.

use crate::chars::{
    count, lemma_count_concat, lemma_count_single, lemma_count_zero, lemma_first_index, no_char,
};
use crate::error::IniErrorModel;
use crate::feeding::{
    complete, feed, lemma_feed_concat, lemma_feed_last_line, lemma_feed_line,
    lemma_strip_plain, plain,
};
use crate::grammar::{
    LineModel, ParseState, classify, header_name, pair_key, pair_value, parse, spaced, start,
    step, strip_returns,
};
use crate::model::{
    DocumentModel, SectionModel, distinct_names, lemma_position, lemma_position_of_entry,
    position,
};
use crate::render::{
    is_space, render, render_option, render_options, render_section, serialize, trim_end,
};
use crate::shape::{canonical, name_ok, option_ok, options_ok};
use vstd::prelude::*;

verus! {

/// The header of a section, without its line feed.
pub open spec fn header_line(name: Seq<char>) -> Seq<char> {
    seq!['['] + name + seq![']']
}

/// The line of an option, without its line feed.
pub open spec fn option_line(option: (Seq<char>, Seq<char>)) -> Seq<char> {
    option.0 + seq![' ', '=', ' '] + option.1
}

/// The rendered pieces, character by character.
pub proof fn lemma_rendered_pieces(name: Seq<char>, options: SectionModel, option: (
    Seq<char>,
    Seq<char>,
))
    ensures
        render_option(option) == option_line(option) + seq!['\n'],
        render_section((name, options)) == header_line(name) + seq!['\n'] + render_options(
            options,
        ) + seq!['\n'],
{
    reveal_strlit("[");
    reveal_strlit("]\n");
    reveal_strlit(" = ");
    reveal_strlit("\n");
    assert("["@ =~= seq!['[']);
    assert("]\n"@ =~= seq![']', '\n']);
    assert(" = "@ =~= seq![' ', '=', ' ']);
    assert("\n"@ =~= seq!['\n']);
    assert(render_option(option) =~= option_line(option) + seq!['\n']);
    assert(render_section((name, options)) =~= header_line(name) + seq!['\n'] + render_options(
        options,
    ) + seq!['\n']);
}

/// A header line is read as the header of its name.
pub proof fn lemma_classify_header_line(name: Seq<char>, in_section: bool)
    requires
        name_ok(name),
    ensures
        plain(header_line(name)),
        classify(header_line(name), in_section) == (LineModel::Header { name }),
{
    let line = header_line(name);
    assert(line[0] == '[');
    assert(line.last() == ']');
    assert forall|c: char| c == '[' || c == ']' implies count(line, c) == 1 by {
        lemma_count_concat(seq!['['], name, c);
        lemma_count_concat(seq!['['] + name, seq![']'], c);
        lemma_count_zero(name, c);
        lemma_count_single('[', c);
        lemma_count_single(']', c);
    }
    assert(header_name(line) =~= name);
    assert forall|i: int| 0 <= i < line.len() implies line[i] != '\n' && line[i] != '\r' by {
        if 1 <= i < line.len() - 1 {
            assert(line[i] == name[i - 1]);
        }
    }
}

/// An option line is read, within a section, as its key and its value.
pub proof fn lemma_classify_option_line(option: (Seq<char>, Seq<char>))
    requires
        option_ok(option),
    ensures
        plain(option_line(option)),
        classify(option_line(option), true) == (LineModel::Pair {
            key: option.0,
            value: option.1,
        }),
{
    let key = option.0;
    let value = option.1;
    let sep = seq![' ', '=', ' '];
    let line = option_line(option);
    let e = key.len() as int + 1;
    assert(line[0] == key[0]);
    assert(line.last() == value.last());
    assert forall|i: int| 0 <= i < line.len() implies line[i] != '\n' && line[i] != '\r' && (i
        != e ==> line[i] != '=') by {
        if i < key.len() {
            assert(line[i] == key[i]);
        } else if i >= key.len() + 3 {
            assert(line[i] == value[i - key.len() - 3]);
        } else {
            assert(line[i] == sep[i - key.len()]);
        }
    }
    assert(line[e] == '=');
    assert(line[e - 1] == ' ');
    assert(line[e + 1] == ' ');
    lemma_first_index(line, '=', e);
    assert(count(line, '=') == 1) by {
        lemma_count_concat(key, sep, '=');
        lemma_count_concat(key + sep, value, '=');
        lemma_count_zero(key, '=');
        lemma_count_zero(value, '=');
        lemma_count_single(' ', '=');
        lemma_count_single('=', '=');
        lemma_count_concat(seq![' '], seq!['='], '=');
        lemma_count_concat(seq![' ', '='], seq![' '], '=');
        assert(seq![' '] + seq!['='] =~= seq![' ', '=']);
        assert(seq![' ', '='] + seq![' '] =~= sep);
    }
    assert(spaced(line));
    assert(pair_key(line) =~= key);
    assert(pair_value(line) =~= value);
}

/// The rendered options end where a line ends.
pub proof fn lemma_render_options_complete(options: SectionModel)
    ensures
        complete(render_options(options)),
{
    if options.len() > 0 {
        lemma_rendered_pieces(Seq::empty(), options, options.last());
    }
}

/// The rendered sections end where a line ends.
pub proof fn lemma_render_complete(doc: DocumentModel)
    ensures
        complete(render(doc)),
{
    if doc.len() > 0 {
        lemma_rendered_pieces(doc.last().0, doc.last().1, (Seq::empty(), Seq::empty()));
    }
}

/// Nothing more to read leaves the state as it is.
pub proof fn lemma_feed_nothing(st: ParseState)
    ensures
        feed(st, Seq::<char>::empty()) == Ok::<ParseState, IniErrorModel>(st),
{
}

/// The state in which the document is `front` with one more section, and
/// options go to that section.
pub open spec fn within(front: DocumentModel, name: Seq<char>, options: SectionModel) -> ParseState {
    ParseState { doc: front.push((name, options)), current: Some(name) }
}

/// One option line, read within the last section, appends its option where
/// the key is new.
pub proof fn lemma_step_option_line(
    front: DocumentModel,
    name: Seq<char>,
    options: SectionModel,
    option: (Seq<char>, Seq<char>),
)
    requires
        distinct_names(front.push((name, options))),
        distinct_names(options.push(option)),
        option_ok(option),
    ensures
        step(within(front, name, options), option_line(option)) == Ok::<
            ParseState,
            IniErrorModel,
        >(within(front, name, options.push(option))),
{
    let doc = front.push((name, options));
    let at = front.len() as int;
    lemma_classify_option_line(option);
    lemma_position_of_entry(doc, at);
    lemma_position(options, option.0);
    let more = options.push(option);
    assert(position(options, option.0) is None) by {
        if position(options, option.0) is Some {
            let i = position(options, option.0).unwrap();
            assert(more[i] == options[i]);
            assert(more[options.len() as int] == option);
        }
    }
    assert(doc.update(at, (name, more)) =~= front.push((name, more)));
}

/// The rendered options of a section, read within that section while it is
/// still empty, fill it.
pub proof fn lemma_feed_options(front: DocumentModel, name: Seq<char>, options: SectionModel)
    requires
        distinct_names(front.push((name, options))),
        distinct_names(options),
        options_ok(options),
    ensures
        feed(within(front, name, SectionModel::empty()), render_options(options)) == Ok::<
            ParseState,
            IniErrorModel,
        >(within(front, name, options)),
    decreases options.len(),
{
    let st = within(front, name, SectionModel::empty());
    if options.len() == 0 {
        assert(options =~= SectionModel::empty());
    } else {
        let before = options.drop_last();
        let option = options.last();
        assert(before.push(option) =~= options);
        assert forall|j: int| 0 <= j < before.len() implies option_ok(#[trigger] before[j]) by {
            assert(before[j] == options[j]);
        }
        assert(distinct_names(before)) by {
            assert forall|i: int, j: int| 0 <= i < j < before.len() implies (
            #[trigger] before[i]).0 != (#[trigger] before[j]).0 by {
                assert(before[i] == options[i]);
                assert(before[j] == options[j]);
            }
        }
        assert(distinct_names(front.push((name, before)))) by {
            lemma_same_names_distinct(front.push((name, options)), front.push((name, before)));
        }
        lemma_feed_options(front, name, before);
        lemma_render_options_complete(before);
        lemma_feed_concat(st, render_options(before), render_option(option));
        lemma_rendered_pieces(name, options, option);
        lemma_classify_option_line(option);
        let line = option_line(option);
        assert(render_option(option) == line + seq!['\n'] + Seq::<char>::empty());
        lemma_feed_line(within(front, name, before), line, Seq::empty());
        lemma_strip_plain(line);
        lemma_step_option_line(front, name, before, option);
        lemma_feed_nothing(within(front, name, options));
    }
}

/// Two sequences of entries with the same names are distinct together.
pub proof fn lemma_same_names_distinct<V>(a: Seq<(Seq<char>, V)>, b: Seq<(Seq<char>, V)>)
    requires
        distinct_names(a),
        a.len() == b.len(),
        forall|i: int| 0 <= i < a.len() ==> (#[trigger] a[i]).0 == b[i].0,
    ensures
        distinct_names(b),
{
    assert forall|i: int, j: int| 0 <= i < j < b.len() implies (#[trigger] b[i]).0 != (
    #[trigger] b[j]).0 by {
        assert(a[i].0 == b[i].0);
        assert(a[j].0 == b[j].0);
    }
}

/// A rendered section, read after the sections before it, appends itself.
pub proof fn lemma_feed_section(st: ParseState, section: (Seq<char>, SectionModel))
    requires
        canonical(st.doc.push(section)),
    ensures
        feed(st, render_section(section)) == Ok::<ParseState, IniErrorModel>(
            within(st.doc, section.0, section.1),
        ),
{
    let front = st.doc;
    let name = section.0;
    let options = section.1;
    let doc = front.push(section);
    let at = front.len() as int;
    assert(doc[at] == section);
    lemma_rendered_pieces(name, options, (Seq::empty(), Seq::empty()));
    lemma_classify_header_line(name, st.current is Some);
    let header = header_line(name);
    let rest = render_options(options) + seq!['\n'];
    assert(render_section(section) =~= header + seq!['\n'] + rest);
    lemma_feed_line(st, header, rest);
    lemma_strip_plain(header);
    lemma_position(front, name);
    assert(position(front, name) is None) by {
        if position(front, name) is Some {
            let i = position(front, name).unwrap();
            assert(doc[i] == front[i]);
        }
    }
    let opened = within(front, name, SectionModel::empty());
    assert(step(st, header) == Ok::<ParseState, IniErrorModel>(opened));
    lemma_render_options_complete(options);
    lemma_feed_concat(opened, render_options(options), seq!['\n']);
    lemma_feed_options(front, name, options);
    let filled = within(front, name, options);
    assert(seq!['\n'] =~= Seq::<char>::empty() + seq!['\n'] + Seq::<char>::empty());
    lemma_feed_line(filled, Seq::empty(), Seq::empty());
    assert(strip_returns(Seq::<char>::empty()) == Seq::<char>::empty()) by {
        lemma_strip_plain(Seq::empty());
    }
    lemma_feed_nothing(filled);
}

/// The section that options go to after a document was read: its last.
pub open spec fn after(doc: DocumentModel) -> ParseState {
    ParseState {
        doc,
        current: if doc.len() == 0 {
            None
        } else {
            Some(doc.last().0)
        },
    }
}

/// The first sections of a canonical document are a canonical document.
pub proof fn lemma_front_canonical(doc: DocumentModel)
    requires
        canonical(doc),
        doc.len() > 0,
    ensures
        canonical(doc.drop_last()),
{
    let front = doc.drop_last();
    assert forall|i: int| 0 <= i < front.len() implies front[i] == doc[i] by {}
    assert forall|i: int, j: int| 0 <= i < j < front.len() implies (#[trigger] front[i]).0 != (
    #[trigger] front[j]).0 by {
        assert(front[i] == doc[i]);
        assert(front[j] == doc[j]);
    }
    assert forall|i: int| 0 <= i < front.len() implies distinct_names((#[trigger] front[i]).1)
        && name_ok(front[i].0) && options_ok(front[i].1) by {
        assert(front[i] == doc[i]);
    }
}

/// The rendered text of a canonical document is read as that document.
pub proof fn lemma_feed_rendered(doc: DocumentModel)
    requires
        canonical(doc),
    ensures
        feed(start(), render(doc)) == Ok::<ParseState, IniErrorModel>(after(doc)),
    decreases doc.len(),
{
    if doc.len() == 0 {
        assert(doc =~= DocumentModel::empty());
        lemma_feed_nothing(start());
    } else {
        let front = doc.drop_last();
        let section = doc.last();
        assert(front.push(section) =~= doc);
        lemma_front_canonical(doc);
        lemma_feed_rendered(front);
        lemma_render_complete(front);
        lemma_feed_concat(start(), render(front), render_section(section));
        lemma_feed_section(after(front), section);
    }
}

/// Trimming leaves a beginning of the text, and one that does not end in
/// white space.
pub proof fn lemma_trim_end_is_prefix(s: Seq<char>)
    ensures
        trim_end(s).len() <= s.len(),
        trim_end(s) == s.take(trim_end(s).len() as int),
        trim_end(s).len() > 0 ==> !is_space(trim_end(s).last()),
    decreases s.len(),
{
    if s.len() > 0 && is_space(s.last()) {
        let front = s.drop_last();
        lemma_trim_end_is_prefix(front);
        assert(front.take(trim_end(s).len() as int) == s.take(trim_end(s).len() as int));
    } else {
        assert(s.take(s.len() as int) == s);
    }
}

/// Where something is left of the end of a text, trimming does not reach
/// what stands before it.
pub proof fn lemma_trim_end_concat(a: Seq<char>, b: Seq<char>)
    requires
        trim_end(b).len() > 0,
    ensures
        trim_end(a + b) == a + trim_end(b),
    decreases b.len(),
{
    if is_space(b.last()) {
        assert((a + b).drop_last() == a + b.drop_last());
        lemma_trim_end_concat(a, b.drop_last());
    }
}

/// The two line feeds that close a rendered document are trimmed away.
pub proof fn lemma_trim_end_feeds(s: Seq<char>)
    ensures
        trim_end(s + seq!['\n', '\n']) == trim_end(s),
{
    let once = s + seq!['\n'];
    let twice = s + seq!['\n', '\n'];
    assert(twice.drop_last() == once);
    assert(once.drop_last() == s);
    assert(is_space('\n'));
    assert(twice.last() == '\n' && once.last() == '\n');
    assert(trim_end(twice) == trim_end(once));
    assert(trim_end(once) == trim_end(s));
}

/// A last line and the two line feeds after it are read as the line alone
/// is.
pub proof fn lemma_feed_closed(st: ParseState, head: Seq<char>, line: Seq<char>)
    requires
        complete(head),
        no_char(line, '\n'),
        line.len() > 0,
    ensures
        feed(st, head + line + seq!['\n', '\n']) == feed(st, head + line),
{
    let closed = line + seq!['\n', '\n'];
    assert(head + line + seq!['\n', '\n'] == head + closed);
    lemma_feed_concat(st, head, closed);
    lemma_feed_concat(st, head, line);
    match feed(st, head) {
        Ok(mid) => {
            assert(closed == line + seq!['\n'] + seq!['\n']);
            lemma_feed_line(mid, line, seq!['\n']);
            lemma_feed_last_line(mid, line);
            match step(mid, strip_returns(line)) {
                Ok(next) => {
                    assert(seq!['\n'] =~= Seq::<char>::empty() + seq!['\n'] + Seq::<
                        char,
                    >::empty());
                    lemma_feed_line(next, Seq::empty(), Seq::empty());
                    lemma_strip_plain(Seq::empty());
                    lemma_feed_nothing(next);
                },
                Err(_) => {},
            }
        },
        Err(_) => {},
    }
}

/// What a rendered document holds before its last line that is not empty.
pub open spec fn stem(doc: DocumentModel) -> Seq<char> {
    let section = doc.last();
    if section.1.len() == 0 {
        render(doc.drop_last())
    } else {
        render(doc.drop_last()) + header_line(section.0) + seq!['\n'] + render_options(
            section.1.drop_last(),
        )
    }
}

/// The last line of a rendered document that is not empty: the last option
/// of the last section, or its header where it has no option.
pub open spec fn last_line(doc: DocumentModel) -> Seq<char> {
    let section = doc.last();
    if section.1.len() == 0 {
        header_line(section.0)
    } else {
        option_line(section.1.last())
    }
}

/// A rendered document is its stem, its last line and two line feeds.
pub proof fn lemma_render_split(doc: DocumentModel)
    requires
        doc.len() > 0,
    ensures
        render(doc) == stem(doc) + last_line(doc) + seq!['\n', '\n'],
        complete(stem(doc)),
{
    let section = doc.last();
    let front = doc.drop_last();
    lemma_render_complete(front);
    lemma_rendered_pieces(section.0, section.1, (Seq::empty(), Seq::empty()));
    if section.1.len() == 0 {
        assert(render_options(section.1) =~= Seq::<char>::empty());
        assert(render(doc) =~= stem(doc) + last_line(doc) + seq!['\n', '\n']);
    } else {
        let before = section.1.drop_last();
        lemma_render_options_complete(before);
        lemma_rendered_pieces(section.0, section.1, section.1.last());
        assert(render(doc) =~= stem(doc) + last_line(doc) + seq!['\n', '\n']);
        assert(stem(doc).last() == '\n') by {
            if before.len() > 0 {
                assert(stem(doc).last() == render_options(before).last());
            }
        }
    }
}

/// The document with the white space taken off the end of the value of its
/// last option, where its last section has an option.
pub open spec fn trim_last_value(doc: DocumentModel) -> DocumentModel {
    if doc.len() > 0 && doc.last().1.len() > 0 {
        let section = doc.last();
        let option = section.1.last();
        doc.drop_last().push(
            (section.0, section.1.drop_last().push((option.0, trim_end(option.1)))),
        )
    } else {
        doc
    }
}

/// The value of the last option does not end in white space, so that
/// trimming the text takes nothing from it.
pub open spec fn keeps_last_value(doc: DocumentModel) -> bool {
    doc.len() > 0 && doc.last().1.len() > 0 ==> !is_space(doc.last().1.last().1.last())
}

/// What trimming leaves of the last option can still be read as that option:
/// something of the value is left, and key and value do not look like a
/// header.
pub open spec fn survives_trimming(doc: DocumentModel) -> bool {
    doc.len() > 0 && doc.last().1.len() > 0 ==> {
        let option = doc.last().1.last();
        let left = trim_end(option.1);
        left.len() > 0 && !(option.0[0] == '[' && left.last() == ']')
    }
}

/// A document that survives trimming is canonical once trimmed, and is
/// rendered with the same stem.
pub proof fn lemma_trimmed_canonical(doc: DocumentModel)
    requires
        canonical(doc),
        survives_trimming(doc),
    ensures
        canonical(trim_last_value(doc)),
        trim_last_value(doc).len() == doc.len(),
        doc.len() > 0 ==> stem(trim_last_value(doc)) == stem(doc),
        keeps_last_value(trim_last_value(doc)),
        keeps_last_value(doc) ==> trim_last_value(doc) == doc,
{
    if doc.len() > 0 && doc.last().1.len() > 0 {
        let trimmed = trim_last_value(doc);
        let section = doc.last();
        let option = section.1.last();
        let before = section.1.drop_last();
        let left = trim_end(option.1);
        let options = before.push((option.0, left));
        let at = doc.len() - 1;
        lemma_trim_end_is_prefix(option.1);
        assert(trimmed.drop_last() =~= doc.drop_last());
        assert(trimmed.last().1.drop_last() =~= before);
        assert(option_ok(section.1[section.1.len() - 1]));
        assert(option_ok((option.0, left))) by {
            assert forall|i: int| 0 <= i < left.len() implies left[i] != '=' && left[i] != '\n'
                && left[i] != '\r' by {
                assert(left[i] == option.1[i]);
            }
            assert(left.last() == option.1[left.len() - 1]);
        }
        assert(options_ok(options)) by {
            assert forall|j: int| 0 <= j < options.len() implies option_ok(
                #[trigger] options[j],
            ) by {
                if j < before.len() {
                    assert(options[j] == section.1[j]);
                }
            }
        }
        lemma_same_names_distinct(section.1, options);
        lemma_same_names_distinct(doc, trimmed);
        assert forall|i: int| 0 <= i < trimmed.len() implies distinct_names(
            (#[trigger] trimmed[i]).1,
        ) && name_ok(trimmed[i].0) && options_ok(trimmed[i].1) by {
            if i < at {
                assert(trimmed[i] == doc[i]);
            }
        }
        if keeps_last_value(doc) {
            assert(left == option.1);
            assert(options =~= section.1);
            assert(trimmed =~= doc);
        }
    }
}

/// The canonical text of a document that survives trimming is its stem and
/// the last line of the trimmed document.
pub proof fn lemma_serialize_split(doc: DocumentModel)
    requires
        canonical(doc),
        survives_trimming(doc),
        doc.len() > 0,
    ensures
        serialize(doc) == stem(doc) + last_line(trim_last_value(doc)),
{
    let section = doc.last();
    let line = last_line(doc);
    lemma_render_split(doc);
    lemma_trim_end_feeds(stem(doc) + line);
    if section.1.len() == 0 {
        assert(line.last() == ']');
        lemma_trim_end_concat(stem(doc), line);
    } else {
        let option = section.1.last();
        let head = option.0 + seq![' ', '=', ' '];
        lemma_trim_end_concat(head, option.1);
        lemma_trim_end_concat(stem(doc), line);
        assert(trim_last_value(doc).last().1.last() == (option.0, trim_end(option.1)));
    }
}

/// The canonical text of a canonical document that survives trimming
/// describes the trimmed document, which has the same canonical text.
pub proof fn lemma_read_back(doc: DocumentModel)
    requires
        canonical(doc),
        survives_trimming(doc),
    ensures
        parse(serialize(doc)) == Ok::<DocumentModel, IniErrorModel>(trim_last_value(doc)),
        serialize(trim_last_value(doc)) == serialize(doc),
{
    let trimmed = trim_last_value(doc);
    lemma_trimmed_canonical(doc);
    if doc.len() == 0 {
        assert(doc =~= DocumentModel::empty());
        assert(serialize(doc) == Seq::<char>::empty());
        lemma_feed_nothing(start());
    } else {
        let line = last_line(trimmed);
        lemma_serialize_split(doc);
        lemma_trimmed_canonical(trimmed);
        lemma_serialize_split(trimmed);
        lemma_render_split(trimmed);
        lemma_feed_rendered(trimmed);
        assert(plain(line) && line.len() > 0) by {
            if trimmed.last().1.len() == 0 {
                lemma_classify_header_line(trimmed.last().0, true);
            } else {
                let options = trimmed.last().1;
                assert(option_ok(options[options.len() - 1]));
                lemma_classify_option_line(options.last());
            }
        }
        lemma_feed_closed(start(), stem(trimmed), line);
    }
}

} // verus!
