//! What holds of reading and writing documents, whatever the text.

use crate::error::IniErrorModel;
use crate::feeding::{complete, feed, lemma_feed_concat};
use crate::grammar::{lines, parse, set_in_section, start};
use crate::ini::with_option;
use crate::model::{DocumentModel, lemma_position, lemma_upsert_names, names, position};
use crate::order::{
    first_mentions, headers, keeps_order, keys_of, keys_set, lemma_run_keeps_order,
    lemma_run_keys, lemma_run_names, lemma_set_in_section_keeps_order,
};
use crate::render::serialize;
use crate::roundtrip::{
    keeps_last_value, lemma_read_back, lemma_trimmed_canonical, survives_trimming,
};
use crate::shape::{canonical, lemma_parse_canonical, option_ok};
use vstd::prelude::*;

verus! {

/// What was read is well-formed. In a document that was read from a text
/// no two sections share a name and no two options of one section a key;
/// no key and no value is empty; and every name, key and value is such that
/// a line can carry it.
pub proof fn law_reading_gives_canonical(text: Seq<char>, doc: DocumentModel)
    requires
        parse(text) == Ok::<DocumentModel, IniErrorModel>(doc),
    ensures
        canonical(doc),
{
    lemma_parse_canonical(text);
}

/// Round trip. A document that was read from a text, written as its
/// canonical text and read again, is the same document: the same sections
/// with the same options and values, in the same order. The one thing that
/// writing does not keep is white space at the very end of the text, so the
/// value of the last option must not end in any.
pub proof fn law_round_trip(text: Seq<char>, doc: DocumentModel)
    requires
        parse(text) == Ok::<DocumentModel, IniErrorModel>(doc),
        keeps_last_value(doc),
    ensures
        parse(serialize(doc)) == Ok::<DocumentModel, IniErrorModel>(doc),
{
    lemma_parse_canonical(text);
    lemma_keeping_survives(doc);
    lemma_trimmed_canonical(doc);
    lemma_read_back(doc);
}

/// Writing is idempotent. The canonical text of a document that was read
/// from a text, read again and written again, is the same text, character
/// for character. White space at the end of the last value is lost on the
/// way, which the text does not show; what is left of that option must
/// still be one.
pub proof fn law_serialize_idempotent(text: Seq<char>, doc: DocumentModel)
    requires
        parse(text) == Ok::<DocumentModel, IniErrorModel>(doc),
        survives_trimming(doc),
    ensures
        parse(serialize(doc)) matches Ok(again) && serialize(again) == serialize(doc),
{
    lemma_parse_canonical(text);
    lemma_read_back(doc);
}

/// A canonical document whose last value ends in no white space survives
/// trimming.
pub proof fn lemma_keeping_survives(doc: DocumentModel)
    requires
        canonical(doc),
        keeps_last_value(doc),
    ensures
        survives_trimming(doc),
{
    if doc.len() > 0 && doc.last().1.len() > 0 {
        let options = doc.last().1;
        assert(option_ok(options[options.len() - 1]));
    }
}

/// Order of first mention, in reading. Where a text is read up to the end
/// of some line, and then to its end, the sections and the keys of each
/// section that the first part gave stand in the whole document where they
/// stood, and all that the rest of the text adds stands behind them.
pub proof fn law_reading_keeps_order(first: Seq<char>, more: Seq<char>, doc: DocumentModel)
    requires
        complete(first),
        parse(first + more) == Ok::<DocumentModel, IniErrorModel>(doc),
    ensures
        parse(first) matches Ok(early) && keeps_order(early, doc),
{
    lemma_feed_concat(start(), first, more);
    match feed(start(), first) {
        Ok(mid) => {
            lemma_run_keeps_order(mid, lines(more));
        },
        Err(_) => {},
    }
}

/// Order of insertion, in setting. An option that is set in a section that
/// is there leaves every section and every key where it stood; a key that
/// is new stands last in its section.
pub proof fn law_setting_keeps_order(
    doc: DocumentModel,
    section: Seq<char>,
    option: Seq<char>,
    value: Seq<char>,
)
    requires
        with_option(doc, section, option, value) is Ok,
    ensures
        with_option(doc, section, option, value) matches Ok(after) && keeps_order(doc, after)
            && names(after) == names(doc) && ({
            let at = position(doc, section).unwrap();
            names(after[at].1) == if position(doc[at].1, option) is Some {
                names(doc[at].1)
            } else {
                names(doc[at].1).push(option)
            }
        }),
{
    lemma_set_in_section_keeps_order(doc, section, option, value);
    lemma_position(doc, section);
    let at = position(doc, section).unwrap();
    lemma_upsert_names(doc[at].1, option, value);
    assert(names(set_in_section(doc, section, option, value)) =~= names(doc));
}

/// Order of first mention, of sections. The sections of a document that
/// was read from a text are the names of the headers of the text, each once,
/// in the order in which each first stands there.
pub proof fn law_sections_in_order_of_mention(text: Seq<char>, doc: DocumentModel)
    requires
        parse(text) == Ok::<DocumentModel, IniErrorModel>(doc),
    ensures
        names(doc) == first_mentions(Seq::empty(), headers(lines(text))),
{
    lemma_run_names(start(), lines(text));
    assert(names(start().doc) =~= Seq::<Seq<char>>::empty());
}

/// Order of first mention, of options. The keys of a section of a document
/// that was read from a text are the keys of the option lines that stand
/// under a header of that section, each once, in the order in which each
/// first stands there.
pub proof fn law_options_in_order_of_mention(
    text: Seq<char>,
    doc: DocumentModel,
    section: Seq<char>,
)
    requires
        parse(text) == Ok::<DocumentModel, IniErrorModel>(doc),
    ensures
        keys_of(doc, section) == first_mentions(
            Seq::empty(),
            keys_set(lines(text), None, section),
        ),
{
    lemma_run_keys(start(), lines(text), section);
}

} // verus!
