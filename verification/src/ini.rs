//! The parser: a document, filled from text and written back as text.

use crate::chars::find_char;
use crate::error::{IniError, IniErrorModel};
use crate::grammar::{
    ParseState, ensure_section, lemma_lines_unfold, lemma_set_in_section_valid,
    lemma_step_valid, lines, parse, run, set_in_section, start, step, strip_returns,
};
use crate::model::{DocumentModel, SectionModel, lemma_position, names, position, valid_document};
use crate::render::{render, serialize, trimmed, write_section};
use crate::scan::{Line, classify_line, without_returns};
use crate::store::{
    option_entries, options_clone, options_get, options_get_index, options_insert, options_len,
    options_new, section_entries, sections_clone, sections_get, sections_get_index,
    sections_get_mut, sections_insert, sections_len, sections_new,
};
use crate::text::{decimal_u64, parse_u64, to_chars};
use indexmap::IndexMap;
use vstd::prelude::*;
use vstd::string::StringExecFns;

verus! {

/// The options of the section named `section`, or that it is missing.
pub open spec fn section_of(doc: DocumentModel, section: Seq<char>) -> Result<
    SectionModel,
    IniErrorModel,
> {
    match position(doc, section) {
        Some(i) => Ok(doc[i].1),
        None => Err(IniErrorModel::SectionNotFound { section }),
    }
}

/// The value of `option` in the section named `section`, or which of the two
/// is missing.
pub open spec fn option_of(doc: DocumentModel, section: Seq<char>, option: Seq<char>) -> Result<
    Seq<char>,
    IniErrorModel,
> {
    match section_of(doc, section) {
        Ok(options) => match position(options, option) {
            Some(i) => Ok(options[i].1),
            None => Err(IniErrorModel::OptionNotFound { section, option }),
        },
        Err(e) => Err(e),
    }
}

/// The document after `option` was set in a section that is there, or that
/// the section is missing.
pub open spec fn with_option(
    doc: DocumentModel,
    section: Seq<char>,
    option: Seq<char>,
    value: Seq<char>,
) -> Result<DocumentModel, IniErrorModel> {
    match position(doc, section) {
        Some(_) => Ok(set_in_section(doc, section, option, value)),
        None => Err(IniErrorModel::SectionNotFound { section }),
    }
}

/// The boolean that a value stands for: one of four words for each, and no
/// other.
pub open spec fn bool_of(value: Seq<char>) -> Result<bool, IniErrorModel> {
    if value == "true"@ || value == "True"@ || value == "yes"@ || value == "1"@ {
        Ok(true)
    } else if value == "false"@ || value == "False"@ || value == "no"@ || value == "0"@ {
        Ok(false)
    } else {
        Err(IniErrorModel::NotBool { value })
    }
}

/// The unsigned number that a value writes in decimal.
pub open spec fn int_of(value: Seq<char>) -> Result<u64, IniErrorModel> {
    match decimal_u64(value) {
        Some(n) => Ok(n),
        None => Err(IniErrorModel::NotInt { value }),
    }
}

/// Reads a value as a boolean.
pub fn to_bool(value: String) -> (r: Result<bool, IniError>)
    ensures
        match bool_of(value@) {
            Ok(b) => r == Ok::<bool, IniError>(b),
            Err(e) => r matches Err(err) && err@ == e,
        },
{
    if value == String::from_str("true") || value == String::from_str("True") || value
        == String::from_str("yes") || value == String::from_str("1") {
        Ok(true)
    } else if value == String::from_str("false") || value == String::from_str("False") || value
        == String::from_str("no") || value == String::from_str("0") {
        Ok(false)
    } else {
        Err(IniError::NotBool { value })
    }
}

/// Reads a value as an unsigned number.
pub fn to_int(value: String) -> (r: Result<u64, IniError>)
    ensures
        match int_of(value@) {
            Ok(n) => r == Ok::<u64, IniError>(n),
            Err(e) => r matches Err(err) && err@ == e,
        },
{
    match parse_u64(value.as_str()) {
        Some(n) => Ok(n),
        None => Err(IniError::NotInt { value }),
    }
}

/// An INI document: sections in the order in which they came, each with its
/// options in the order in which they came.
#[derive(Debug)]
pub struct Parser {
    parsed_map: IndexMap<String, IndexMap<String, String>>,
}

impl View for Parser {
    type V = DocumentModel;

    closed spec fn view(&self) -> DocumentModel {
        section_entries(self.parsed_map)
    }
}

impl Default for Parser {
    fn default() -> (p: Parser)
        ensures
            p@ == DocumentModel::empty(),
            p.wf(),
    {
        Parser::new()
    }
}

impl Parser {
    /// No two sections share a name, nor two options of one section a key.
    pub open spec fn wf(&self) -> bool {
        valid_document(self@)
    }

    /// A document without sections.
    pub fn new() -> (p: Parser)
        ensures
            p@ == DocumentModel::empty(),
            p.wf(),
    {
        Parser { parsed_map: sections_new() }
    }

    /// A copy of the map of sections.
    pub fn parsed_map(&mut self) -> (map: IndexMap<String, IndexMap<String, String>>)
        ensures
            section_entries(map) == old(self)@,
            final(self)@ == old(self)@,
    {
        sections_clone(&self.parsed_map)
    }

    /// Makes sure that a section named `parent` exists.
    fn ensure_section(&mut self, parent: &String)
        ensures
            final(self)@ == ensure_section(old(self)@, parent@),
    {
        if sections_get(&self.parsed_map, parent.as_str()).is_none() {
            sections_insert(&mut self.parsed_map, parent.clone(), options_new());
        }
    }

    /// Sets `key` to `value` in the section named `parent`, which is made
    /// first where it is missing.
    fn add(&mut self, parent: &String, key: &String, value: &String)
        ensures
            final(self)@ == set_in_section(
                ensure_section(old(self)@, parent@),
                parent@,
                key@,
                value@,
            ),
    {
        self.ensure_section(parent);
        proof {
            lemma_position(old(self)@, parent@);
            lemma_position(self@, parent@);
        }
        match sections_get_mut(&mut self.parsed_map, parent.as_str()) {
            Some(info) => {
                options_insert(info, key.clone(), value.clone());
            },
            None => {},
        }
    }

    /// The canonical text of the document: for each section its header, one
    /// line for each option and an empty line, with nothing after the last
    /// line that is not white space.
    pub fn string(&mut self) -> (text: String)
        ensures
            text@ == serialize(old(self)@),
            final(self)@ == old(self)@,
    {
        let mut out = String::new();
        let n = sections_len(&self.parsed_map);
        let mut i: usize = 0;
        while i < n
            invariant
                i <= n == self@.len(),
                out@ == render(self@.take(i as int)),
            decreases n - i,
        {
            if let Some((parent, info)) = sections_get_index(&self.parsed_map, i) {
                write_section(&mut out, parent, info);
            }
            proof {
                let done = self@.take(i + 1);
                assert(done.drop_last() == self@.take(i as int));
                assert(done.last() == self@[i as int]);
            }
            i += 1;
        }
        proof {
            assert(self@.take(n as int) == self@);
        }
        trimmed(out.as_str())
    }

    /// Replaces the document by the one that `content` describes. Where
    /// `content` is not well-formed, the first offending line decides the
    /// error, and the document is left empty.
    pub fn from_string(&mut self, content: String) -> (r: Result<(), IniError>)
        ensures
            match parse(content@) {
                Ok(doc) => r is Ok && final(self)@ == doc,
                Err(e) => r matches Err(err) && err@ == e && final(self)@
                    == DocumentModel::empty(),
            },
            final(self).wf(),
    {
        self.parsed_map = sections_new();
        let cs = to_chars(content.as_str());
        let mut section = String::new();
        let mut new_section = false;
        let mut pos: usize = 0;
        proof {
            assert(cs@.skip(0) == cs@);
        }
        while pos < cs.len()
            invariant
                pos <= cs.len(),
                cs@ == content@,
                valid_document(self@),
                run(start(), lines(cs@)) == run(
                    ParseState {
                        doc: self@,
                        current: if new_section {
                            Some(section@)
                        } else {
                            None
                        },
                    },
                    lines(cs@.skip(pos as int)),
                ),
            decreases cs.len() - pos,
        {
            let end = find_char(&cs, pos, '\n');
            let line = without_returns(&cs, pos, end);
            let ghost before = ParseState {
                doc: self@,
                current: if new_section {
                    Some(section@)
                } else {
                    None
                },
            };
            proof {
                let rest = cs@.skip(pos as int);
                lemma_lines_unfold(rest);
                assert(rest.take(end - pos) == cs@.subrange(pos as int, end as int));
                assert(line@ == strip_returns(lines(rest)[0]));
                if end < cs.len() {
                    assert(rest.skip(end - pos + 1) == cs@.skip(end + 1));
                } else {
                    assert(cs@.skip(end as int) == Seq::<char>::empty());
                }
                lemma_step_valid(before, line@);
                assert(run(before, lines(rest)) == match step(before, line@) {
                    Ok(next) => run(next, lines(rest).drop_first()),
                    Err(e) => Err(e),
                });
            }
            match classify_line(&line, new_section) {
                Line::Blank => {},
                Line::Comment => {},
                Line::Header { name } => {
                    self.ensure_section(&name);
                    section = name;
                    new_section = true;
                },
                Line::Pair { key, value } => {
                    self.add(&section, &key, &value);
                },
                Line::BadHeader => {
                    self.parsed_map = sections_new();
                    return Err(IniError::InvalidSection);
                },
                Line::BadContent => {
                    self.parsed_map = sections_new();
                    return Err(IniError::InvalidContent);
                },
            }
            pos = if end < cs.len() {
                end + 1
            } else {
                end
            };
        }
        proof {
            assert(cs@.skip(pos as int) == Seq::<char>::empty());
        }
        Ok(())
    }

    /// The names of the sections, in the order in which they came.
    pub fn get_sections(&mut self) -> (sections: Vec<String>)
        ensures
            sections.deep_view() == names(old(self)@),
            final(self)@ == old(self)@,
    {
        let mut sections: Vec<String> = Vec::new();
        let n = sections_len(&self.parsed_map);
        let mut i: usize = 0;
        while i < n
            invariant
                i <= n == self@.len(),
                sections@.len() == i,
                forall|j: int| 0 <= j < i ==> (#[trigger] sections@[j])@ == self@[j].0,
            decreases n - i,
        {
            if let Some((parent, _)) = sections_get_index(&self.parsed_map, i) {
                sections.push(parent.clone());
            }
            i += 1;
        }
        proof {
            assert(sections.deep_view() =~= names(self@));
        }
        sections
    }

    /// A copy of the section named `section_key`.
    pub fn get_section(&mut self, section_key: &str) -> (r: Result<
        IndexMap<String, String>,
        IniError,
    >)
        ensures
            match section_of(old(self)@, section_key@) {
                Ok(options) => r matches Ok(info) && option_entries(info) == options,
                Err(e) => r matches Err(err) && err@ == e,
            },
            final(self)@ == old(self)@,
    {
        match sections_get(&self.parsed_map, section_key) {
            Some(info) => Ok(options_clone(info)),
            None => Err(IniError::SectionNotFound { section: String::from_str(section_key) }),
        }
    }

    /// The keys of the section named `section_key`, in the order in which
    /// they came.
    pub fn get_options(&mut self, section_key: &str) -> (r: Result<Vec<String>, IniError>)
        ensures
            match section_of(old(self)@, section_key@) {
                Ok(options) => r matches Ok(keys) && keys.deep_view() == names(options),
                Err(e) => r matches Err(err) && err@ == e,
            },
            final(self)@ == old(self)@,
    {
        let section = match sections_get(&self.parsed_map, section_key) {
            Some(section) => section,
            None => {
                return Err(IniError::SectionNotFound { section: String::from_str(section_key) });
            },
        };
        let ghost options = option_entries(*section);
        let mut keys: Vec<String> = Vec::new();
        let n = options_len(section);
        let mut i: usize = 0;
        while i < n
            invariant
                i <= n == options.len(),
                options == option_entries(*section),
                keys@.len() == i,
                forall|j: int| 0 <= j < i ==> (#[trigger] keys@[j])@ == options[j].0,
            decreases n - i,
        {
            if let Some((key, _)) = options_get_index(section, i) {
                keys.push(key.clone());
            }
            i += 1;
        }
        proof {
            assert(keys.deep_view() =~= names(options));
        }
        Ok(keys)
    }

    /// The value of `option_key` in the section named `section_key`.
    pub fn get_option(&mut self, section_key: &str, option_key: &str) -> (r: Result<
        String,
        IniError,
    >)
        ensures
            match option_of(old(self)@, section_key@, option_key@) {
                Ok(value) => r matches Ok(text) && text@ == value,
                Err(e) => r matches Err(err) && err@ == e,
            },
            final(self)@ == old(self)@,
    {
        let section = match sections_get(&self.parsed_map, section_key) {
            Some(section) => section,
            None => {
                return Err(IniError::SectionNotFound { section: String::from_str(section_key) });
            },
        };
        match options_get(section, option_key) {
            Some(value) => Ok(value.clone()),
            None => Err(
                IniError::OptionNotFound {
                    section: String::from_str(section_key),
                    option: String::from_str(option_key),
                },
            ),
        }
    }

    /// Sets `option_key` to `option_val` in the section named `section_key`:
    /// a key that is there keeps its place, a new one goes last. The section
    /// has to be there; none is made, and the document then stays as it is.
    pub fn set_option(&mut self, section_key: &str, option_key: &str, option_val: &str) -> (r:
        Result<(), IniError>)
        ensures
            match with_option(old(self)@, section_key@, option_key@, option_val@) {
                Ok(doc) => r is Ok && final(self)@ == doc,
                Err(e) => r matches Err(err) && err@ == e && final(self)@ == old(self)@,
            },
            old(self).wf() ==> final(self).wf(),
    {
        proof {
            lemma_position(self@, section_key@);
            if valid_document(self@) {
                lemma_set_in_section_valid(self@, section_key@, option_key@, option_val@);
            }
        }
        match sections_get_mut(&mut self.parsed_map, section_key) {
            Some(section) => {
                options_insert(
                    section,
                    String::from_str(option_key),
                    String::from_str(option_val),
                );
                Ok(())
            },
            None => Err(IniError::SectionNotFound { section: String::from_str(section_key) }),
        }
    }

    /// The value of an option, read as a boolean.
    pub fn get_bool(&mut self, section_key: &str, option_key: &str) -> (r: Result<bool, IniError>)
        ensures
            match option_of(old(self)@, section_key@, option_key@) {
                Ok(value) => match bool_of(value) {
                    Ok(b) => r == Ok::<bool, IniError>(b),
                    Err(e) => r matches Err(err) && err@ == e,
                },
                Err(e) => r matches Err(err) && err@ == e,
            },
            final(self)@ == old(self)@,
    {
        match self.get_option(section_key, option_key) {
            Ok(option) => to_bool(option),
            Err(e) => Err(e),
        }
    }

    /// The value of an option, read as an unsigned number.
    pub fn get_int(&mut self, section_key: &str, option_key: &str) -> (r: Result<u64, IniError>)
        ensures
            match option_of(old(self)@, section_key@, option_key@) {
                Ok(value) => match int_of(value) {
                    Ok(n) => r == Ok::<u64, IniError>(n),
                    Err(e) => r matches Err(err) && err@ == e,
                },
                Err(e) => r matches Err(err) && err@ == e,
            },
            final(self)@ == old(self)@,
    {
        match self.get_option(section_key, option_key) {
            Ok(option) => to_int(option),
            Err(e) => Err(e),
        }
    }
}

} // verus!
