//! What can go wrong, and how it is worded.

use vstd::prelude::*;
use vstd::string::StringExecFns;

verus! {

/// A failure of parsing, of a lookup or of a conversion. Each names what it
/// stumbled on.
#[derive(Debug, PartialEq, Eq)]
pub enum IniError {
    /// A header line with more than one `[` or more than one `]`.
    InvalidSection,
    /// A line that is neither blank, nor a header, nor an option of a
    /// section, nor a comment.
    InvalidContent,
    /// The document has no section of this name.
    SectionNotFound { section: String },
    /// The section is there, but has no option of this key.
    OptionNotFound { section: String, option: String },
    /// The value is none of the words that stand for a boolean.
    NotBool { value: String },
    /// The value is not a decimal number that fits 64 bits.
    NotInt { value: String },
}

/// An [`IniError`] with its strings as sequences of characters.
pub enum IniErrorModel {
    InvalidSection,
    InvalidContent,
    SectionNotFound { section: Seq<char> },
    OptionNotFound { section: Seq<char>, option: Seq<char> },
    NotBool { value: Seq<char> },
    NotInt { value: Seq<char> },
}

impl View for IniError {
    type V = IniErrorModel;

    open spec fn view(&self) -> IniErrorModel {
        match self {
            IniError::InvalidSection => IniErrorModel::InvalidSection,
            IniError::InvalidContent => IniErrorModel::InvalidContent,
            IniError::SectionNotFound { section } => IniErrorModel::SectionNotFound {
                section: section@,
            },
            IniError::OptionNotFound { section, option } => IniErrorModel::OptionNotFound {
                section: section@,
                option: option@,
            },
            IniError::NotBool { value } => IniErrorModel::NotBool { value: value@ },
            IniError::NotInt { value } => IniErrorModel::NotInt { value: value@ },
        }
    }
}

/// The wording of each error.
pub open spec fn message_text(e: IniErrorModel) -> Seq<char> {
    match e {
        IniErrorModel::InvalidSection =>
            "invalid section! please make sure that you have one '[' and one ']'"@,
        IniErrorModel::InvalidContent => "invalid ini content"@,
        IniErrorModel::SectionNotFound { section } => "section "@ + section + " does not exist"@,
        IniErrorModel::OptionNotFound { section, option } => "option "@ + option
            + " does not exist in section "@ + section,
        IniErrorModel::NotBool { value } => "option "@ + value + " is not supported as a boolean"@,
        IniErrorModel::NotInt { value } => "option "@ + value + " is not supported as an integer"@,
    }
}

impl IniError {
    /// The error in words, with the section, key or value that it is about.
    pub fn message(&self) -> (text: String)
        ensures
            text@ == message_text(self@),
    {
        match self {
            IniError::InvalidSection => String::from_str(
                "invalid section! please make sure that you have one '[' and one ']'",
            ),
            IniError::InvalidContent => String::from_str("invalid ini content"),
            IniError::SectionNotFound { section } => {
                let mut text = String::from_str("section ");
                text.append(section.as_str());
                text.append(" does not exist");
                text
            },
            IniError::OptionNotFound { section, option } => {
                let mut text = String::from_str("option ");
                text.append(option.as_str());
                text.append(" does not exist in section ");
                text.append(section.as_str());
                text
            },
            IniError::NotBool { value } => {
                let mut text = String::from_str("option ");
                text.append(value.as_str());
                text.append(" is not supported as a boolean");
                text
            },
            IniError::NotInt { value } => {
                let mut text = String::from_str("option ");
                text.append(value.as_str());
                text.append(" is not supported as an integer");
                text
            },
        }
    }
}

} // verus!
