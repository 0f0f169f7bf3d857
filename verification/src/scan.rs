//! Reading lines: the executable side of the grammar.

use crate::chars::{count_char, find_char};
use crate::grammar::{LineModel, classify, lemma_equals_inside, strip_returns};
use crate::text::from_chars;
use vstd::prelude::*;

verus! {

/// A line as the parser reads it.
#[derive(Debug, PartialEq, Eq)]
pub enum Line {
    /// A line of no characters.
    Blank,
    /// `[name]`
    Header { name: String },
    /// `key=value` or `key = value`
    Pair { key: String, value: String },
    /// A line that begins with `;`.
    Comment,
    /// A line in brackets with a further bracket in it.
    BadHeader,
    /// Anything else.
    BadContent,
}

impl View for Line {
    type V = LineModel;

    open spec fn view(&self) -> LineModel {
        match self {
            Line::Blank => LineModel::Blank,
            Line::Header { name } => LineModel::Header { name: name@ },
            Line::Pair { key, value } => LineModel::Pair { key: key@, value: value@ },
            Line::Comment => LineModel::Comment,
            Line::BadHeader => LineModel::BadHeader,
            Line::BadContent => LineModel::BadContent,
        }
    }
}

/// `cs[from..to]` without its carriage returns.
pub(crate) fn without_returns(cs: &Vec<char>, from: usize, to: usize) -> (line: Vec<char>)
    requires
        from <= to <= cs.len(),
    ensures
        line@ == strip_returns(cs@.subrange(from as int, to as int)),
{
    let mut line: Vec<char> = Vec::new();
    let mut i: usize = from;
    proof {
        reveal(Seq::filter);
    }
    while i < to
        invariant
            from <= i <= to <= cs.len(),
            line@ == strip_returns(cs@.subrange(from as int, i as int)),
        decreases to - i,
    {
        proof {
            reveal(Seq::filter);
            assert(cs@.subrange(from as int, i + 1).drop_last() == cs@.subrange(
                from as int,
                i as int,
            ));
        }
        if cs[i] != '\r' {
            line.push(cs[i]);
        }
        i += 1;
    }
    line
}

/// Reads one line, already without its carriage returns.
pub fn classify_line(line: &Vec<char>, in_section: bool) -> (r: Line)
    ensures
        r@ == classify(line@, in_section),
{
    let n = line.len();
    if n == 0 {
        return Line::Blank;
    }
    let first = line[0];
    let last = line[n - 1];
    if first == '[' && last == ']' {
        if count_char(line, '[') == 1 && count_char(line, ']') == 1 {
            return Line::Header { name: from_chars(line, 1, n - 1) };
        }
        return Line::BadHeader;
    }
    if in_section && count_char(line, '=') == 1 && first != '=' && first != ' ' && last != '='
        && last != ' ' {
        let e = find_char(line, 0, '=');
        proof {
            assert(line@.skip(0) == line@);
            lemma_equals_inside(line@);
        }
        if line[e - 1] == ' ' && line[e + 1] == ' ' {
            return Line::Pair { key: from_chars(line, 0, e - 1), value: from_chars(line, e + 2, n) };
        }
        return Line::Pair { key: from_chars(line, 0, e), value: from_chars(line, e + 1, n) };
    }
    if first == ';' {
        return Line::Comment;
    }
    Line::BadContent
}

} // verus!
