//! How the parser reads a text part by part: the facts about lines on which
//! the laws of the library rest.

use crate::chars::{first_index, lemma_first_index, lemma_first_index_is_first, no_char};
use crate::error::IniErrorModel;
use crate::grammar::{ParseState, lemma_lines_unfold, lines, run, step, strip_returns};
use vstd::prelude::*;

verus! {

/// Text that fits on one line: neither a line feed nor a carriage return.
pub open spec fn plain(s: Seq<char>) -> bool {
    no_char(s, '\n') && no_char(s, '\r')
}

/// Text that ends where a line ends: empty, or closed by a line feed.
pub open spec fn complete(text: Seq<char>) -> bool {
    text.len() == 0 || text.last() == '\n'
}

/// The state after reading all lines of `text` from `st`.
pub open spec fn feed(st: ParseState, text: Seq<char>) -> Result<ParseState, IniErrorModel> {
    run(st, lines(text))
}

/// Reading `text` after what came before, unless that failed.
pub open spec fn then_feed(before: Result<ParseState, IniErrorModel>, text: Seq<char>) -> Result<
    ParseState,
    IniErrorModel,
> {
    match before {
        Ok(st) => feed(st, text),
        Err(e) => Err(e),
    }
}

/// A line without carriage returns is left as it is.
pub proof fn lemma_strip_plain(line: Seq<char>)
    requires
        no_char(line, '\r'),
    ensures
        strip_returns(line) == line,
    decreases line.len(),
{
    reveal(Seq::filter);
    if line.len() > 0 {
        let front = line.drop_last();
        assert forall|i: int| 0 <= i < front.len() implies front[i] != '\r' by {
            assert(front[i] == line[i]);
        }
        lemma_strip_plain(front);
        assert(front.push(line.last()) == line);
    }
}

/// What is left of a line has no carriage return, and no line feed where the
/// line had none.
pub proof fn lemma_strip_is_plain(line: Seq<char>)
    requires
        no_char(line, '\n'),
    ensures
        plain(strip_returns(line)),
    decreases line.len(),
{
    reveal(Seq::filter);
    if line.len() > 0 {
        let front = line.drop_last();
        assert forall|i: int| 0 <= i < front.len() implies front[i] != '\n' by {
            assert(front[i] == line[i]);
        }
        lemma_strip_is_plain(front);
    }
}

/// A line, its line feed, and more text: the line is read first, then the
/// rest.
pub proof fn lemma_feed_line(st: ParseState, line: Seq<char>, rest: Seq<char>)
    requires
        no_char(line, '\n'),
    ensures
        feed(st, line + seq!['\n'] + rest) == match step(st, strip_returns(line)) {
            Ok(next) => feed(next, rest),
            Err(e) => Err(e),
        },
{
    let text = line + seq!['\n'] + rest;
    lemma_first_index(text, '\n', line.len() as int);
    lemma_lines_unfold(text);
    assert(text.take(line.len() as int) == line);
    assert(text.skip(line.len() as int + 1) == rest);
}

/// A last line without a line feed is read as a line of its own.
pub proof fn lemma_feed_last_line(st: ParseState, line: Seq<char>)
    requires
        no_char(line, '\n'),
        line.len() > 0,
    ensures
        feed(st, line) == step(st, strip_returns(line)),
{
    lemma_first_index(line, '\n', line.len() as int);
    lemma_lines_unfold(line);
    assert(line.take(line.len() as int) == line);
    let tail = lines(line).drop_first();
    match step(st, strip_returns(line)) {
        Ok(next) => {
            assert(run(next, tail) == Ok::<ParseState, IniErrorModel>(next));
        },
        Err(_) => {},
    }
}

/// Text after complete lines is read from the state that those lines led to.
pub proof fn lemma_feed_concat(st: ParseState, a: Seq<char>, b: Seq<char>)
    requires
        complete(a),
    ensures
        feed(st, a + b) == then_feed(feed(st, a), b),
    decreases a.len(),
{
    if a.len() == 0 {
        assert(a + b == b);
        assert(lines(a) == Seq::<Seq<char>>::empty());
    } else {
        lemma_first_index_is_first(a, '\n');
        let n = first_index(a, '\n') as int;
        assert(n < a.len()) by {
            if n >= a.len() {
                assert(a[a.len() - 1] != '\n');
            }
        }
        let line = a.take(n);
        let more = a.skip(n + 1);
        assert(a == line + seq!['\n'] + more);
        assert(a + b == line + seq!['\n'] + (more + b));
        assert(complete(more)) by {
            if more.len() > 0 {
                assert(more.last() == a.last());
            }
        }
        lemma_feed_line(st, line, more);
        lemma_feed_line(st, line, more + b);
        match step(st, strip_returns(line)) {
            Ok(next) => {
                lemma_feed_concat(next, more, b);
            },
            Err(_) => {},
        }
    }
}

} // verus!
