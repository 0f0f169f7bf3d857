//! The canonical text of a document.

use crate::model::{DocumentModel, SectionModel};
use crate::store::{option_entries, options_get_index, options_len};
use crate::text::{from_chars, to_chars};
use indexmap::IndexMap;
use vstd::prelude::*;
use vstd::string::StringExecFns;

verus! {

/// One option as a line: key, ` = `, value, line feed.
pub open spec fn render_option(option: (Seq<char>, Seq<char>)) -> Seq<char> {
    option.0 + " = "@ + option.1 + "\n"@
}

/// The lines of the options, in order.
pub open spec fn render_options(options: SectionModel) -> Seq<char>
    decreases options.len(),
{
    if options.len() == 0 {
        Seq::empty()
    } else {
        render_options(options.drop_last()) + render_option(options.last())
    }
}

/// One section: its header line, its options, and an empty line.
pub open spec fn render_section(section: (Seq<char>, SectionModel)) -> Seq<char> {
    "["@ + section.0 + "]\n"@ + render_options(section.1) + "\n"@
}

/// All sections, in order.
pub open spec fn render(doc: DocumentModel) -> Seq<char>
    decreases doc.len(),
{
    if doc.len() == 0 {
        Seq::empty()
    } else {
        render(doc.drop_last()) + render_section(doc.last())
    }
}

/// White space: the characters that Unicode gives the property `White_Space`.
pub open spec fn is_space(c: char) -> bool {
    ||| '\u{9}' <= c <= '\u{d}'
    ||| c == ' '
    ||| c == '\u{85}'
    ||| c == '\u{a0}'
    ||| c == '\u{1680}'
    ||| '\u{2000}' <= c <= '\u{200a}'
    ||| c == '\u{2028}'
    ||| c == '\u{2029}'
    ||| c == '\u{202f}'
    ||| c == '\u{205f}'
    ||| c == '\u{3000}'
}

/// `s` without the white space at its end.
pub open spec fn trim_end(s: Seq<char>) -> Seq<char>
    decreases s.len(),
{
    if s.len() > 0 && is_space(s.last()) {
        trim_end(s.drop_last())
    } else {
        s
    }
}

/// The canonical text: every section rendered, and the white space at the
/// end of the whole taken off.
pub open spec fn serialize(doc: DocumentModel) -> Seq<char> {
    trim_end(render(doc))
}

/// Whether `c` is white space.
pub fn is_whitespace(c: char) -> (r: bool)
    ensures
        r == is_space(c),
{
    ('\u{9}' <= c && c <= '\u{d}') || c == ' ' || c == '\u{85}' || c == '\u{a0}' || c
        == '\u{1680}' || ('\u{2000}' <= c && c <= '\u{200a}') || c == '\u{2028}' || c
        == '\u{2029}' || c == '\u{202f}' || c == '\u{205f}' || c == '\u{3000}'
}

/// `s` without the white space at its end.
pub fn trimmed(s: &str) -> (r: String)
    ensures
        r@ == trim_end(s@),
{
    let cs = to_chars(s);
    let mut n: usize = cs.len();
    proof {
        assert(cs@.take(n as int) == cs@);
    }
    while n > 0 && is_whitespace(cs[n - 1])
        invariant
            n <= cs.len(),
            trim_end(cs@) == trim_end(cs@.take(n as int)),
        decreases n,
    {
        proof {
            assert(cs@.take(n as int).drop_last() == cs@.take(n - 1));
        }
        n -= 1;
    }
    from_chars(&cs, 0, n)
}

/// Appends the lines of one section to `out`.
pub(crate) fn write_section(out: &mut String, name: &String, info: &IndexMap<String, String>)
    ensures
        final(out)@ == old(out)@ + render_section((name@, option_entries(*info))),
{
    let ghost options = option_entries(*info);
    out.append("[");
    out.append(name.as_str());
    out.append("]\n");
    let ghost head = out@;
    let n = options_len(info);
    let mut i: usize = 0;
    while i < n
        invariant
            i <= n == options.len(),
            options == option_entries(*info),
            out@ == head + render_options(options.take(i as int)),
        decreases n - i,
    {
        if let Some((key, value)) = options_get_index(info, i) {
            out.append(key.as_str());
            out.append(" = ");
            out.append(value.as_str());
            out.append("\n");
        }
        proof {
            let done = options.take(i + 1);
            assert(done.drop_last() == options.take(i as int));
            assert(done.last() == options[i as int]);
            assert(out@ =~= head + render_options(done));
        }
        i += 1;
    }
    out.append("\n");
    proof {
        assert(options.take(n as int) == options);
        assert(out@ =~= old(out)@ + render_section((name@, options)));
    }
}

} // verus!
