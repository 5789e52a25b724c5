//! Cutting a text into lines.
use vstd::prelude::*;
use vstd::string::StrSliceExecFns;
use crate::encoder::{chars_of, views};

verus! {

/// The first index from `i` on that holds a line feed; the length when none does.
pub open spec fn newline_at(s: Seq<char>, i: int) -> int
    decreases s.len() - i,
{
    if 0 <= i < s.len() && s[i] != '\n' {
        newline_at(s, i + 1)
    } else {
        i
    }
}

/// The line feed search stays within the text.
pub proof fn lemma_newline_bounds(s: Seq<char>, i: int)
    requires
        0 <= i <= s.len(),
    ensures
        i <= newline_at(s, i) <= s.len(),
    decreases s.len() - i,
{
    if i < s.len() && s[i] != '\n' {
        lemma_newline_bounds(s, i + 1);
    }
}

/// End of the line that runs from `p` to the line feed at `nl`, without a
/// carriage return just before that line feed.
pub open spec fn line_end(s: Seq<char>, p: int, nl: int) -> int {
    if nl < s.len() && p < nl && s[nl - 1] == '\r' {
        nl - 1
    } else {
        nl
    }
}

/// The lines of `s` from index `p` on. Lines end at `\n` or `\r\n`; the last
/// line ending is optional.
pub open spec fn lines_from(s: Seq<char>, p: int) -> Seq<Seq<char>>
    decreases s.len() - p,
{
    if p < 0 || p >= s.len() {
        Seq::empty()
    } else {
        let nl = newline_at(s, p);
        // `p <= nl <= s.len()` always holds (`lemma_newline_bounds`); the test only eases termination
        let next = if p <= nl < s.len() { nl + 1 } else { s.len() as int };
        seq![s.subrange(p, line_end(s, p, nl))] + lines_from(s, next)
    }
}

/// Cuts `text` into its lines.
pub fn split_lines(text: &str) -> (r: Vec<String>)
    ensures
        views(r@) == lines_from(text@, 0),
{
    let cs = chars_of(text);
    let n = cs.len();
    let mut out: Vec<String> = Vec::new();
    let mut p: usize = 0;
    while p < n
        invariant
            p <= n,
            n == text@.len(),
            cs@ == text@,
            views(out@) + lines_from(text@, p as int) == lines_from(text@, 0),
        decreases n - p,
    {
        let mut nl = p;
        while nl < n && cs[nl] != '\n'
            invariant
                p <= nl <= n,
                n == cs@.len(),
                newline_at(cs@, nl as int) == newline_at(cs@, p as int),
            decreases n - nl,
        {
            nl = nl + 1;
        }
        let end = if nl < n && p < nl && cs[nl - 1] == '\r' { nl - 1 } else { nl };
        proof {
            lemma_newline_bounds(text@, p as int);
        }
        let line = text.substring_char(p, end).to_owned();
        let ghost before = out@;
        out.push(line);
        let next = if nl < n { nl + 1 } else { n };
        assert(newline_at(text@, p as int) == nl);
        assert(line_end(text@, p as int, nl as int) == end);
        assert(lines_from(text@, p as int)
            == seq![text@.subrange(p as int, end as int)] + lines_from(text@, next as int));
        assert(views(out@) =~= views(before).push(text@.subrange(p as int, end as int)));
        assert(views(out@) + lines_from(text@, next as int) =~= views(before) + lines_from(text@, p as int));
        p = next;
    }
    assert(views(out@) + lines_from(text@, p as int) =~= views(out@));
    out
}

} // verus!
