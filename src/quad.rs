//! Splitting one quad line into the texts of its terms.
//!
//! A line is cut at Unicode whitespace. The first two tokens are the subject and
//! predicate; the third is the object, either an IRI or blank node, or a quoted
//! literal whose datatype follows `^^` right after the closing quote or as the
//! next token. A further token, other than the closing `.`, names the graph.
use vstd::prelude::*;
use vstd::string::StrSliceExecFns;
use vstd::string::StringExecFns;
use crate::encoder::chars_of;

verus! {

/// `char::is_whitespace`: the characters of Unicode's White_Space property.
pub open spec fn is_ws(c: char) -> bool {
    ('\u{9}' <= c && c <= '\u{d}') || c == ' ' || c == '\u{85}' || c == '\u{a0}'
        || c == '\u{1680}' || ('\u{2000}' <= c && c <= '\u{200a}') || c == '\u{2028}'
        || c == '\u{2029}' || c == '\u{202f}' || c == '\u{205f}' || c == '\u{3000}'
}

/// The first index from `i` on that holds no whitespace.
pub open spec fn skip_ws(s: Seq<char>, i: int) -> int
    decreases s.len() - i,
{
    if 0 <= i < s.len() && is_ws(s[i]) {
        skip_ws(s, i + 1)
    } else {
        i
    }
}

/// The first index from `i` on that holds whitespace.
pub open spec fn skip_token(s: Seq<char>, i: int) -> int
    decreases s.len() - i,
{
    if 0 <= i < s.len() && !is_ws(s[i]) {
        skip_token(s, i + 1)
    } else {
        i
    }
}

/// Start and end of the `k`-th token; the start is the line's length when there is none.
pub open spec fn token_span(s: Seq<char>, k: nat) -> (int, int)
    decreases k,
{
    let from = if k == 0 { 0 } else { token_span(s, (k - 1) as nat).1 };
    let a = skip_ws(s, from);
    (a, skip_token(s, a))
}

pub open spec fn has_token(s: Seq<char>, k: nat) -> bool {
    token_span(s, k).0 < s.len()
}

pub open spec fn span_text(s: Seq<char>, sp: (int, int)) -> Seq<char> {
    s.subrange(sp.0, sp.1)
}

/// Start of `s[lo..hi]` once every leading `c` is removed.
pub open spec fn trim_lo(s: Seq<char>, lo: int, hi: int, c: char) -> int
    decreases hi - lo,
{
    if lo < hi && s[lo] == c {
        trim_lo(s, lo + 1, hi, c)
    } else {
        lo
    }
}

/// End of `s[lo..hi]` once every trailing `c` is removed.
pub open spec fn trim_hi(s: Seq<char>, lo: int, hi: int, c: char) -> int
    decreases hi - lo,
{
    if lo < hi && s[hi - 1] == c {
        trim_hi(s, lo, hi - 1, c)
    } else {
        hi
    }
}

/// `s[lo..hi]` with `<` removed from both ends, then `>` from both ends.
pub open spec fn iri_span(s: Seq<char>, lo: int, hi: int) -> (int, int) {
    let l1 = trim_lo(s, lo, hi, '<');
    let h1 = trim_hi(s, l1, hi, '<');
    let l2 = trim_lo(s, l1, h1, '>');
    (l2, trim_hi(s, l2, h1, '>'))
}

/// Start of `s[lo..hi]` once every leading `^^` is removed.
pub open spec fn caret_lo(s: Seq<char>, lo: int, hi: int) -> int
    decreases hi - lo,
{
    if lo + 2 <= hi && s[lo] == '^' && s[lo + 1] == '^' {
        caret_lo(s, lo + 2, hi)
    } else {
        lo
    }
}

/// The first index from `i` on, before `hi`, that holds a double quote; else `hi`.
pub open spec fn quote_end(s: Seq<char>, i: int, hi: int) -> int
    decreases hi - i,
{
    if i < hi && s[i] != '"' {
        quote_end(s, i + 1, hi)
    } else {
        i
    }
}

/// `s[lo..hi]` contains `int`.
pub open spec fn mentions_int(s: Seq<char>, lo: int, hi: int) -> bool {
    exists|j: int| lo <= j && j + 3 <= hi && s[j] == 'i' && #[trigger] s[j + 1] == 'n' && s[j + 2] == 't'
}

/// The object token starts with a double quote.
pub open spec fn is_literal(s: Seq<char>) -> bool {
    has_token(s, 2) && s[token_span(s, 2).0] == '"'
}

pub open spec fn literal_end(s: Seq<char>) -> int {
    quote_end(s, token_span(s, 2).0 + 1, token_span(s, 2).1)
}

/// The literal's text between its opening quote and the next quote.
pub open spec fn literal_body(s: Seq<char>) -> Seq<char> {
    s.subrange(token_span(s, 2).0 + 1, literal_end(s))
}

/// `^^` follows the closing quote within the object token.
pub open spec fn inline_datatype(s: Seq<char>) -> bool {
    let q = literal_end(s);
    q < token_span(s, 2).1 && caret_lo(s, q + 1, token_span(s, 2).1) != q + 1
}

/// The token after the object starts with `^^`.
pub open spec fn next_datatype(s: Seq<char>) -> bool {
    !inline_datatype(s) && has_token(s, 3)
        && caret_lo(s, token_span(s, 3).0, token_span(s, 3).1) != token_span(s, 3).0
}

pub open spec fn is_typed(s: Seq<char>) -> bool {
    is_literal(s) && (inline_datatype(s) || next_datatype(s))
}

/// Where the datatype IRI of a typed literal stands.
pub open spec fn datatype_span(s: Seq<char>) -> (int, int) {
    if inline_datatype(s) {
        let hi = token_span(s, 2).1;
        iri_span(s, caret_lo(s, literal_end(s) + 1, hi), hi)
    } else {
        let t = token_span(s, 3);
        iri_span(s, caret_lo(s, t.0, t.1), t.1)
    }
}

pub open spec fn subject_text(s: Seq<char>) -> Seq<char> {
    span_text(s, iri_span(s, token_span(s, 0).0, token_span(s, 0).1))
}

pub open spec fn predicate_text(s: Seq<char>) -> Seq<char> {
    span_text(s, iri_span(s, token_span(s, 1).0, token_span(s, 1).1))
}

/// The object as it is encoded: `body^^datatype` for a typed literal, the body
/// of another literal, else the token without its angle brackets.
pub open spec fn object_text(s: Seq<char>) -> Seq<char> {
    if is_typed(s) {
        literal_body(s) + seq!['^', '^'] + span_text(s, datatype_span(s))
    } else if is_literal(s) {
        literal_body(s)
    } else {
        span_text(s, iri_span(s, token_span(s, 2).0, token_span(s, 2).1))
    }
}

/// The literal's body where its datatype names an integer type, else `0`.
pub open spec fn numeric_text(s: Seq<char>) -> Seq<char> {
    if is_typed(s) && mentions_int(s, datatype_span(s).0, datatype_span(s).1) {
        literal_body(s)
    } else {
        seq!['0']
    }
}

/// The token that may name the graph: the one after the object and its datatype.
pub open spec fn graph_token(s: Seq<char>) -> nat {
    if is_literal(s) && next_datatype(s) { 4 } else { 3 }
}

pub open spec fn is_dot(s: Seq<char>, sp: (int, int)) -> bool {
    sp.1 == sp.0 + 1 && s[sp.0] == '.'
}

/// The graph's name, or empty text for the default graph.
pub open spec fn graph_text(s: Seq<char>) -> Seq<char> {
    let t = token_span(s, graph_token(s));
    if has_token(s, graph_token(s)) && !is_dot(s, t) {
        span_text(s, iri_span(s, t.0, t.1))
    } else {
        Seq::empty()
    }
}

/// The texts of a quad's terms, and of its numeric value.
pub struct QuadText {
    pub subject: String,
    pub predicate: String,
    pub object: String,
    pub graph: String,
    pub numeric: String,
}

pub fn is_whitespace(c: char) -> (r: bool)
    ensures
        r == is_ws(c),
{
    ('\u{9}' <= c && c <= '\u{d}') || c == ' ' || c == '\u{85}' || c == '\u{a0}'
        || c == '\u{1680}' || ('\u{2000}' <= c && c <= '\u{200a}') || c == '\u{2028}'
        || c == '\u{2029}' || c == '\u{202f}' || c == '\u{205f}' || c == '\u{3000}'
}

/// The token that starts at or after `from`.
fn next_token(cs: &[char], from: usize) -> (r: (usize, usize))
    requires
        from <= cs@.len(),
    ensures
        r.0 == skip_ws(cs@, from as int),
        r.1 == skip_token(cs@, r.0 as int),
        from <= r.0 <= r.1 <= cs@.len(),
        r.0 < cs@.len() ==> r.0 < r.1,
{
    let mut a = from;
    while a < cs.len() && is_whitespace(cs[a])
        invariant
            from <= a <= cs@.len(),
            skip_ws(cs@, a as int) == skip_ws(cs@, from as int),
        decreases cs@.len() - a,
    {
        a = a + 1;
    }
    let mut b = a;
    while b < cs.len() && !is_whitespace(cs[b])
        invariant
            a <= b <= cs@.len(),
            (a < cs@.len() && b == a) ==> !is_ws(cs@[a as int]),
            skip_token(cs@, b as int) == skip_token(cs@, a as int),
        decreases cs@.len() - b,
    {
        b = b + 1;
    }
    (a, b)
}

fn trim_front(cs: &[char], lo: usize, hi: usize, c: char) -> (r: usize)
    requires
        lo <= hi <= cs@.len(),
    ensures
        r == trim_lo(cs@, lo as int, hi as int, c),
        lo <= r <= hi,
{
    let mut i = lo;
    while i < hi && cs[i] == c
        invariant
            lo <= i <= hi,
            hi <= cs@.len(),
            trim_lo(cs@, i as int, hi as int, c) == trim_lo(cs@, lo as int, hi as int, c),
        decreases hi - i,
    {
        i = i + 1;
    }
    i
}

fn trim_back(cs: &[char], lo: usize, hi: usize, c: char) -> (r: usize)
    requires
        lo <= hi <= cs@.len(),
    ensures
        r == trim_hi(cs@, lo as int, hi as int, c),
        lo <= r <= hi,
{
    let mut j = hi;
    while j > lo && cs[j - 1] == c
        invariant
            lo <= j <= hi,
            hi <= cs@.len(),
            trim_hi(cs@, lo as int, j as int, c) == trim_hi(cs@, lo as int, hi as int, c),
        decreases j - lo,
    {
        j = j - 1;
    }
    j
}

fn iri_bounds(cs: &[char], lo: usize, hi: usize) -> (r: (usize, usize))
    requires
        lo <= hi <= cs@.len(),
    ensures
        r.0 == iri_span(cs@, lo as int, hi as int).0,
        r.1 == iri_span(cs@, lo as int, hi as int).1,
        lo <= r.0 <= r.1 <= hi,
{
    let l1 = trim_front(cs, lo, hi, '<');
    let h1 = trim_back(cs, l1, hi, '<');
    let l2 = trim_front(cs, l1, h1, '>');
    (l2, trim_back(cs, l2, h1, '>'))
}

fn skip_carets(cs: &[char], lo: usize, hi: usize) -> (r: usize)
    requires
        lo <= hi <= cs@.len(),
    ensures
        r == caret_lo(cs@, lo as int, hi as int),
        lo <= r <= hi,
{
    let mut i = lo;
    while hi - i >= 2 && cs[i] == '^' && cs[i + 1] == '^'
        invariant
            lo <= i <= hi,
            hi <= cs@.len(),
            caret_lo(cs@, i as int, hi as int) == caret_lo(cs@, lo as int, hi as int),
        decreases hi - i,
    {
        i = i + 2;
    }
    i
}

fn find_quote(cs: &[char], from: usize, hi: usize) -> (r: usize)
    requires
        from <= hi <= cs@.len(),
    ensures
        r == quote_end(cs@, from as int, hi as int),
        from <= r <= hi,
{
    let mut i = from;
    while i < hi && cs[i] != '"'
        invariant
            from <= i <= hi,
            hi <= cs@.len(),
            quote_end(cs@, i as int, hi as int) == quote_end(cs@, from as int, hi as int),
        decreases hi - i,
    {
        i = i + 1;
    }
    i
}

fn has_int(cs: &[char], lo: usize, hi: usize) -> (r: bool)
    requires
        lo <= hi <= cs@.len(),
    ensures
        r == mentions_int(cs@, lo as int, hi as int),
{
    let mut j = lo;
    while j <= hi && hi - j >= 3
        invariant
            lo <= j,
            hi <= cs@.len(),
            forall|t: int| lo <= t < j ==> !(cs@[t] == 'i' && #[trigger] cs@[t + 1] == 'n' && cs@[t + 2] == 't'),
        decreases hi - j,
    {
        if cs[j] == 'i' && cs[j + 1] == 'n' && cs[j + 2] == 't' {
            return true;
        }
        j = j + 1;
    }
    false
}

/// Splits a quad line into the texts of its terms; `None` when it holds fewer
/// than three tokens.
pub fn parse_quad_line(line: &str) -> (r: Option<QuadText>)
    ensures
        r is Some <==> has_token(line@, 2),
        r matches Some(q) ==> {
            &&& q.subject@ == subject_text(line@)
            &&& q.predicate@ == predicate_text(line@)
            &&& q.object@ == object_text(line@)
            &&& q.graph@ == graph_text(line@)
            &&& q.numeric@ == numeric_text(line@)
        },
{
    let cs = chars_of(line);
    let ghost s = line@;
    let n = cs.len();
    let t0 = next_token(cs.as_slice(), 0);
    let t1 = next_token(cs.as_slice(), t0.1);
    let t2 = next_token(cs.as_slice(), t1.1);
    assert(token_span(s, 0) == (t0.0 as int, t0.1 as int));
    assert(token_span(s, 1) == (t1.0 as int, t1.1 as int));
    assert(token_span(s, 2) == (t2.0 as int, t2.1 as int));
    if t2.0 >= n {
        return None;
    }
    let t3 = next_token(cs.as_slice(), t2.1);
    assert(token_span(s, 3) == (t3.0 as int, t3.1 as int));
    let sp = iri_bounds(cs.as_slice(), t0.0, t0.1);
    let subject = line.substring_char(sp.0, sp.1).to_owned();
    let pp = iri_bounds(cs.as_slice(), t1.0, t1.1);
    let predicate = line.substring_char(pp.0, pp.1).to_owned();
    proof {
        reveal_strlit("0");
        reveal_strlit("^^");
    }
    let mut numeric = "0".to_owned();
    let object;
    let graph_at: usize;
    if cs[t2.0] == '"' {
        let q = find_quote(cs.as_slice(), t2.0 + 1, t2.1);
        let body = line.substring_char(t2.0 + 1, q);
        let inline = q < t2.1 && skip_carets(cs.as_slice(), q + 1, t2.1) != q + 1;
        let next = !inline && t3.0 < n && skip_carets(cs.as_slice(), t3.0, t3.1) != t3.0;
        if inline || next {
            let dp = if inline {
                iri_bounds(cs.as_slice(), skip_carets(cs.as_slice(), q + 1, t2.1), t2.1)
            } else {
                iri_bounds(cs.as_slice(), skip_carets(cs.as_slice(), t3.0, t3.1), t3.1)
            };
            let mut o = body.to_owned();
            o.append("^^");
            o.append(line.substring_char(dp.0, dp.1));
            object = o;
            if has_int(cs.as_slice(), dp.0, dp.1) {
                numeric = body.to_owned();
            }
        } else {
            object = body.to_owned();
        }
        graph_at = if next { t3.1 } else { t2.1 };
        assert(graph_token(s) == if next { 4nat } else { 3nat });
    } else {
        let op = iri_bounds(cs.as_slice(), t2.0, t2.1);
        object = line.substring_char(op.0, op.1).to_owned();
        graph_at = t2.1;
    }
    let tg = next_token(cs.as_slice(), graph_at);
    assert(token_span(s, graph_token(s)) == (tg.0 as int, tg.1 as int));
    let graph = if tg.0 < n && !(tg.1 == tg.0 + 1 && cs[tg.0] == '.') {
        let gp = iri_bounds(cs.as_slice(), tg.0, tg.1);
        line.substring_char(gp.0, gp.1).to_owned()
    } else {
        String::new()
    };
    Some(QuadText { subject, predicate, object, graph, numeric })
}

} // verus!
