//! The field encoder: term and numeric encodings over a fixed modulus.
use crate::digits::{
    dec_value, decimal_of, is_decimal_text, is_digit, parse_u64, parses_as_u64, u64_value,
};
use crate::field::{be_value, decimal_below, reduce_be_bytes, reduce_u64, sha256_digest, sha256_of};
use crate::quad::{
    graph_text, has_token, is_whitespace, is_ws, numeric_text, object_text, parse_quad_line,
    predicate_text, subject_text,
};
use vstd::prelude::*;
use vstd::string::StrSliceExecFns;

verus! {

/// Integers below this bound are encoded as themselves, without hashing.
pub const SMALL_INTEGER_LIMIT: u64 = 1000000;

/// The scalar-field order of the BN254 curve, in decimal.
pub const BN254_SCALAR_MODULUS: &'static str = "21888242871839275222246405745257275088548364400416034343698204186575808495617";

/// Why encoding stopped.
#[derive(Debug, PartialEq, Eq)]
pub enum EncodeError {
    /// The modulus text is not a decimal integer above the small-integer limit.
    ConfigError,
    /// A quad line holds fewer than three whitespace-separated tokens.
    MalformedQuad { line: usize, text: String },
    /// An output element is not a decimal number below the modulus.
    RangeInvariantViolation { index: usize },
}

/// `t` is a decimal integer below `m`.
pub open spec fn in_field(t: Seq<char>, m: nat) -> bool {
    is_decimal_text(t) && dec_value(t) < m
}

/// `t` reads as a `u64` below the small-integer limit.
pub open spec fn is_small_integer(t: Seq<char>) -> bool {
    parses_as_u64(t) && u64_value(t) < SMALL_INTEGER_LIMIT
}

/// The digest of a term's UTF-8 bytes, as a number reduced modulo `m`.
pub open spec fn hashed_value(t: Seq<char>, m: nat) -> nat {
    be_value(sha256_of(vstd::utf8::encode_utf8(t))) % m
}

/// The value a term is encoded as.
pub open spec fn term_value(t: Seq<char>, m: nat) -> nat {
    if is_small_integer(t) {
        u64_value(t)
    } else {
        hashed_value(t, m)
    }
}

/// The value a numeric slot is encoded as: the integer itself reduced modulo `m`,
/// or the term encoding when the text is no `u64`.
pub open spec fn numeric_value(t: Seq<char>, m: nat) -> nat {
    if parses_as_u64(t) {
        u64_value(t) % m
    } else {
        term_value(t, m)
    }
}

/// The texts of a sequence of strings.
pub open spec fn views(v: Seq<String>) -> Seq<Seq<char>> {
    v.map_values(|x: String| x@)
}

/// The five field elements of a quad line: subject, predicate, object, graph
/// and numeric value, each in canonical decimal.
pub open spec fn encode_quad_spec(s: Seq<char>, m: nat) -> Seq<Seq<char>> {
    seq![
        decimal_of(term_value(subject_text(s), m)),
        decimal_of(term_value(predicate_text(s), m)),
        decimal_of(term_value(object_text(s), m)),
        decimal_of(term_value(graph_text(s), m)),
        decimal_of(numeric_value(numeric_text(s), m)),
    ]
}

/// A blank line, or one that starts with `#`: it holds no quad.
pub open spec fn skipped_line(s: Seq<char>) -> bool {
    (forall|i: int| 0 <= i < s.len() ==> is_ws(#[trigger] s[i])) || (s.len() > 0 && s[0] == '#')
}

/// A line that should hold a quad but has fewer than three tokens.
pub open spec fn malformed_line(s: Seq<char>) -> bool {
    !skipped_line(s) && !has_token(s, 2)
}

/// The output for a sequence of lines: the five elements of each quad line, in order.
pub open spec fn encoded_lines(ls: Seq<Seq<char>>, m: nat) -> Seq<Seq<char>>
    decreases ls.len(),
{
    if ls.len() == 0 {
        Seq::empty()
    } else if skipped_line(ls.last()) {
        encoded_lines(ls.drop_last(), m)
    } else {
        encoded_lines(ls.drop_last(), m) + encode_quad_spec(ls.last(), m)
    }
}

/// Whether `line` is blank or a comment.
pub fn is_skipped_line(line: &str) -> (r: bool)
    ensures
        r == skipped_line(line@),
{
    let cs = chars_of(line);
    if cs.len() > 0 && cs[0] == '#' {
        return true;
    }
    let mut i: usize = 0;
    while i < cs.len()
        invariant
            i <= cs@.len(),
            cs@ == line@,
            !(cs@.len() > 0 && cs@[0] == '#'),
            forall|j: int| 0 <= j < i ==> is_ws(#[trigger] cs@[j]),
        decreases cs@.len() - i,
    {
        if !is_whitespace(cs[i]) {
            assert(!is_ws(line@[i as int]));
            return false;
        }
        i = i + 1;
    }
    true
}

/// The characters of `s`, one by one.
pub fn chars_of(s: &str) -> (r: Vec<char>)
    ensures
        r@ == s@,
{
    let n = s.unicode_len();
    let mut r: Vec<char> = Vec::new();
    let mut i: usize = 0;
    while i < n
        invariant
            i <= n,
            n == s@.len(),
            r@ == s@.subrange(0, i as int),
        decreases n - i,
    {
        r.push(s.get_char(i));
        i = i + 1;
        assert(r@ =~= s@.subrange(0, i as int));
    }
    assert(r@ =~= s@);
    r
}

/// Encodes RDF terms as field elements below a fixed modulus.
pub struct NoirFriendlyEncoder {
    modulus: String,
}

impl NoirFriendlyEncoder {
    /// The modulus as a number.
    pub closed spec fn modulus_value(&self) -> nat {
        dec_value(self.modulus@)
    }

    /// The modulus is decimal text whose value exceeds the small-integer limit.
    pub closed spec fn wf(&self) -> bool {
        is_decimal_text(self.modulus@) && dec_value(self.modulus@) > SMALL_INTEGER_LIMIT
    }

    /// A well-formed encoder's modulus lies above the small-integer limit.
    pub proof fn lemma_modulus_above_limit(&self)
        requires
            self.wf(),
        ensures
            self.modulus_value() > SMALL_INTEGER_LIMIT,
    {
    }

    /// An encoder over the modulus written in decimal by `modulus`.
    pub fn new(modulus: &str) -> (r: Result<Self, EncodeError>)
        ensures
            r is Ok <==> is_decimal_text(modulus@) && dec_value(modulus@) > SMALL_INTEGER_LIMIT,
            r matches Ok(e) ==> e.wf() && e.modulus_value() == dec_value(modulus@),
            r matches Err(e) ==> e == EncodeError::ConfigError,
    {
        let cs = chars_of(modulus);
        let n = cs.len();
        if n == 0 {
            return Err(EncodeError::ConfigError);
        }
        let cap: u64 = SMALL_INTEGER_LIMIT + 1;
        // `v` is the value of the digits read so far, capped at `cap`.
        let mut v: u64 = 0;
        let mut i: usize = 0;
        while i < n
            invariant
                i <= n,
                n == cs@.len(),
                cs@ == modulus@,
                forall|j: int| 0 <= j < i ==> is_digit(#[trigger] cs@[j]),
                cap == SMALL_INTEGER_LIMIT + 1,
                v <= cap,
                v == (if dec_value(cs@.subrange(0, i as int)) < cap {
                    dec_value(cs@.subrange(0, i as int))
                } else {
                    cap as nat
                }),
            decreases n - i,
        {
            let c = cs[i];
            if !('0' <= c && c <= '9') {
                assert(!is_digit(modulus@[i as int]));
                return Err(EncodeError::ConfigError);
            }
            proof {
                crate::digits::lemma_prefix_step(cs@, i as int);
            }
            let d: u64 = (c as u32 - '0' as u32) as u64;
            assert(d <= 9);
            assert(v * 10 + d <= 10 * cap + 9) by (nonlinear_arith)
                requires v <= cap, d <= 9;
            let w: u64 = v * 10 + d;
            v = if w < cap { w } else { cap };
            i = i + 1;
        }
        assert(cs@.subrange(0, n as int) =~= cs@);
        if v < cap {
            return Err(EncodeError::ConfigError);
        }
        Ok(NoirFriendlyEncoder { modulus: modulus.to_owned() })
    }

    /// Reduces a digest, read as a big-endian number, modulo the modulus.
    pub fn field_of_digest(&self, digest: &[u8]) -> (r: String)
        requires
            self.wf(),
        ensures
            r@ == decimal_of(be_value(digest@) % self.modulus_value()),
    {
        reduce_be_bytes(digest, self.modulus.as_str())
    }

    /// Encodes `term` by hashing: its SHA-256 digest reduced modulo the modulus.
    pub fn encode_string_term(&self, term: &str) -> (r: String)
        requires
            self.wf(),
        ensures
            r@ == decimal_of(hashed_value(term@, self.modulus_value())),
    {
        let digest = sha256_digest(term);
        self.field_of_digest(digest.as_slice())
    }

    /// Encodes a numeric literal: a `u64` is reduced modulo the modulus,
    /// anything else takes the term encoding.
    pub fn encode_numeric_term(&self, value: &str) -> (r: String)
        requires
            self.wf(),
        ensures
            r@ == decimal_of(numeric_value(value@, self.modulus_value())),
    {
        let cs = chars_of(value);
        match parse_u64(cs.as_slice()) {
            Some(n) => reduce_u64(n, self.modulus.as_str()),
            None => self.term_to_field_element(value),
        }
    }

    /// Encodes a term: an integer below the small-integer limit stands for
    /// itself, anything else is hashed.
    pub fn term_to_field_element(&self, term: &str) -> (r: String)
        requires
            self.wf(),
        ensures
            r@ == decimal_of(term_value(term@, self.modulus_value())),
    {
        let cs = chars_of(term);
        match parse_u64(cs.as_slice()) {
            Some(n) => {
                if n < SMALL_INTEGER_LIMIT {
                    // below the modulus, so the reduction leaves it as it is
                    assert(n as nat % self.modulus_value() == n as nat) by (nonlinear_arith)
                        requires n < self.modulus_value();
                    reduce_u64(n, self.modulus.as_str())
                } else {
                    self.encode_string_term(term)
                }
            },
            None => self.encode_string_term(term),
        }
    }

    /// Encodes one quad line as its five field elements.
    pub fn process_quad(&self, quad_str: &str, quad_index: usize) -> (r: Result<Vec<String>, EncodeError>)
        requires
            self.wf(),
        ensures
            r is Ok <==> has_token(quad_str@, 2),
            r matches Ok(v) ==> views(v@) == encode_quad_spec(quad_str@, self.modulus_value()),
            r matches Err(e) ==> (e matches EncodeError::MalformedQuad { line, text }
                && line == quad_index && text@ == quad_str@),
    {
        match parse_quad_line(quad_str) {
            None => Err(EncodeError::MalformedQuad { line: quad_index, text: quad_str.to_owned() }),
            Some(q) => {
                let s = self.term_to_field_element(q.subject.as_str());
                let p = self.term_to_field_element(q.predicate.as_str());
                let o = self.term_to_field_element(q.object.as_str());
                let g = self.term_to_field_element(q.graph.as_str());
                let n = self.encode_numeric_term(q.numeric.as_str());
                let v = vec![s, p, o, g, n];
                assert(views(v@) =~= encode_quad_spec(quad_str@, self.modulus_value()));
                Ok(v)
            },
        }
    }

    /// Encodes every quad line in order, skipping blank and comment lines; the
    /// first malformed line stops the run.
    pub fn encode_lines(&self, lines: &Vec<String>) -> (r: Result<Vec<String>, EncodeError>)
        requires
            self.wf(),
        ensures
            r is Ok <==> forall|i: int| 0 <= i < lines@.len() ==> !malformed_line(#[trigger] lines@[i]@),
            r matches Ok(v) ==> views(v@) == encoded_lines(views(lines@), self.modulus_value()),
            r matches Err(e) ==> (e matches EncodeError::MalformedQuad { line, text }
                && line < lines@.len() && malformed_line(lines@[line as int]@)
                && text@ == lines@[line as int]@
                && forall|j: int| 0 <= j < line ==> !malformed_line(#[trigger] lines@[j]@)),
    {
        let mut out: Vec<String> = Vec::new();
        let mut i: usize = 0;
        while i < lines.len()
            invariant
                self.wf(),
                i <= lines@.len(),
                forall|j: int| 0 <= j < i ==> !malformed_line(#[trigger] lines@[j]@),
                views(out@) == encoded_lines(views(lines@).subrange(0, i as int), self.modulus_value()),
            decreases lines@.len() - i,
        {
            let line = lines[i].as_str();
            let ghost pre = views(lines@).subrange(0, i as int);
            assert(views(lines@).subrange(0, i + 1).drop_last() =~= pre);
            assert(views(lines@).subrange(0, i + 1).last() == lines@[i as int]@);
            if !is_skipped_line(line) {
                match self.process_quad(line, i) {
                    Ok(v) => {
                        let ghost before = out@;
                        let mut v = v;
                        out.append(&mut v);
                        assert(views(out@) =~= views(before) + encode_quad_spec(line@, self.modulus_value()));
                    },
                    Err(e) => {
                        return Err(e);
                    },
                }
            }
            i = i + 1;
        }
        assert(views(lines@).subrange(0, lines@.len() as int) =~= views(lines@));
        Ok(out)
    }

    /// Checks that every element is a decimal number below the modulus; the first
    /// one that is not is reported by its index.
    pub fn check_range(&self, elements: &Vec<String>) -> (r: Result<(), EncodeError>)
        requires
            self.wf(),
        ensures
            r is Ok <==> forall|k: int| 0 <= k < elements@.len() ==> in_field(#[trigger] elements@[k]@, self.modulus_value()),
            r matches Err(e) ==> (e matches EncodeError::RangeInvariantViolation { index }
                && index < elements@.len()
                && !in_field(elements@[index as int]@, self.modulus_value())
                && forall|k: int| 0 <= k < index ==> in_field(#[trigger] elements@[k]@, self.modulus_value())),
    {
        let mut i: usize = 0;
        while i < elements.len()
            invariant
                self.wf(),
                i <= elements@.len(),
                forall|k: int| 0 <= k < i ==> in_field(#[trigger] elements@[k]@, self.modulus_value()),
            decreases elements@.len() - i,
        {
            let e = elements[i].as_str();
            let cs = chars_of(e);
            let mut digits = cs.len() > 0;
            let mut j: usize = 0;
            while j < cs.len()
                invariant
                    j <= cs@.len(),
                    cs@ == e@,
                    digits == (cs@.len() > 0 && forall|t: int| 0 <= t < j ==> is_digit(#[trigger] cs@[t])),
                decreases cs@.len() - j,
            {
                let c = cs[j];
                if !('0' <= c && c <= '9') {
                    digits = false;
                }
                j = j + 1;
            }
            if !digits || !decimal_below(e, self.modulus.as_str()) {
                return Err(EncodeError::RangeInvariantViolation { index: i });
            }
            i = i + 1;
        }
        Ok(())
    }
}

} // verus!
