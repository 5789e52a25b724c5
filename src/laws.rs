//! Properties of the encoding as a whole.
use crate::digits::{decimal_of, lemma_decimal_of, parses_as_u64, u64_value};
use crate::encoder::{
    encode_quad_spec, encoded_lines, in_field, numeric_value, skipped_line, term_value,
    NoirFriendlyEncoder, SMALL_INTEGER_LIMIT,
};
use vstd::prelude::*;

verus! {

/// A term's encoding and a numeric encoding are decimal numbers below the modulus.
pub proof fn lemma_term_in_field(t: Seq<char>, m: nat)
    requires
        m > SMALL_INTEGER_LIMIT,
    ensures
        in_field(decimal_of(term_value(t, m)), m),
        in_field(decimal_of(numeric_value(t, m)), m),
{
    lemma_decimal_of(term_value(t, m));
    lemma_decimal_of(numeric_value(t, m));
}

/// Each of the five elements of a quad line's encoding lies below the modulus.
pub proof fn lemma_quad_in_field(s: Seq<char>, m: nat)
    requires
        m > SMALL_INTEGER_LIMIT,
    ensures
        encode_quad_spec(s, m).len() == 5,
        forall|k: int| 0 <= k < 5 ==> in_field(#[trigger] encode_quad_spec(s, m)[k], m),
{
    lemma_term_in_field(crate::quad::subject_text(s), m);
    lemma_term_in_field(crate::quad::predicate_text(s), m);
    lemma_term_in_field(crate::quad::object_text(s), m);
    lemma_term_in_field(crate::quad::graph_text(s), m);
    lemma_term_in_field(crate::quad::numeric_text(s), m);
}

/// Every element of the output for any sequence of lines lies below the modulus.
pub proof fn lemma_lines_in_field(ls: Seq<Seq<char>>, m: nat)
    requires
        m > SMALL_INTEGER_LIMIT,
    ensures
        forall|k: int| 0 <= k < encoded_lines(ls, m).len() ==> in_field(#[trigger] encoded_lines(ls, m)[k], m),
    decreases ls.len(),
{
    if ls.len() > 0 {
        lemma_lines_in_field(ls.drop_last(), m);
        lemma_quad_in_field(ls.last(), m);
        let a = encoded_lines(ls.drop_last(), m);
        assert forall|k: int| 0 <= k < encoded_lines(ls, m).len() implies in_field(#[trigger] encoded_lines(ls, m)[k], m) by {
            if k < a.len() {
                assert(encoded_lines(ls, m)[k] == a[k]);
            } else {
                assert(encoded_lines(ls, m)[k] == encode_quad_spec(ls.last(), m)[k - a.len()]);
            }
        }
    }
}

/// Range invariant: whatever the lines, every element an encoder emits is a
/// decimal number strictly below its modulus.
pub proof fn range_invariant(enc: &NoirFriendlyEncoder, lines: Seq<Seq<char>>)
    requires
        enc.wf(),
    ensures
        forall|k: int| 0 <= k < encoded_lines(lines, enc.modulus_value()).len()
            ==> in_field(#[trigger] encoded_lines(lines, enc.modulus_value())[k], enc.modulus_value()),
{
    enc.lemma_modulus_above_limit();
    lemma_lines_in_field(lines, enc.modulus_value());
}

/// Determinism: two encoders over the same modulus give the same element for the
/// same term text, and the same elements for the same quad line.
pub proof fn encoding_is_deterministic(
    e1: &NoirFriendlyEncoder,
    e2: &NoirFriendlyEncoder,
    t1: Seq<char>,
    t2: Seq<char>,
)
    requires
        e1.modulus_value() == e2.modulus_value(),
        t1 == t2,
    ensures
        decimal_of(term_value(t1, e1.modulus_value())) == decimal_of(term_value(t2, e2.modulus_value())),
        decimal_of(numeric_value(t1, e1.modulus_value())) == decimal_of(numeric_value(t2, e2.modulus_value())),
        encode_quad_spec(t1, e1.modulus_value()) == encode_quad_spec(t2, e2.modulus_value()),
{
}

/// Independence of run order: the output for two runs of lines, one after the
/// other, is the output for the first followed by that for the second.
pub proof fn encoding_splits_over_lines(a: Seq<Seq<char>>, b: Seq<Seq<char>>, m: nat)
    ensures
        encoded_lines(a + b, m) == encoded_lines(a, m) + encoded_lines(b, m),
    decreases b.len(),
{
    if b.len() == 0 {
        assert(a + b =~= a);
        assert(encoded_lines(a, m) + encoded_lines(b, m) =~= encoded_lines(a, m));
    } else {
        assert((a + b).drop_last() =~= a + b.drop_last());
        assert((a + b).last() == b.last());
        encoding_splits_over_lines(a, b.drop_last(), m);
        if skipped_line(b.last()) {
        } else {
            assert(encoded_lines(a, m) + encoded_lines(b.drop_last(), m) + encode_quad_spec(b.last(), m)
                =~= encoded_lines(a, m) + (encoded_lines(b.drop_last(), m) + encode_quad_spec(b.last(), m)));
        }
    }
}

/// Order preservation: for `n` quad lines the output has `5 * n` elements, and
/// elements `5 * i` to `5 * i + 4` are the encoding of line `i`.
pub proof fn order_is_preserved(ls: Seq<Seq<char>>, m: nat)
    requires
        forall|i: int| 0 <= i < ls.len() ==> !skipped_line(#[trigger] ls[i]),
    ensures
        encoded_lines(ls, m).len() == 5 * ls.len(),
        forall|i: int| 0 <= i < ls.len()
            ==> encoded_lines(ls, m).subrange(5 * i, 5 * i + 5) == encode_quad_spec(#[trigger] ls[i], m),
    decreases ls.len(),
{
    if ls.len() > 0 {
        let init = ls.drop_last();
        assert forall|i: int| 0 <= i < init.len() implies !skipped_line(#[trigger] init[i]) by {
            assert(init[i] == ls[i]);
        }
        order_is_preserved(init, m);
        assert(!skipped_line(ls[ls.len() - 1]));
        let a = encoded_lines(init, m);
        let q = encode_quad_spec(ls.last(), m);
        assert(encoded_lines(ls, m) == a + q);
        assert forall|i: int| 0 <= i < ls.len()
            implies encoded_lines(ls, m).subrange(5 * i, 5 * i + 5) == encode_quad_spec(#[trigger] ls[i], m) by {
            if i < init.len() {
                assert(5 * i + 5 <= 5 * init.len()) by (nonlinear_arith)
                    requires i < init.len();
                assert(init[i] == ls[i]);
                assert((a + q).subrange(5 * i, 5 * i + 5) =~= a.subrange(5 * i, 5 * i + 5));
            } else {
                assert((a + q).subrange(5 * i, 5 * i + 5) =~= q);
            }
        }
    }
}

/// A numeric text that reads as a `u64` keeps its value, reduced modulo the
/// modulus; any other text takes the term encoding.
pub proof fn numeric_value_is_preserved(t: Seq<char>, m: nat)
    ensures
        parses_as_u64(t) ==> numeric_value(t, m) == u64_value(t) % m,
        !parses_as_u64(t) ==> numeric_value(t, m) == term_value(t, m),
{
}

/// Idempotent round trip: two runs over the same lines and the same modulus
/// produce the same element texts.
pub proof fn runs_are_reproducible(
    e1: &NoirFriendlyEncoder,
    e2: &NoirFriendlyEncoder,
    l1: Seq<Seq<char>>,
    l2: Seq<Seq<char>>,
)
    requires
        e1.modulus_value() == e2.modulus_value(),
        l1 == l2,
    ensures
        encoded_lines(l1, e1.modulus_value()) == encoded_lines(l2, e2.modulus_value()),
{
}

} // verus!
