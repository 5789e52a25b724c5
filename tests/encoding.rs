use noir_rdf_encoder::encoder::{EncodeError, NoirFriendlyEncoder, BN254_SCALAR_MODULUS};
use noir_rdf_encoder::input::split_lines;
use noir_rdf_encoder::quad::parse_quad_line;

const HASH_EMPTY: &str =
    "15434364762196996140549589341552222435606443046533897618586580254812431104081";
const HASH_S: &str = "7941858603477821832066653904248651327959321519119342349114381089893291192852";
const HASH_P: &str = "5699749080633308279774641499768647586030626571980046877598279170942789532253";
const HASH_TYPED_42: &str =
    "5659843509540937197162056624749504347731364967321017461341559067475589023797";

fn bn254() -> NoirFriendlyEncoder {
    NoirFriendlyEncoder::new(BN254_SCALAR_MODULUS).unwrap()
}

fn lines(ls: &[&str]) -> Vec<String> {
    ls.iter().map(|l| l.to_string()).collect()
}

#[test]
fn small_integers_stand_for_themselves() {
    let e = bn254();
    assert_eq!(e.term_to_field_element("42"), "42");
    assert_eq!(e.term_to_field_element("999999"), "999999");
    assert_eq!(e.term_to_field_element("0"), "0");
    assert_eq!(e.term_to_field_element("007"), "7");
    assert_eq!(e.term_to_field_element("+5"), "5");
}

#[test]
fn threshold_value_is_hashed() {
    let e = bn254();
    let r = e.term_to_field_element("1000000");
    assert_ne!(r, "1000000");
    assert_eq!(
        r,
        "5437650969457053109047956686585575057862931204976827866050044506116189892163"
    );
}

#[test]
fn string_terms_are_hashed_and_reduced() {
    let e = bn254();
    assert_eq!(e.encode_string_term(""), HASH_EMPTY);
    assert_eq!(e.term_to_field_element("http://s"), HASH_S);
    assert_eq!(
        e.term_to_field_element("hello"),
        "20329878786436204988385760252021328656300425018755239228739303522659023427620"
    );
}

#[test]
fn hashing_under_a_small_modulus() {
    let e = NoirFriendlyEncoder::new("1000003").unwrap();
    assert_eq!(e.encode_string_term("abc"), "127342");
}

#[test]
fn digest_reduction_reads_big_endian() {
    let e = NoirFriendlyEncoder::new("1000003").unwrap();
    assert_eq!(e.field_of_digest(&[1, 0]), "256");
    assert_eq!(e.field_of_digest(&[]), "0");
    assert_eq!(e.field_of_digest(&[0, 15, 66, 67]), "0");
}

#[test]
fn numeric_values_keep_their_magnitude() {
    let e = bn254();
    assert_eq!(e.encode_numeric_term("123"), "123");
    assert_eq!(e.encode_numeric_term("18446744073709551615"), "18446744073709551615");
    let small = NoirFriendlyEncoder::new("1000003").unwrap();
    assert_eq!(small.encode_numeric_term("5000000"), "999988");
}

#[test]
fn non_numeric_values_fall_back_to_terms() {
    let e = bn254();
    let r = e.encode_numeric_term("not_a_number");
    assert_eq!(r, e.term_to_field_element("not_a_number"));
    assert_eq!(
        r,
        "15024634136930604177893623065600549185426291041311494498538631054677388383449"
    );
    // one past u64::MAX is no u64, so it is hashed
    assert_ne!(e.encode_numeric_term("18446744073709551616"), "18446744073709551616");
}

#[test]
fn same_input_same_output() {
    let e = bn254();
    assert_eq!(e.term_to_field_element("http://x"), e.term_to_field_element("http://x"));
    let line = "<http://s> <http://p> <http://o> .";
    assert_eq!(e.process_quad(line, 0), e.process_quad(line, 3));
}

#[test]
fn typed_integer_literal_fills_numeric_slot() {
    let e = bn254();
    let line = "<http://s> <http://p> \"42\"^^<http://www.w3.org/2001/XMLSchema#integer> .";
    let v = e.process_quad(line, 0).unwrap();
    assert_eq!(v.len(), 5);
    assert_eq!(v[0], HASH_S);
    assert_eq!(v[1], HASH_P);
    assert_eq!(v[2], HASH_TYPED_42);
    assert_eq!(v[3], HASH_EMPTY);
    assert_eq!(v[4], e.encode_numeric_term("42"));
    assert_ne!(v[4], e.encode_numeric_term("0"));
}

#[test]
fn datatype_as_next_token() {
    let q = parse_quad_line("<a> <b> \"7\" ^^<http://x#int> <g> .").unwrap();
    assert_eq!(q.subject, "a");
    assert_eq!(q.predicate, "b");
    assert_eq!(q.object, "7^^http://x#int");
    assert_eq!(q.numeric, "7");
    assert_eq!(q.graph, "g");
}

#[test]
fn non_integer_datatype_gives_zero() {
    let q = parse_quad_line("<a> <b> \"x\"^^<http://x#string> .").unwrap();
    assert_eq!(q.object, "x^^http://x#string");
    assert_eq!(q.numeric, "0");
    assert_eq!(q.graph, "");
}

#[test]
fn plain_literal_and_iri_objects() {
    let q = parse_quad_line("_:b1 <b> \"hi\"@en .").unwrap();
    assert_eq!(q.subject, "_:b1");
    assert_eq!(q.object, "hi");
    assert_eq!(q.numeric, "0");
    let r = parse_quad_line("  <<a>>\t<b> <c>  ").unwrap();
    assert_eq!(r.subject, "a");
    assert_eq!(r.object, "c");
    assert_eq!(r.graph, "");
    let u = parse_quad_line("<a> <b> \"open").unwrap();
    assert_eq!(u.object, "open");
}

#[test]
fn two_tokens_are_malformed() {
    let e = bn254();
    let line = "<http://s> <http://p>";
    assert!(parse_quad_line(line).is_none());
    assert_eq!(
        e.process_quad(line, 4),
        Err(EncodeError::MalformedQuad { line: 4, text: line.to_string() })
    );
    let input = lines(&["<a> <b> <c> .", "<http://s> <http://p>", "<d> <e> <f> ."]);
    assert_eq!(
        e.encode_lines(&input),
        Err(EncodeError::MalformedQuad { line: 1, text: "<http://s> <http://p>".to_string() })
    );
}

#[test]
fn output_keeps_line_order() {
    let e = bn254();
    let input = lines(&[
        "# a comment",
        "<http://s> <http://p> <http://o> .",
        "   ",
        "",
        "<a> <b> \"3\"^^<http://www.w3.org/2001/XMLSchema#int> .",
    ]);
    let out = e.encode_lines(&input).unwrap();
    assert_eq!(out.len(), 10);
    assert_eq!(out[0..5].to_vec(), e.process_quad(&input[1], 1).unwrap());
    assert_eq!(out[5..10].to_vec(), e.process_quad(&input[4], 4).unwrap());
    assert_eq!(out[9], "3");
    assert_eq!(e.encode_lines(&lines(&[])).unwrap().len(), 0);
}

#[test]
fn repeated_runs_are_identical() {
    let e = bn254();
    let input = lines(&["<x> <y> <z> <g> .", "<x> <y> \"5\" ."]);
    let a = e.encode_lines(&input).unwrap();
    let b = bn254().encode_lines(&input).unwrap();
    assert_eq!(a, b);
}

#[test]
fn emitted_elements_lie_in_the_field() {
    let e = bn254();
    let input = lines(&["<http://s> <http://p> \"hello\" .", "<1> <2> <999999> ."]);
    let out = e.encode_lines(&input).unwrap();
    assert_eq!(e.check_range(&out), Ok(()));
}

#[test]
fn range_check_reports_first_offender() {
    let e = NoirFriendlyEncoder::new("1000003").unwrap();
    let good = lines(&["0", "1000002"]);
    assert_eq!(e.check_range(&good), Ok(()));
    let big = lines(&["5", "1000003", "x"]);
    assert_eq!(e.check_range(&big), Err(EncodeError::RangeInvariantViolation { index: 1 }));
    let text = lines(&["12a"]);
    assert_eq!(e.check_range(&text), Err(EncodeError::RangeInvariantViolation { index: 0 }));
    let empty = lines(&[""]);
    assert_eq!(e.check_range(&empty), Err(EncodeError::RangeInvariantViolation { index: 0 }));
}

#[test]
fn unusable_moduli_are_refused() {
    assert!(matches!(NoirFriendlyEncoder::new(""), Err(EncodeError::ConfigError)));
    assert!(matches!(NoirFriendlyEncoder::new("12x4567890"), Err(EncodeError::ConfigError)));
    assert!(matches!(NoirFriendlyEncoder::new("-7"), Err(EncodeError::ConfigError)));
    assert!(matches!(NoirFriendlyEncoder::new("1000000"), Err(EncodeError::ConfigError)));
    assert!(NoirFriendlyEncoder::new("1000001").is_ok());
    assert!(NoirFriendlyEncoder::new("0001000001").is_ok());
}

#[test]
fn graph_term_is_encoded() {
    let e = bn254();
    let v = e.process_quad("<http://s> <http://p> <http://o> <http://s> .", 0).unwrap();
    assert_eq!(v[3], HASH_S);
    assert_eq!(v[4], "0");
}

#[test]
fn text_is_cut_into_lines() {
    assert_eq!(split_lines("a\nb\r\nc"), vec!["a", "b", "c"]);
    assert_eq!(split_lines("a\n\nb\n"), vec!["a", "", "b"]);
    assert_eq!(split_lines(""), Vec::<String>::new());
    assert_eq!(split_lines("\n"), vec![""]);
    assert_eq!(split_lines("x\ry\n"), vec!["x\ry"]);
}

#[test]
fn whole_file_encodes_in_order() {
    let e = bn254();
    let text = "# header\n<http://s> <http://p> \"42\"^^<http://www.w3.org/2001/XMLSchema#integer> .\r\n\n<1> <2> <3> .\n";
    let out = e.encode_lines(&split_lines(text)).unwrap();
    assert_eq!(out.len(), 10);
    assert_eq!(out[2], HASH_TYPED_42);
    assert_eq!(out[4], "42");
    assert_eq!(out[5..10].to_vec(), vec!["1", "2", "3", HASH_EMPTY, "0"]);
}
