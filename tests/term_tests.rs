use yardbird::canonicalize_boolean::CanonicalizeBooleanFunctions;
use yardbird::concrete::Term;
use yardbird::let_extract::{flatten_lets, LetExtract};
use yardbird::parser::{get_term_from_assert_command_string, parse_term};
use yardbird::utils::{get_interpolant_name, scrub_variable_name};

fn term(text: &str) -> Term {
    get_term_from_assert_command_string(text).unwrap()
}

fn flattened(text: &str) -> String {
    let t = term(text);
    let mut le = LetExtract::new();
    le.flatten(&t).to_string()
}

fn canonical(text: &str) -> String {
    let t = term(text);
    CanonicalizeBooleanFunctions::new().canonicalize(&t).to_string()
}

#[test]
fn test_interpolant_name() {
    assert_eq!(get_interpolant_name(0), "A");
    assert_eq!(get_interpolant_name(10), "K");
    assert_eq!(get_interpolant_name(26), "AA");
    assert_eq!(get_interpolant_name(27), "AB");
    assert_eq!(get_interpolant_name(52), "AAA");
}

#[test]
fn test_no_let() {
    assert_eq!(flattened("(assert (let ((a 10)) 5))"), "5");
}

#[test]
fn test_one_variable() {
    assert_eq!(flattened("(assert (let ((a (<= 10 0))) (and a)))"), "(and (<= 10 0))");
}

#[test]
fn test_two_variables() {
    assert_eq!(flattened("(assert (let ((a 10) (b 0)) (<= a b)))"), "(<= 10 0)");
}

#[test]
fn test_variable_usage() {
    assert_eq!(flattened("(assert (let ((a 10) (b (+ a 10))) (<= a b)))"), "(<= 10 (+ 10 10))");
}

#[test]
fn test_actual_usage() {
    assert_eq!(
        flattened("(assert (and (let ((a!1 (not (not (= (Read-Int-Int c@1 Z@1) 99))))) (=> (and (>= i@1 N@1) (>= Z@1 100) (< Z@1 N@1)) (and a!1)))))"),
        "(and (=> (and (>= i@1 N@1) (>= Z@1 100) (< Z@1 N@1)) (and (not (not (= (Read-Int-Int c@1 Z@1) 99))))))"
    );
}

#[test]
fn test_transition_use() {
    assert_eq!(
        flattened("(assert (and (let ((a!1 (= (Write-Int-Int c@0 i@0 (+ i@0 (Read-Int-Int a@0 i@0))) c@1)) (a!2 (= (Write-Int-Int c@0 i@0 (Read-Int-Int c@0 (- i@0 1))) c@1))) (and (=> (< i@0 100) a!1) (=> (not (< i@0 100)) a!2))) (< i@0 N@0) (= (+ i@0 1) i@1) (= a@0 a@1) (= N@0 N@1) (= Z@0 Z@1)))"),
        "(and (and (=> (< i@0 100) (= (Write-Int-Int c@0 i@0 (+ i@0 (Read-Int-Int a@0 i@0))) c@1)) (=> (not (< i@0 100)) (= (Write-Int-Int c@0 i@0 (Read-Int-Int c@0 (- i@0 1))) c@1))) (< i@0 N@0) (= (+ i@0 1) i@1) (= a@0 a@1) (= N@0 N@1) (= Z@0 Z@1))"
    );
}

#[test]
fn test_double() {
    assert_eq!(
        flattened("(assert (let ((a!1 (and (not (and (< i N) (>= j 0))))) (a!2 (and (not (not (>= m n)))))) (=> a!1 a!2)))"),
        "(=> (and (not (and (< i N) (>= j 0)))) (and (not (not (>= m n)))))"
    );
}

#[test]
fn test_nested() {
    assert_eq!(flattened("(assert (let ((a!1 2)) (let ((a!2 3)) (+ a!1 a!2))))"), "(+ 2 3)");
}

#[test]
fn let_is_hidden_by_a_quantifier_that_rebinds_its_name() {
    assert_eq!(
        flattened("(assert (let ((x 1)) (and x (forall ((x Int)) (> x 0)))))"),
        "(and 1 (forall ((x Int)) (> x 0)))"
    );
}

#[test]
fn flattening_twice_changes_nothing() {
    let t = term("(assert (let ((a 1) (b (+ a 1))) (let ((c (* b b))) (and (= c b) (exists ((a Int)) (= a c))))))");
    let once = flatten_lets(&t);
    let twice = flatten_lets(&once);
    assert_eq!(once.to_string(), twice.to_string());
    assert!(!once.to_string().contains("let"));
}

#[test]
fn test_no_and() {
    assert_eq!(canonical("(assert (= a 1))"), "(= a 1)");
}

#[test]
fn test_one_and() {
    assert_eq!(canonical("(assert (and (= a 1)))"), "(= a 1)");
}

#[test]
fn test_one_or() {
    assert_eq!(canonical("(assert (or (= a 1)))"), "(= a 1)");
}

#[test]
fn test_two_and() {
    assert_eq!(canonical("(assert (and a b))"), "(and a b)");
}

#[test]
fn test_two_or() {
    assert_eq!(canonical("(assert (or a b))"), "(or a b)");
}

#[test]
fn test_three_and() {
    assert_eq!(canonical("(assert (and a b c))"), "(and a (and b c))");
}

#[test]
fn test_three_or() {
    assert_eq!(canonical("(assert (or a b c))"), "(or a (or b c))");
}

#[test]
fn test_four_and() {
    assert_eq!(canonical("(assert (and a b c d))"), "(and a (and b (and c d)))");
}

#[test]
fn test_simple_nested_and() {
    assert_eq!(canonical("(assert (and a b (and c d)))"), "(and a (and b (and c d)))");
}

#[test]
fn test_nested_and1() {
    assert_eq!(canonical("(assert (and a b (and c (and d e f))))"), "(and a (and b (and c (and d (and e f)))))");
}

#[test]
fn test_nested_and2() {
    assert_eq!(canonical("(assert (and a b (and c (and d e f))))"), "(and a (and b (and c (and d (and e f)))))");
}

#[test]
fn test_nested_and3() {
    assert_eq!(canonical("(assert (and (and a b c) (and d e f)))"), "(and (and a (and b c)) (and d (and e f)))");
}

#[test]
fn test_or_over_and() {
    assert_eq!(canonical("(assert (or (and a b c) (and d e f)))"), "(or (and a (and b c)) (and d (and e f)))");
}

#[test]
fn test_and_in_let() {
    assert_eq!(
        canonical("(assert (not (let ((a!1 (and a b c))) (=> (and d e f) (and a!1)))))"),
        "(not (let ((a!1 (and a (and b c)))) (=> (and d (and e f)) a!1)))"
    );
}

#[test]
fn canonical_output_has_only_binary_connectives() {
    let out = canonical("(assert (or (and a b c d e) (or f) (and (or g h i) j)))");
    assert_eq!(out, "(or (and a (and b (and c (and d e)))) (or f (and (or g (or h i)) j)))");
}

#[test]
fn printing_round_trips_through_the_reader() {
    let text = "(forall ((x Int) (y (Array Int Int))) (! (=> (> x 0) ((as const (Array Int Int)) \"s\")) :named p :weight 3))";
    let t = parse_term(text).unwrap();
    assert_eq!(t.to_string(), text);
}

#[test]
fn reader_rejects_malformed_text() {
    assert!(parse_term("(and a b").is_err());
    assert!(parse_term(")").is_err());
    assert!(parse_term("(f :k)").is_err());
}

#[test]
fn scrubbing_removes_bars() {
    assert_eq!(scrub_variable_name("|x y|".to_string()), "x y");
    assert_eq!(scrub_variable_name("x".to_string()), "x");
    assert_eq!(scrub_variable_name("|".to_string()), "");
}

#[test]
fn let_replaces_a_name_written_with_its_sort() {
    assert_eq!(flattened("(assert (let ((x 1)) (+ (as x Int) x)))"), "(+ 1 1)");
}

#[test]
fn canonicalizing_twice_changes_nothing() {
    let once = canonical("(assert (and a (or b c d) (not (and e f g)) (and h)))");
    let t = term(&format!("(assert {})", once));
    assert_eq!(CanonicalizeBooleanFunctions::new().canonicalize(&t).to_string(), once);
}
