use yardbird::bmc::BMCBuilder;
use yardbird::interpolant::{sequent_interpolants, split_lines, Interpolant};
use yardbird::numbered_to_symbolic::NumberedToSymbolic;
use yardbird::parser::{get_term_from_assert_command_string, parse_commands};
use yardbird::rewriter::{rewrite_term, SymbolRewriter};
use yardbird::term_extractor::TermExtractor;
use yardbird::utils::{
    assert_negation, assert_negation_interpolant, assert_term, assert_term_interpolant,
    command_has_attribute_string, get_and_terms, get_transition_system_component,
};

fn term(text: &str) -> yardbird::concrete::Term {
    get_term_from_assert_command_string(&format!("(assert {})", text)).unwrap()
}

#[test]
fn assertion_texts() {
    let t = term("(= x 1)");
    assert_eq!(assert_term(&t), "(assert (= x 1))");
    assert_eq!(assert_negation(&t), "(assert (not (= x 1)))");
    assert_eq!(assert_term_interpolant(27, &t), "(assert (! (= x 1) :named AB))");
    assert_eq!(assert_negation_interpolant(2, &t), "(assert (! (not (= x 1)) :named C))");
}

#[test]
fn conjuncts_of_an_and() {
    let parts = get_and_terms(&term("(and a (or b c) d)"));
    let texts: Vec<String> = parts.iter().map(|t| t.to_string()).collect();
    assert_eq!(texts, vec!["a", "(or b c)", "d"]);
}

#[test]
fn components_are_found_by_their_attribute() {
    let cs = parse_commands("(define-fun init () Bool (! (= x 0) :init true)) (define-fun t () Bool (! x :a :b))").unwrap();
    assert!(command_has_attribute_string(&cs[0], "init"));
    assert!(!command_has_attribute_string(&cs[0], "trans"));
    assert!(!command_has_attribute_string(&cs[1], "a"));
    assert_eq!(get_transition_system_component(&cs[0], "init").to_string(), "(! (= x 0) :init true)");
}

#[test]
fn builder_frames_current_and_next_names() {
    let mut b = BMCBuilder {
        current_variables: vec!["x".to_string()],
        next_variables: vec![("x_next".to_string(), "x".to_string()), ("fml_k_next".to_string(), "fml_k".to_string())],
        step: 3,
    };
    assert_eq!(b.process_symbol(&"x".to_string()), "x@3");
    assert_eq!(b.process_symbol(&"x_next".to_string()), "x@4");
    assert_eq!(b.process_symbol(&"fml_k_next".to_string()), "fml_k");
    assert_eq!(b.process_symbol(&"y".to_string()), "y");
    b.add_step();
    assert_eq!(rewrite_term(&b, &term("(= x_next (+ x 1))")).to_string(), "(= x@5 (+ x@4 1))");
}

#[test]
fn numbered_names_become_symbolic() {
    let t = term("(and (= x@2 y@3) (> z@7 0))");
    let n = NumberedToSymbolic { step: 2 };
    assert_eq!(rewrite_term(&n, &t).to_string(), "(and (= x y_next) (> z@7 0))");
    let i = Interpolant::from(&t, 2);
    assert_eq!(i.new_term.to_string(), "(and (= x y_next) (> z@7 0))");
    assert_eq!(i.original_term.to_string(), t.to_string());
}

#[test]
fn applications_are_collected_children_first() {
    let mut e = TermExtractor::new();
    e.visit(&term("(and (= (f (g x)) 1) (Read-Int-Int a (h y)))"));
    let texts: Vec<String> = e.terms.iter().map(|t| t.to_string()).collect();
    assert_eq!(texts, vec!["(g x)", "(f (g x))", "(h y)"]);
}

#[test]
fn lines_of_a_text() {
    assert_eq!(split_lines("unsat\n(a b)\n"), vec!["unsat", "(a b)", ""]);
    assert_eq!(split_lines(""), vec![""]);
}

#[test]
fn interpolants_are_the_conjuncts_of_the_sequent() {
    let out = sequent_interpolants("unsat\n((> x@0 0) (let ((a (+ x@1 1))) (> a 0)) false)\n").unwrap();
    let texts: Vec<String> = out.iter().map(|t| t.to_string()).collect();
    assert_eq!(texts, vec!["(> x@0 0)", "(> (+ x@1 1) 0)", "false"]);
    assert!(sequent_interpolants("sat\n(x)").is_err());
    assert!(sequent_interpolants("unsat").is_err());
}

#[test]
fn interpolation_script_labels_each_assertion() {
    let m = yardbird::VMTModel::from_text(
        "(declare-fun x () Int) (declare-fun x_next () Int) (define-fun .x () Int (! x :next x_next)) \
         (define-fun init () Bool (! (and (= x 0)) :init true)) \
         (define-fun trans () Bool (! (and (= x_next (+ x 1))) :trans true)) \
         (define-fun prop () Bool (! (>= x 0) :invar-property 0))",
    )
    .unwrap();
    let script = m.unroll(1).to_smtinterpol();
    assert!(script.starts_with("(set-option :produce-interpolants true)\n"));
    assert!(script.contains("(assert (! (and (= x@0 0)) :named A))\n(assert (! (and (= x@1 (+ x@0 1))) :named B))\n(assert (! (not (>= x@1 0)) :named C))"));
    assert!(script.ends_with("(check-sat)\n(get-interpolants A B C)"));
}

#[test]
fn interpolant_reading_errors() {
    assert!(sequent_interpolants("unsat\nx\n").is_err());
    assert!(sequent_interpolants("unsat\n(a b\n").is_err());
    assert!(sequent_interpolants("unsat\n(let ((a 1)) a)\n").is_err());
    assert_eq!(sequent_interpolants("unsat\n(p q)").unwrap().len(), 2);
}
