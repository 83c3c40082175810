use yardbird::conflict_scheduler::ConflictScheduler;
use yardbird::cost::{ArrayOp, BestVariableSubstitution};
use yardbird::frame_num_getter::FrameNumGetter;
use yardbird::instantiator::Instantiator;
use yardbird::parser::{get_term_from_assert_command_string, parse_commands};
use yardbird::proof_loop::{function_call_text, ProofAction, ProofError, ProofLoop, SolverOutcome};
use yardbird::rewriter::rewrite_term;
use yardbird::{VMTError, VMTModel};

const SYSTEM: &str = "
; a counter that writes into an array
(declare-fun i () Int)
(declare-fun i_next () Int)
(define-fun .i () Int (! i :next i_next))
(declare-fun a () (Array Int Int))
(declare-fun a_next () (Array Int Int))
(define-fun .a () (Array Int Int) (! a :next a_next))
(declare-fun fml_n () Int)
(declare-fun fml_n_next () Int)
(define-fun .fml_n () Int (! fml_n :next fml_n_next))
(declare-fun act () Bool)
(define-fun .act () Bool (! act :action 0))
(define-fun init () Bool (! (and (= i 0) (= a ((as const (Array Int Int)) 0))) :init true))
(define-fun trans () Bool (! (and (= i_next (+ i 1)) (= a_next (store a i fml_n)) (= fml_n_next fml_n)) :trans true))
(define-fun prop () Bool (! (>= (select a 0) 0) :invar-property 0))
";

fn model() -> VMTModel {
    VMTModel::from_text(SYSTEM).unwrap()
}

fn term(text: &str) -> yardbird::concrete::Term {
    get_term_from_assert_command_string(&format!("(assert {})", text)).unwrap()
}

#[test]
fn reads_the_parts_of_a_system() {
    let m = model();
    assert_eq!(m.state_variables.len(), 3);
    assert_eq!(m.actions.len(), 1);
    assert_eq!(m.get_state_holding_variables().len(), 2);
    assert_eq!(m.print_stats(), vec!["Number of Variables: 3", "Number of Actions: 1", "Number of Sorts: 0"]);
    assert_eq!(m.state_variables[1].get_sort_name(), "Array");
}

#[test]
fn unroll_gives_one_assertion_per_step_and_declarations_per_frame() {
    let m = model();
    for k in 0..4u8 {
        let smt = m.unroll(k);
        assert_eq!(smt.init_and_trans_length(), k as usize + 1);
        assert_eq!(smt.variable_definitions.len(), (k as usize + 1) * 3 + 1);
    }
}

#[test]
fn unroll_renames_variables_per_frame() {
    let m = model();
    let smt = m.unroll(2);
    let asserts = smt.get_assert_terms();
    assert_eq!(asserts.len(), 4);
    assert_eq!(asserts[0], "(and (= i@0 0) (= a@0 ((as const (Array Int Int)) 0)))");
    assert_eq!(asserts[2], "(and (= i@2 (+ i@1 1)) (= a@2 (store a@1 i@1 fml_n)) (= fml_n fml_n))");
    assert_eq!(asserts[3], "(>= (select a@2 0) 0)");
    let script = smt.to_smtlib2();
    assert!(script.contains("(declare-fun fml_n () Int)"));
    assert!(script.contains("(declare-fun act@2 () Bool)"));
    assert!(script.ends_with("(assert (not (>= (select a@2 0) 0)))"));
}

#[test]
fn abstraction_removes_the_array_theory() {
    let m = model().abstract_array_theory().unwrap();
    let text = m.as_vmt_string();
    assert!(!text.contains("select"));
    assert!(!text.contains("store"));
    assert!(!text.contains("(Array "));
    assert!(!text.contains("as const"));
    assert!(text.starts_with("(declare-sort Array-Int-Int 0)\n(declare-fun ConstArr-Int-Int (Int) Array-Int-Int)"));
    assert!(text.contains("(declare-fun a () Array-Int-Int)"));
    let smt = m.unroll(1);
    assert_eq!(smt.get_assert_terms()[1], "(and (= i@1 (+ i@0 1)) (= a@1 (Write-Int-Int a@0 i@0 fml_n)) (= fml_n fml_n))");
}

#[test]
fn too_few_commands_is_a_structure_error() {
    let cs = parse_commands("(declare-fun x () Int)").unwrap();
    assert!(matches!(VMTModel::checked_from(cs), Err(VMTError::StructureError(_))));
}

#[test]
fn an_assert_among_declarations_is_an_unknown_command() {
    let text = SYSTEM.replace("(declare-fun act () Bool)", "(declare-fun act () Bool)\n(assert act)");
    assert!(matches!(VMTModel::from_text(&text), Err(VMTError::UnknownCommand(_))));
}

#[test]
fn an_unknown_next_name_is_a_structure_error() {
    let text = SYSTEM.replace("(! i :next i_next)", "(! i :next j_next)");
    assert!(matches!(VMTModel::from_text(&text), Err(VMTError::StructureError(_))));
}

#[test]
fn malformed_text_is_a_parse_error() {
    assert!(matches!(VMTModel::from_text("(declare-fun x () Int"), Err(VMTError::ParseError(_))));
}

#[test]
fn frames_of_a_candidate() {
    let mut g = FrameNumGetter::new();
    g.visit(&term("(= (Read-Int-Int a@3 i@2) fml_n@7)"));
    assert_eq!(g.frame_nums.len(), 2);
    assert_eq!(g.max_min_difference(), 1);
    assert!(g.spans_one_step());
    assert_eq!(g.bounds(), (2, 3));
}

#[test]
fn instantiation_leaves_no_framed_symbol() {
    let inst = Instantiator {
        current_to_next_variables: vec![("a".to_string(), "a_next".to_string())],
        first_frame: 4,
        last_frame: 5,
    };
    let out = rewrite_term(&inst, &term("(= (Read-Int-Int a@5 i@4) (Read-Int-Int a@4 fml_n@5))"));
    assert_eq!(out.to_string(), "(= (Read-Int-Int a_next i) (Read-Int-Int a fml_n))");
}

#[test]
fn add_instantiation_conjoins_into_init_and_trans() {
    let mut m = model().abstract_array_theory().unwrap();
    let mut used = vec![];
    assert!(m.add_instantiation("(= (Read-Int-Int a@1 i@0) (Read-Int-Int a@0 i@0))".to_string(), &mut used));
    assert_eq!(used, vec!["(= (Read-Int-Int a_next i) (Read-Int-Int a i))"]);
    let init = m.initial_condition.to_string();
    assert!(init.ends_with("(= (Read-Int-Int a_next i) (Read-Int-Int a i))) :init true)"));
    assert!(init.starts_with("(! (and (= i 0) (= a (ConstArr-Int-Int 0))"));
    assert!(m.transition_condition.to_string().contains("(= fml_n_next fml_n) (= (Read-Int-Int a_next i) (Read-Int-Int a i)))"));
    // The same candidate again is no progress.
    assert!(!m.add_instantiation("(= (Read-Int-Int a@1 i@0) (Read-Int-Int a@0 i@0))".to_string(), &mut used));
    // Three frames need prophecy.
    assert!(!m.add_instantiation("(= (Read-Int-Int a@2 i@0) 0)".to_string(), &mut used));
    // An action has no next name.
    assert!(!m.add_instantiation("(= act@1 act@0)".to_string(), &mut used));
    assert_eq!(used.len(), 1);
}

#[test]
fn constant_only_conflict_is_kept_apart() {
    let mut s = ConflictScheduler::new(());
    assert!(s.record(&"(Read-Int-Int (ConstArr-Int-Int 0) 0)".to_string(), &"0".to_string(), false));
    assert!(!s.record(&"(Read-Int-Int A 1)".to_string(), &"1".to_string(), true));
    assert_eq!(s.instantiations().len(), 0);
    assert_eq!(s.instantiations_w_constants(), vec!["(= (Read-Int-Int (ConstArr-Int-Int 0) 0) 0)"]);
    assert!(s.record(&"(Read-Int-Int a@0 i@0)".to_string(), &"v@1".to_string(), false));
    assert_eq!(s.instantiations(), vec!["(= (Read-Int-Int a@0 i@0) v@1)"]);
}

#[test]
fn cost_prefers_program_variables() {
    let c = BestVariableSubstitution;
    assert_eq!(c.cost(&ArrayOp::Symbol("x@0".to_string()), &vec![]), 1);
    assert_eq!(c.cost(&ArrayOp::Symbol("Array-Int-Int!val!0".to_string()), &vec![]), 10);
    assert_eq!(c.cost(&ArrayOp::Num(0), &vec![]), 10);
    assert_eq!(c.cost(&ArrayOp::Num(100), &vec![]), 110);
    assert_eq!(c.cost(&ArrayOp::Num(-7), &vec![]), 17);
    assert_eq!(c.cost(&ArrayOp::Plus, &vec![1, 10]), 12);
    assert_eq!(c.cost(&ArrayOp::Write, &vec![1, 2, 3]), 16);
    assert_eq!(c.cost(&ArrayOp::Num(i64::MIN), &vec![]), u32::MAX);
    assert_eq!(c.cost(&ArrayOp::Read, &vec![u32::MAX, 5]), u32::MAX);
}

#[test]
fn proof_loop_moves_through_depths() {
    let mut l = ProofLoop::new(model().abstract_array_theory().unwrap(), 2);
    assert!(matches!(l.next_action(), ProofAction::Check { depth: 0 }));
    assert!(l.on_outcome(SolverOutcome::Unsat).is_ok());
    assert!(matches!(l.next_action(), ProofAction::Check { depth: 1 }));
    assert!(l.on_outcome(SolverOutcome::Sat).is_ok());
    let r = l.on_candidates(
        vec!["(= (Read-Int-Int a@1 i@0) (Read-Int-Int a@0 i@0))".to_string()],
        vec!["(= 0 0)".to_string()],
    );
    assert!(r.is_ok());
    assert_eq!(l.rounds, 1);
    let stuck = l.on_candidates(vec!["(= (Read-Int-Int a@1 i@0) (Read-Int-Int a@0 i@0))".to_string()], vec![]);
    assert!(matches!(stuck, Err(ProofError::Stuck { depth: 1 })));
    assert!(matches!(l.on_outcome(SolverOutcome::Unknown), Err(ProofError::SolverUnknown)));
    assert!(l.on_outcome(SolverOutcome::Unsat).is_ok());
    assert!(matches!(l.next_action(), ProofAction::Done));
    let res = l.into_result();
    assert_eq!(res.used_instances.len(), 1);
    assert_eq!(res.const_instances, vec!["(= 0 0)"]);
}

#[test]
fn model_entries_are_written_as_applications() {
    assert_eq!(function_call_text(&"Read-Int-Int".to_string(), &vec!["a".to_string(), "3".to_string()]), "(Read-Int-Int a 3)");
}

#[test]
fn single_step_problems_declare_immutable_variables_once() {
    let m = model();
    let init = m.get_initial_term().to_smtlib2();
    assert_eq!(init.matches("(declare-fun fml_n () Int)").count(), 1);
    let trans = m.get_trans_term();
    assert_eq!(trans.variable_definitions.len(), 1 + 2 * 3);
    assert!(trans.to_smtlib2().contains("(declare-fun fml_n () Int)"));
    assert_eq!(m.get_property_term().variable_definitions.len(), 1 + 3);
}
