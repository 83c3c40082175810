//! The refinement loop as a state machine: the caller runs the solver and the
//! saturation, and hands each outcome back.
use crate::concrete::strings_view;
use crate::concrete::{TermVal, term_text};
use crate::vmt::{VMTError, VMTModel, conjoined};
use vstd::prelude::*;

verus! {

/// How many rounds of refinement one depth may take before the loop moves on.
pub const MAX_ROUNDS_PER_DEPTH: u8 = 10;

/// The options of a run.
#[derive(Debug)]
pub struct YardbirdOptions {
    /// The file that holds the transition system.
    pub filename: String,
    /// The depth at which to stop.
    pub depth: u8,
    /// How many times BMC should be unsatisfiable before an invariant generator is tried.
    pub bmc_count: usize,
    /// Whether to write the system out before and after refinement.
    pub print_vmt: bool,
    /// Whether to compute interpolants when a depth is unsatisfiable.
    pub interpolate: bool,
}

/// What a successful run gives: the refined system and the instantiations.
#[derive(Debug)]
pub struct ProofLoopResult {
    pub model: VMTModel,
    pub used_instances: Vec<String>,
    pub const_instances: Vec<String>,
}

/// Why a run failed.
#[derive(Debug)]
pub enum ProofError {
    /// The solver answered unknown.
    SolverUnknown,
    /// A satisfiable depth gave no new instantiation.
    Stuck { depth: u8 },
    /// The input is not a transition system, or the solver's answer could not be read.
    Model(VMTError),
}

/// What the solver said about the unrolled problem.
pub enum SolverOutcome {
    Sat,
    Unsat,
    Unknown,
}

/// What the caller does next.
pub enum ProofAction {
    /// Unroll the model to this depth and solve.
    Check { depth: u8 },
    /// Every depth up to the bound is unsatisfiable.
    Done,
}

/// The initial condition, transition relation and used instantiations after
/// offering each candidate text in turn to a model (whose variables give the
/// instantiations): a candidate is added exactly when `add_instantiation`
/// accepts it against the instantiations used so far.
pub open spec fn refined(
    m: VMTModel,
    init: TermVal,
    trans: TermVal,
    used: Seq<Seq<char>>,
    cands: Seq<Seq<char>>,
) -> (TermVal, TermVal, Seq<Seq<char>>)
    decreases cands.len(),
{
    if cands.len() == 0 {
        (init, trans, used)
    } else {
        refine_step(m, refined(m, init, trans, used, cands.drop_last()), cands.last())
    }
}

/// Offering one candidate text: see `refined`.
#[verifier::opaque]
pub open spec fn refine_step(
    m: VMTModel,
    st: (TermVal, TermVal, Seq<Seq<char>>),
    c: Seq<char>,
) -> (TermVal, TermVal, Seq<Seq<char>>) {
    match crate::parser::read_term(c) {
        Some(t) => if m.accepts_instance(t, st.2) {
            let inst = m.instantiation_of(t);
            (conjoined(st.0, inst), conjoined(st.1, inst), st.2.push(term_text(inst)))
        } else {
            st
        },
        None => st,
    }
}

/// Offering a candidate depends on the model's variables only.
pub proof fn lemma_refine_step_vars(m1: VMTModel, m2: VMTModel, st: (TermVal, TermVal, Seq<Seq<char>>), c: Seq<char>)
    requires
        m1.state_variables == m2.state_variables,
    ensures
        refine_step(m1, st, c) == refine_step(m2, st, c),
{
    reveal(refine_step);
    assert(m1.current_to_next() == m2.current_to_next());
}

/// The state of the refinement loop.
pub struct ProofLoop {
    pub model: VMTModel,
    pub used_instances: Vec<String>,
    pub const_instances: Vec<String>,
    /// The depth being checked.
    pub depth: u8,
    /// The depth at which to stop.
    pub max_depth: u8,
    /// The refinement rounds taken at this depth.
    pub rounds: u8,
    /// The initial condition and transition relation the loop started from.
    pub initial_init: Ghost<TermVal>,
    pub initial_trans: Ghost<TermVal>,
    /// The instantiations added so far, in order.
    pub instances: Ghost<Seq<TermVal>>,
}

/// The condition with each instantiation conjoined, in order.
pub open spec fn conjoin_all(c: TermVal, insts: Seq<TermVal>) -> TermVal
    decreases insts.len(),
{
    if insts.len() == 0 {
        c
    } else {
        conjoined(conjoin_all(c, insts.drop_last()), insts.last())
    }
}

impl ProofLoop {
    /// The used instances are the texts of the instantiations added, each once and
    /// none mentioning a variable at a frame; the model's initial condition and
    /// transition relation are those it started from with them conjoined in order.
    pub open spec fn wf(&self) -> bool {
        &&& self.model.wf()
        &&& self.rounds < MAX_ROUNDS_PER_DEPTH
        &&& strings_view(self.used_instances@) == Seq::new(
            self.instances@.len(),
            |i: int| term_text(self.instances@[i]),
        )
        &&& strings_view(self.used_instances@).no_duplicates()
        &&& forall|i: int| 0 <= i < self.instances@.len() ==> crate::frame_num_getter::frames_of(
            #[trigger] self.instances@[i],
        ) == Set::<nat>::empty()
        &&& self.model.initial_condition@ == conjoin_all(self.initial_init@, self.instances@)
        &&& self.model.transition_condition@ == conjoin_all(self.initial_trans@, self.instances@)
    }

    /// The loop at depth 0 for a model, up to `max_depth`.
    pub fn new(model: VMTModel, max_depth: u8) -> (r: ProofLoop)
        requires
            model.wf(),
        ensures
            r.wf(),
            r.model == model,
            r.depth == 0,
            r.rounds == 0,
            r.max_depth == max_depth,
            r.used_instances@.len() == 0,
            r.const_instances@.len() == 0,
            r.initial_init@ == model.initial_condition@,
            r.initial_trans@ == model.transition_condition@,
    {
        let ghost i0 = model.initial_condition@;
        let ghost t0 = model.transition_condition@;
        let r = ProofLoop {
            model,
            used_instances: Vec::new(),
            const_instances: Vec::new(),
            depth: 0,
            max_depth,
            rounds: 0,
            initial_init: Ghost(i0),
            initial_trans: Ghost(t0),
            instances: Ghost(Seq::empty()),
        };
        assert(strings_view(r.used_instances@) =~= Seq::new(0, |i: int| term_text(r.instances@[i])));
        r
    }

    /// What to do next: check the current depth, or stop once the bound is reached.
    pub fn next_action(&self) -> (r: ProofAction)
        ensures
            self.depth < self.max_depth ==> r == (ProofAction::Check { depth: self.depth }),
            self.depth >= self.max_depth ==> r is Done,
    {
        if self.depth < self.max_depth {
            ProofAction::Check { depth: self.depth }
        } else {
            ProofAction::Done
        }
    }

    /// Takes in the solver's answer for the current depth. Unsatisfiable moves on
    /// to the next depth; unknown fails. Satisfiable leaves the state for
    /// `on_candidates`.
    pub fn on_outcome(&mut self, outcome: SolverOutcome) -> (r: Result<(), ProofError>)
        requires
            old(self).wf(),
            old(self).depth < old(self).max_depth,
        ensures
            final(self).wf(),
            final(self).model == old(self).model,
            final(self).used_instances == old(self).used_instances,
            final(self).const_instances == old(self).const_instances,
            final(self).max_depth == old(self).max_depth,
            outcome is Unsat ==> r is Ok && final(self).depth == old(self).depth + 1 && final(self).rounds == 0,
            outcome is Unknown ==> r == Err::<(), ProofError>(ProofError::SolverUnknown) && final(self).depth == old(self).depth
                && final(self).rounds == old(self).rounds,
            outcome is Sat ==> r is Ok && final(self).depth == old(self).depth && final(self).rounds == old(self).rounds,
    {
        match outcome {
            SolverOutcome::Unsat => {
                self.depth = self.depth + 1;
                self.rounds = 0;
                Ok(())
            },
            SolverOutcome::Unknown => Err(ProofError::SolverUnknown),
            SolverOutcome::Sat => Ok(()),
        }
    }

    /// Takes in the candidates that saturation found for a satisfiable depth: the
    /// constant-only ones are kept for reporting, each of the others is offered to
    /// the model in discovery order. Fails when none was added; after the last
    /// round a depth may take, moves on to the next depth.
    #[verifier::rlimit(50)]
    pub fn on_candidates(&mut self, candidates: Vec<String>, const_candidates: Vec<String>) -> (r: Result<(), ProofError>)
        requires
            old(self).wf(),
            old(self).depth < old(self).max_depth,
        ensures
            final(self).wf(),
            final(self).max_depth == old(self).max_depth,
            strings_view(final(self).const_instances@) == strings_view(old(self).const_instances@) + strings_view(const_candidates@),
            r is Err ==> r == Err::<(), ProofError>(ProofError::Stuck { depth: old(self).depth }),
            r is Err <==> strings_view(final(self).used_instances@) == strings_view(old(self).used_instances@),
            r is Ok && old(self).rounds + 1 < MAX_ROUNDS_PER_DEPTH ==> final(self).depth == old(self).depth
                && final(self).rounds == old(self).rounds + 1,
            r is Ok && old(self).rounds + 1 == MAX_ROUNDS_PER_DEPTH ==> final(self).depth == old(self).depth + 1
                && final(self).rounds == 0,
            strings_view(old(self).used_instances@).len() <= strings_view(final(self).used_instances@).len(),
            ({
                let (i, t, u) = refined(
                    old(self).model,
                    old(self).model.initial_condition@,
                    old(self).model.transition_condition@,
                    strings_view(old(self).used_instances@),
                    strings_view(candidates@),
                );
                &&& final(self).model.initial_condition@ == i
                &&& final(self).model.transition_condition@ == t
                &&& strings_view(final(self).used_instances@) == u
            }),
            r is Ok <==> strings_view(final(self).used_instances@).len() > strings_view(old(self).used_instances@).len(),
            final(self).model.state_variables == old(self).model.state_variables,
            final(self).model.actions == old(self).model.actions,
            final(self).model.sorts == old(self).model.sorts,
            final(self).model.function_definitions == old(self).model.function_definitions,
            final(self).model.axioms == old(self).model.axioms,
            final(self).model.property_condition == old(self).model.property_condition,
    {
        let mut k: usize = 0;
        while k < const_candidates.len()
            invariant
                k <= const_candidates@.len(),
                self.wf(),
                self.depth == old(self).depth,
                self.rounds == old(self).rounds,
                self.max_depth == old(self).max_depth,
                self.used_instances == old(self).used_instances,
                self.model == old(self).model,
                strings_view(self.const_instances@) == strings_view(old(self).const_instances@) + strings_view(const_candidates@).subrange(0, k as int),
            decreases const_candidates@.len() - k,
        {
            let ghost before = self.const_instances@;
            self.const_instances.push(const_candidates[k].clone());
            assert(strings_view(self.const_instances@) =~= strings_view(before).push(const_candidates@[k as int]@));
            assert(strings_view(const_candidates@).subrange(0, k + 1) =~= strings_view(const_candidates@).subrange(0, k as int).push(const_candidates@[k as int]@));
            k = k + 1;
        }
        assert(strings_view(const_candidates@).subrange(0, const_candidates@.len() as int) =~= strings_view(const_candidates@));
        let ghost start = strings_view(self.used_instances@);
        let mut progress = false;
        let mut i: usize = 0;
        while i < candidates.len()
            invariant
                i <= candidates@.len(),
                self.wf(),
                self.depth == old(self).depth,
                self.rounds == old(self).rounds,
                self.max_depth == old(self).max_depth,
                strings_view(self.const_instances@) == strings_view(old(self).const_instances@) + strings_view(const_candidates@),
                start == strings_view(old(self).used_instances@),
                start.len() <= strings_view(self.used_instances@).len(),
                !progress ==> strings_view(self.used_instances@) == start,
                progress ==> strings_view(self.used_instances@).len() > start.len(),
                self.model.state_variables == old(self).model.state_variables,
                self.model.actions == old(self).model.actions,
                self.model.sorts == old(self).model.sorts,
                self.model.function_definitions == old(self).model.function_definitions,
                self.model.axioms == old(self).model.axioms,
                self.model.property_condition == old(self).model.property_condition,
                ({
                    let (a, b, u) = refined(
                        old(self).model,
                        old(self).model.initial_condition@,
                        old(self).model.transition_condition@,
                        start,
                        strings_view(candidates@).subrange(0, i as int),
                    );
                    &&& self.model.initial_condition@ == a
                    &&& self.model.transition_condition@ == b
                    &&& strings_view(self.used_instances@) == u
                }),
            decreases candidates@.len() - i,
        {
            proof {
                let cs = strings_view(candidates@);
                assert(cs.subrange(0, i + 1).drop_last() =~= cs.subrange(0, i as int));
                assert(cs.subrange(0, i + 1).last() == candidates@[i as int]@);
            }
            let c = candidates[i].clone();
            proof {
                lemma_refine_step_vars(
                    self.model,
                    old(self).model,
                    (self.model.initial_condition@, self.model.transition_condition@, strings_view(self.used_instances@)),
                    c@,
                );
            }
            let added = self.offer(c);
            if added {
                progress = true;
            }
            i = i + 1;
        }
        assert(strings_view(candidates@).subrange(0, candidates@.len() as int) =~= strings_view(candidates@));
        if !progress {
            return Err(ProofError::Stuck { depth: self.depth });
        }
        if self.rounds + 1 == MAX_ROUNDS_PER_DEPTH {
            self.depth = self.depth + 1;
            self.rounds = 0;
        } else {
            self.rounds = self.rounds + 1;
        }
        Ok(())
    }

    /// Offers one candidate text to the model.
    fn offer(&mut self, c: String) -> (added: bool)
        requires
            old(self).wf(),
        ensures
            final(self).wf(),
            (final(self).model.initial_condition@, final(self).model.transition_condition@, strings_view(
                final(self).used_instances@,
            )) == refine_step(
                old(self).model,
                (old(self).model.initial_condition@, old(self).model.transition_condition@, strings_view(
                    old(self).used_instances@,
                )),
                c@,
            ),
            added ==> strings_view(final(self).used_instances@).len() == strings_view(old(self).used_instances@).len() + 1,
            !added ==> strings_view(final(self).used_instances@) == strings_view(old(self).used_instances@),
            final(self).model.state_variables == old(self).model.state_variables,
            final(self).model.actions == old(self).model.actions,
            final(self).model.sorts == old(self).model.sorts,
            final(self).model.function_definitions == old(self).model.function_definitions,
            final(self).model.axioms == old(self).model.axioms,
            final(self).model.property_condition == old(self).model.property_condition,
            final(self).const_instances == old(self).const_instances,
            final(self).depth == old(self).depth,
            final(self).rounds == old(self).rounds,
            final(self).max_depth == old(self).max_depth,
    {
        proof {
            reveal(refine_step);
        }
        let ghost used0 = strings_view(self.used_instances@);
        let ghost inst = self.model.instantiation_of(crate::parser::read_term(c@)->0);
        let added = self.model.add_instantiation(c, &mut self.used_instances);
        if added {
            self.instances = Ghost(self.instances@.push(inst));
            proof {
                let insts = self.instances@;
                assert(insts.drop_last() =~= old(self).instances@);
                assert(strings_view(self.used_instances@) =~= Seq::new(insts.len(), |i: int| term_text(insts[i])));
                assert(strings_view(self.used_instances@).no_duplicates()) by {
                    let u = strings_view(self.used_instances@);
                    assert(u == used0.push(term_text(inst)));
                    assert forall|a: int, b: int| 0 <= a < b < u.len() implies u[a] != u[b] by {
                        if b == u.len() - 1 {
                            assert(u[a] == used0[a]);
                            assert(used0.contains(used0[a]));
                        } else {
                            assert(u[a] == used0[a] && u[b] == used0[b]);
                        }
                    }
                }
                assert forall|i: int| 0 <= i < insts.len() implies crate::frame_num_getter::frames_of(#[trigger] insts[i])
                    == Set::<nat>::empty() by {
                    if i < insts.len() - 1 {
                        assert(insts[i] == old(self).instances@[i]);
                    }
                }
            }
        }
        added
    }

    /// The result of a run that reached its bound.
    pub fn into_result(self) -> (r: ProofLoopResult)
        ensures
            self.wf() ==> strings_view(r.used_instances@).no_duplicates(),
            self.wf() ==> r.model.initial_condition@ == conjoin_all(self.initial_init@, self.instances@),
            self.wf() ==> r.model.transition_condition@ == conjoin_all(self.initial_trans@, self.instances@),
            r.model == self.model,
            r.used_instances == self.used_instances,
            r.const_instances == self.const_instances,
    {
        ProofLoopResult { model: self.model, used_instances: self.used_instances, const_instances: self.const_instances }
    }
}

/// The application `(f a1 ... an)` written as text, for an entry of a function
/// table of the solver's model.
pub fn function_call_text(name: &String, args: &Vec<String>) -> (r: String)
    ensures
        r@ == "("@ + name@ + crate::text::spaced(strings_view(args@)) + ")"@,
{
    let mut s = String::from_str("(");
    s.append(name.as_str());
    let mut i: usize = 0;
    while i < args.len()
        invariant
            i <= args@.len(),
            s@ == "("@ + name@ + crate::text::spaced(strings_view(args@).subrange(0, i as int)),
        decreases args@.len() - i,
    {
        let ghost before = s@;
        s.append(" ");
        s.append(args[i].as_str());
        proof {
            let sub = strings_view(args@).subrange(0, i + 1);
            assert(sub.drop_last() =~= strings_view(args@).subrange(0, i as int));
            assert(s@ =~= before + " "@ + args@[i as int]@);
        }
        i = i + 1;
    }
    assert(strings_view(args@).subrange(0, args@.len() as int) =~= strings_view(args@));
    s.append(")");
    s
}

} // verus!
