//! The transition system model.
use crate::bmc::{BMCBuilder, FrameRenaming};
use crate::concrete::{Command, CommandVal, FunctionDec, Sort, SortVal, Term, TermVal};
use crate::model::{Action, Axiom, Variable};
use crate::rewriter::{renamed, renamed_command};
use crate::text::{is_immutable, name_is_immutable, pairs_view, contains_name};
use crate::frame_num_getter::{FrameNumGetter, frame_bounds, frames_of, span_ok};
use crate::instantiator::{InstantiationMap, Instantiator};
use crate::concrete::{QidVal, QualIdentifier, term_text};
use crate::utils::{get_and_terms, is_and_application, term_is_and_application};
use crate::concrete::strings_view;
use crate::smt::{SMTProblem, copy_commands, terms_view, option_term_view};
use crate::utils::{
    ActView, NamedCommands, VarView, actions_view, classify, commands_assoc, commands_view, facts_view,
    get_transition_system_component, get_variables_actions_and_axioms, has_attribute,
    named_commands_view, relation_of, RelationVal, variables_view, command_has_attribute_string,
};
use vstd::prelude::*;

verus! {

/// What can go wrong when reading a transition system.
#[derive(Debug)]
pub enum VMTError {
    /// A command that a transition system does not hold (its text).
    UnknownCommand(String),
    /// The input could not be read.
    FileError,
    /// Malformed input text (a description).
    ParseError(String),
    /// The commands do not form a transition system (a description).
    StructureError(String),
}

} // verus!
verus! {

/// The state variables whose names do not follow the convention of immutable ones.
pub open spec fn holding(vars: Seq<Variable>) -> Seq<Variable>
    decreases vars.len(),
{
    if vars.len() == 0 {
        Seq::empty()
    } else if is_immutable(vars.last().current_name()) {
        holding(vars.drop_last())
    } else {
        holding(vars.drop_last()).push(vars.last())
    }
}

/// The state variables whose names follow the convention of immutable ones.
pub open spec fn immutables(vars: Seq<Variable>) -> Seq<Variable>
    decreases vars.len(),
{
    if vars.len() == 0 {
        Seq::empty()
    } else if is_immutable(vars.last().current_name()) {
        immutables(vars.drop_last()).push(vars.last())
    } else {
        immutables(vars.drop_last())
    }
}

/// A transition system: declarations, state variables, actions, facts, and the
/// attributed initial condition, transition relation and property.
#[derive(Debug)]
pub struct VMTModel {
    pub sorts: Vec<Command>,
    pub state_variables: Vec<Variable>,
    pub function_definitions: Vec<Command>,
    pub actions: Vec<Action>,
    pub axioms: Vec<Axiom>,
    pub initial_condition: Term,
    pub transition_condition: Term,
    pub property_condition: Term,
}

impl VMTModel {
    pub open spec fn wf(&self) -> bool {
        &&& self.initial_condition@ is Attrs
        &&& self.transition_condition@ is Attrs
        &&& self.property_condition@ is Attrs
        &&& forall|i: int| 0 <= i < self.state_variables@.len() ==> (#[trigger] self.state_variables@[i]).wf()
        &&& forall|i: int| 0 <= i < self.actions@.len() ==> (#[trigger] self.actions@[i]).wf()
        &&& forall|i: int| 0 <= i < self.sorts@.len() ==> (#[trigger] self.sorts@[i])@ is DeclareSort
    }

    /// The names renamed at every frame: the state-holding variables, then the actions.
    pub open spec fn framed_names(&self) -> Seq<Seq<char>> {
        Seq::new(holding(self.state_variables@).len(), |i: int| holding(self.state_variables@)[i].current_name())
            + Seq::new(self.actions@.len(), |i: int| self.actions@[i].name())
    }

    /// Each next name paired with its current name.
    pub open spec fn next_pairs(&self) -> Seq<(Seq<char>, Seq<char>)> {
        Seq::new(
            self.state_variables@.len(),
            |i: int| (self.state_variables@[i].next_name(), self.state_variables@[i].current_name()),
        )
    }

    /// The renaming of step `i` of the unrolling.
    pub open spec fn frame_renaming(&self, i: nat) -> FrameRenaming {
        FrameRenaming { current: self.framed_names(), next_to_current: self.next_pairs(), step: i }
    }

    pub open spec fn init_body(&self) -> TermVal {
        *self.initial_condition@->Attrs_0
    }

    pub open spec fn trans_body(&self) -> TermVal {
        *self.transition_condition@->Attrs_0
    }

    pub open spec fn prop_body(&self) -> TermVal {
        *self.property_condition@->Attrs_0
    }

    /// The init assertion, then one transition assertion per step, for `k` steps.
    pub open spec fn unrolled_assertions(&self, k: nat) -> Seq<TermVal> {
        Seq::new(
            k + 1,
            |j: int|
                if j == 0 {
                    renamed(&self.frame_renaming(0), self.init_body())
                } else {
                    renamed(&self.frame_renaming((j - 1) as nat), self.trans_body())
                },
        )
    }

    /// The declarations of the state-holding variables and the actions at frame `i`.
    pub open spec fn decls_at(&self, i: nat) -> Seq<CommandVal> {
        Seq::new(
            holding(self.state_variables@).len(),
            |j: int| renamed_command(&self.frame_renaming(i), holding(self.state_variables@)[j].current@),
        ) + Seq::new(self.actions@.len(), |j: int| renamed_command(&self.frame_renaming(i), self.actions@[j].action@))
    }

    /// The immutable variables once, then the declarations of frames `0` to `k`.
    pub open spec fn unrolled_decls(&self, k: nat) -> Seq<CommandVal>
        decreases k,
    {
        if k == 0 {
            Seq::new(immutables(self.state_variables@).len(), |j: int| immutables(self.state_variables@)[j].current@)
                + self.decls_at(0)
        } else {
            self.unrolled_decls((k - 1) as nat) + self.decls_at(k)
        }
    }
}

impl VMTModel {
    /// The state variables whose names are not those of formal arguments or
    /// internal names: the variables that hold state.
    pub fn get_state_holding_variables(&self) -> (r: Vec<Variable>)
        requires
            self.wf(),
        ensures
            variables_view(r@) == variables_view(holding(self.state_variables@)),
            r@.len() == holding(self.state_variables@).len(),
            forall|i: int| 0 <= i < r@.len() ==> (#[trigger] r@[i]).current@ == holding(self.state_variables@)[i].current@,
    {
        let ghost vs = self.state_variables@;
        let mut out: Vec<Variable> = Vec::new();
        let mut i: usize = 0;
        while i < self.state_variables.len()
            invariant
                i <= vs.len(),
                vs == self.state_variables@,
                self.wf(),
                variables_view(out@) == variables_view(holding(vs.subrange(0, i as int))),
            decreases vs.len() - i,
        {
            let ghost sub = vs.subrange(0, i + 1);
            assert(sub.drop_last() =~= vs.subrange(0, i as int));
            let v = &self.state_variables[i];
            assert(v.wf());
            if !name_is_immutable(v.get_current_variable_name()) {
                let ghost before = out@;
                let c = v.copy();
                out.push(c);
                proof {
                    lemma_variables_view_push(before, c);
                }
                assert(variables_view(holding(sub)) =~= variables_view(holding(vs.subrange(0, i as int))).push((v.current@, v.next@, v.relationship@)));
            }
            i = i + 1;
        }
        assert(vs.subrange(0, vs.len() as int) =~= vs);
        assert(variables_view(out@).len() == variables_view(holding(self.state_variables@)).len());
        assert forall|i: int| 0 <= i < out@.len() implies (#[trigger] out@[i]).current@ == holding(self.state_variables@)[i].current@ by {
            assert(variables_view(out@)[i] == variables_view(holding(self.state_variables@))[i]);
        }
        out
    }

    /// The state variables that follow the convention of immutable ones.
    fn get_immutable_variables(&self) -> (r: Vec<Variable>)
        requires
            self.wf(),
        ensures
            variables_view(r@) == variables_view(immutables(self.state_variables@)),
            r@.len() == immutables(self.state_variables@).len(),
            forall|i: int| 0 <= i < r@.len() ==> (#[trigger] r@[i]).current@ == immutables(self.state_variables@)[i].current@,
    {
        let ghost vs = self.state_variables@;
        let mut out: Vec<Variable> = Vec::new();
        let mut i: usize = 0;
        while i < self.state_variables.len()
            invariant
                i <= vs.len(),
                vs == self.state_variables@,
                self.wf(),
                variables_view(out@) == variables_view(immutables(vs.subrange(0, i as int))),
            decreases vs.len() - i,
        {
            let ghost sub = vs.subrange(0, i + 1);
            assert(sub.drop_last() =~= vs.subrange(0, i as int));
            let v = &self.state_variables[i];
            assert(v.wf());
            if name_is_immutable(v.get_current_variable_name()) {
                let ghost before = out@;
                let c = v.copy();
                out.push(c);
                proof {
                    lemma_variables_view_push(before, c);
                }
                assert(variables_view(immutables(sub)) =~= variables_view(immutables(vs.subrange(0, i as int))).push((v.current@, v.next@, v.relationship@)));
            }
            i = i + 1;
        }
        assert(vs.subrange(0, vs.len() as int) =~= vs);
        assert(variables_view(out@).len() == variables_view(immutables(self.state_variables@)).len());
        assert forall|i: int| 0 <= i < out@.len() implies (#[trigger] out@[i]).current@ == immutables(self.state_variables@)[i].current@ by {
            assert(variables_view(out@)[i] == variables_view(immutables(self.state_variables@))[i]);
        }
        out
    }

    /// The names that take a frame index at every step: the current names of the
    /// state-holding variables, then the actions.
    fn get_all_current_variable_names(&self) -> (r: Vec<String>)
        requires
            self.wf(),
        ensures
            strings_view(r@) == self.framed_names(),
    {
        let hv = self.get_state_holding_variables();
        let ghost h = holding(self.state_variables@);
        assert(variables_view(hv@).len() == variables_view(h).len());
        let mut out: Vec<String> = Vec::new();
        let mut i: usize = 0;
        while i < hv.len()
            invariant
                i <= hv@.len(),
                self.wf(),
                h == holding(self.state_variables@),
                variables_view(hv@) == variables_view(h),
                hv@.len() == h.len(),
                forall|j: int| 0 <= j < hv@.len() ==> (#[trigger] hv@[j]).current@ == h[j].current@,
                strings_view(out@) == Seq::new(i as nat, |j: int| h[j].current_name()),
            decreases hv@.len() - i,
        {
            proof {
                lemma_holding_wf(self.state_variables@);
                let j = choose|j: int| 0 <= j < self.state_variables@.len() && #[trigger] h[i as int] == self.state_variables@[j];
                assert(self.state_variables@[j].wf());
            }
            assert(hv@[i as int].current@ == h[i as int].current@);
            let name = declared_name_of(&hv[i].current);
            let ghost before = out@;
            out.push(name);
            proof {
                lemma_strings_view_push(before, name);
            }
            assert(strings_view(out@) =~= Seq::new((i + 1) as nat, |j: int| h[j].current_name()));
            i = i + 1;
        }
        let ghost mid = strings_view(out@);
        let mut k: usize = 0;
        while k < self.actions.len()
            invariant
                k <= self.actions@.len(),
                self.wf(),
                strings_view(out@) == mid + Seq::new(k as nat, |j: int| self.actions@[j].name()),
            decreases self.actions@.len() - k,
        {
            assert(self.actions@[k as int].wf());
            let name = self.actions[k].get_current_action_name().clone();
            let ghost before = out@;
            out.push(name);
            proof {
                lemma_strings_view_push(before, name);
            }
            assert(strings_view(out@) =~= mid + Seq::new((k + 1) as nat, |j: int| self.actions@[j].name()));
            k = k + 1;
        }
        assert(mid =~= Seq::new(holding(self.state_variables@).len(), |i: int| holding(self.state_variables@)[i].current_name()));
        out
    }

    /// Each next name paired with its current name.
    fn get_next_to_current_varible_names(&self) -> (r: Vec<(String, String)>)
        requires
            self.wf(),
        ensures
            pairs_view(r@) == self.next_pairs(),
    {
        let mut out: Vec<(String, String)> = Vec::new();
        let mut i: usize = 0;
        while i < self.state_variables.len()
            invariant
                i <= self.state_variables@.len(),
                self.wf(),
                pairs_view(out@) == Seq::new(i as nat, |j: int| (self.state_variables@[j].next_name(), self.state_variables@[j].current_name())),
            decreases self.state_variables@.len() - i,
        {
            let v = &self.state_variables[i];
            assert(v.wf());
            let ghost before = out@;
            let p = (v.get_next_variable_name().clone(), v.get_current_variable_name().clone());
            out.push(p);
            proof {
                lemma_pairs_view_push(before, p);
            }
            assert(pairs_view(out@) =~= Seq::new((i + 1) as nat, |j: int| (self.state_variables@[j].next_name(), self.state_variables@[j].current_name())));
            i = i + 1;
        }
        out
    }

    /// Each current name paired with its next name.
    pub fn get_current_to_next_varible_names(&self) -> (r: Vec<(String, String)>)
        requires
            self.wf(),
        ensures
            pairs_view(r@) == Seq::new(
                self.state_variables@.len(),
                |i: int| (self.state_variables@[i].current_name(), self.state_variables@[i].next_name()),
            ),
    {
        let mut out: Vec<(String, String)> = Vec::new();
        let mut i: usize = 0;
        while i < self.state_variables.len()
            invariant
                i <= self.state_variables@.len(),
                self.wf(),
                pairs_view(out@) == Seq::new(i as nat, |j: int| (self.state_variables@[j].current_name(), self.state_variables@[j].next_name())),
            decreases self.state_variables@.len() - i,
        {
            let v = &self.state_variables[i];
            assert(v.wf());
            let ghost before = out@;
            let p = (v.get_current_variable_name().clone(), v.get_next_variable_name().clone());
            out.push(p);
            proof {
                lemma_pairs_view_push(before, p);
            }
            assert(pairs_view(out@) =~= Seq::new((i + 1) as nat, |j: int| (self.state_variables@[j].current_name(), self.state_variables@[j].next_name())));
            i = i + 1;
        }
        out
    }

    /// The builder of step 0.
    fn builder(&self) -> (r: BMCBuilder)
        requires
            self.wf(),
        ensures
            r.renaming() == self.frame_renaming(0),
            r.step == 0,
    {
        BMCBuilder {
            current_variables: self.get_all_current_variable_names(),
            next_variables: self.get_next_to_current_varible_names(),
            step: 0,
        }
    }
}

fn declared_name_of(c: &Command) -> (r: String)
    requires
        c@ is DeclareFun,
    ensures
        r@ == crate::model::declared_name(c@),
{
    crate::model::declared_symbol(c).clone()
}

pub proof fn lemma_variables_view_push(s: Seq<Variable>, x: Variable)
    ensures
        variables_view(s.push(x)) == variables_view(s).push((x.current@, x.next@, x.relationship@)),
{
    assert(variables_view(s.push(x)) =~= variables_view(s).push((x.current@, x.next@, x.relationship@)));
}

pub proof fn lemma_strings_view_push(s: Seq<String>, x: String)
    ensures
        strings_view(s.push(x)) == strings_view(s).push(x@),
{
    assert(strings_view(s.push(x)) =~= strings_view(s).push(x@));
}

pub proof fn lemma_pairs_view_push(s: Seq<(String, String)>, x: (String, String))
    ensures
        pairs_view(s.push(x)) == pairs_view(s).push((x.0@, x.1@)),
{
    assert(pairs_view(s.push(x)) =~= pairs_view(s).push((x.0@, x.1@)));
}

/// The state-holding variables are among the state variables.
pub proof fn lemma_holding_wf(vars: Seq<Variable>)
    ensures
        forall|i: int| 0 <= i < holding(vars).len() ==> exists|j: int| 0 <= j < vars.len() && #[trigger] holding(vars)[i] == vars[j],
        forall|i: int| 0 <= i < immutables(vars).len() ==> exists|j: int| 0 <= j < vars.len() && #[trigger] immutables(vars)[i] == vars[j],
        holding(vars).len() + immutables(vars).len() == vars.len(),
    decreases vars.len(),
{
    if vars.len() > 0 {
        let p = vars.drop_last();
        lemma_holding_wf(p);
        assert forall|i: int| 0 <= i < holding(vars).len() implies exists|j: int| 0 <= j < vars.len() && #[trigger] holding(vars)[i] == vars[j] by {
            if i < holding(p).len() {
                let j = choose|j: int| 0 <= j < p.len() && #[trigger] holding(p)[i] == p[j];
                assert(holding(vars)[i] == vars[j]);
            } else {
                assert(holding(vars)[i] == vars[vars.len() - 1]);
            }
        }
        assert forall|i: int| 0 <= i < immutables(vars).len() implies exists|j: int| 0 <= j < vars.len() && #[trigger] immutables(vars)[i] == vars[j] by {
            if i < immutables(p).len() {
                let j = choose|j: int| 0 <= j < p.len() && #[trigger] immutables(p)[i] == p[j];
                assert(immutables(vars)[i] == vars[j]);
            } else {
                assert(immutables(vars)[i] == vars[vars.len() - 1]);
            }
        }
    }
}

impl VMTModel {
    /// The declarations before step `s` of the unrolling: the immutable variables,
    /// then frames `0` to `s - 1`.
    pub open spec fn decls_before(&self, s: nat) -> Seq<CommandVal> {
        if s == 0 {
            Seq::new(immutables(self.state_variables@).len(), |j: int| immutables(self.state_variables@)[j].current@)
        } else {
            self.unrolled_decls((s - 1) as nat)
        }
    }

    /// Adds the declarations of the state-holding variables and actions at the
    /// builder's frame.
    fn declare_frame(&self, smt: &mut SMTProblem, hv: &Vec<Variable>, builder: &BMCBuilder, s: u8)
        requires
            self.wf(),
            builder.renaming() == self.frame_renaming(s as nat),
            hv@.len() == holding(self.state_variables@).len(),
            forall|j: int| 0 <= j < hv@.len() ==> (#[trigger] hv@[j]).current@ == holding(self.state_variables@)[j].current@,
        ensures
            commands_view(final(smt).variable_definitions@) == commands_view(old(smt).variable_definitions@) + self.decls_at(s as nat),
            commands_view(final(smt).sorts@) == commands_view(old(smt).sorts@),
            commands_view(final(smt).function_definitions@) == commands_view(old(smt).function_definitions@),
            terms_view(final(smt).init_and_trans_assertions@) == terms_view(old(smt).init_and_trans_assertions@),
            option_term_view(final(smt).property_assertion) == option_term_view(old(smt).property_assertion),
    {
        smt.add_variable_definitions(hv, &self.actions, builder);
        let ghost fr = self.frame_renaming(s as nat);
        assert(Seq::new(hv@.len(), |i: int| renamed_command(&builder.renaming(), hv@[i].current@)) =~= Seq::new(
            holding(self.state_variables@).len(),
            |j: int| renamed_command(&fr, holding(self.state_variables@)[j].current@),
        ));
        assert(Seq::new(self.actions@.len(), |i: int| renamed_command(&builder.renaming(), self.actions@[i].action@))
            =~= Seq::new(self.actions@.len(), |j: int| renamed_command(&fr, self.actions@[j].action@)));
        assert(commands_view(smt.variable_definitions@) =~= commands_view(old(smt).variable_definitions@) + self.decls_at(s as nat));
    }

    /// The declarations of the immutable variables, each once.
    pub open spec fn immutable_decls(&self) -> Seq<CommandVal> {
        Seq::new(immutables(self.state_variables@).len(), |j: int| immutables(self.state_variables@)[j].current@)
    }

    /// A problem with the model's declarations and its immutable variables declared once.
    fn problem_with_immutables(&self) -> (r: SMTProblem)
        requires
            self.wf(),
        ensures
            commands_view(r.variable_definitions@) == self.immutable_decls(),
            commands_view(r.sorts@) == commands_view(self.sorts@),
            commands_view(r.function_definitions@) == commands_view(self.function_definitions@),
            r.init_and_trans_assertions@.len() == 0,
            r.property_assertion is None,
    {
        let iv = self.get_immutable_variables();
        let mut smt_problem = SMTProblem::new(&self.sorts, &self.function_definitions);
        let mut j: usize = 0;
        while j < iv.len()
            invariant
                j <= iv@.len(),
                iv@.len() == immutables(self.state_variables@).len(),
                forall|m: int| 0 <= m < iv@.len() ==> (#[trigger] iv@[m]).current@ == immutables(self.state_variables@)[m].current@,
                commands_view(smt_problem.variable_definitions@) == Seq::new(j as nat, |m: int| immutables(self.state_variables@)[m].current@),
                commands_view(smt_problem.sorts@) == commands_view(self.sorts@),
                commands_view(smt_problem.function_definitions@) == commands_view(self.function_definitions@),
                smt_problem.init_and_trans_assertions@.len() == 0,
                smt_problem.property_assertion is None,
            decreases iv@.len() - j,
        {
            let ghost before = commands_view(smt_problem.variable_definitions@);
            let c = iv[j].current.copy();
            smt_problem.variable_definitions.push(c);
            assert(commands_view(smt_problem.variable_definitions@) =~= before.push(c@));
            assert(commands_view(smt_problem.variable_definitions@) =~= Seq::new((j + 1) as nat, |m: int| immutables(self.state_variables@)[m].current@));
            j = j + 1;
        }
        assert(commands_view(smt_problem.variable_definitions@) =~= self.immutable_decls());
        smt_problem
    }

    /// The bounded model checking problem of depth `length`: the init assertion at
    /// frame 0, one transition assertion per step, the negated property at frame
    /// `length`, and the declarations of every frame.
    pub fn unroll(&self, length: u8) -> (r: SMTProblem)
        requires
            self.wf(),
        ensures
            terms_view(r.init_and_trans_assertions@) == self.unrolled_assertions(length as nat),
            option_term_view(r.property_assertion) == Some(renamed(&self.frame_renaming(length as nat), self.prop_body())),
            commands_view(r.variable_definitions@) == self.unrolled_decls(length as nat),
            commands_view(r.sorts@) == commands_view(self.sorts@),
            commands_view(r.function_definitions@) == commands_view(self.function_definitions@),
    {
        let mut builder = self.builder();
        let hv = self.get_state_holding_variables();
        let mut smt_problem = self.problem_with_immutables();
        smt_problem.add_assertion(&self.initial_condition, &builder);
        assert(terms_view(smt_problem.init_and_trans_assertions@) =~= self.unrolled_assertions(0));
        let mut s: u8 = 0;
        while s < length
            invariant
                s <= length,
                self.wf(),
                builder.step == s,
                builder.renaming() == self.frame_renaming(s as nat),
                hv@.len() == holding(self.state_variables@).len(),
                forall|m: int| 0 <= m < hv@.len() ==> (#[trigger] hv@[m]).current@ == holding(self.state_variables@)[m].current@,
                terms_view(smt_problem.init_and_trans_assertions@) == self.unrolled_assertions(s as nat),
                commands_view(smt_problem.variable_definitions@) == self.decls_before(s as nat),
                commands_view(smt_problem.sorts@) == commands_view(self.sorts@),
                commands_view(smt_problem.function_definitions@) == commands_view(self.function_definitions@),
            decreases length - s,
        {
            self.declare_frame(&mut smt_problem, &hv, &builder, s);
            smt_problem.add_assertion(&self.transition_condition, &builder);
            assert(terms_view(smt_problem.init_and_trans_assertions@) =~= self.unrolled_assertions((s + 1) as nat));
            builder.add_step();
            s = s + 1;
        }
        self.declare_frame(&mut smt_problem, &hv, &builder, length);
        smt_problem.add_property_assertion(&self.property_condition, &builder);
        smt_problem
    }

    /// The problem that declares the immutable variables and frame 0 and asserts the initial condition.
    pub fn get_initial_term(&self) -> (r: SMTProblem)
        requires
            self.wf(),
        ensures
            terms_view(r.init_and_trans_assertions@) == seq![renamed(&self.frame_renaming(0), self.init_body())],
            commands_view(r.variable_definitions@) == self.immutable_decls() + self.decls_at(0),
            r.property_assertion is None,
    {
        let builder = self.builder();
        let hv = self.get_state_holding_variables();
        let mut smt_problem = self.problem_with_immutables();
        self.declare_frame(&mut smt_problem, &hv, &builder, 0);
        smt_problem.add_assertion(&self.initial_condition, &builder);
        assert(terms_view(smt_problem.init_and_trans_assertions@) =~= seq![renamed(&self.frame_renaming(0), self.init_body())]);
        smt_problem
    }

    /// The problem of one transition: the immutable variables and frames 0 and 1 declared, the transition asserted.
    pub fn get_trans_term(&self) -> (r: SMTProblem)
        requires
            self.wf(),
        ensures
            terms_view(r.init_and_trans_assertions@) == seq![renamed(&self.frame_renaming(0), self.trans_body())],
            commands_view(r.variable_definitions@) == self.immutable_decls() + self.decls_at(0) + self.decls_at(1),
            r.property_assertion is None,
    {
        let mut builder = self.builder();
        let hv = self.get_state_holding_variables();
        let mut smt_problem = self.problem_with_immutables();
        self.declare_frame(&mut smt_problem, &hv, &builder, 0);
        smt_problem.add_assertion(&self.transition_condition, &builder);
        builder.add_step();
        self.declare_frame(&mut smt_problem, &hv, &builder, 1);
        assert(commands_view(smt_problem.variable_definitions@) =~= self.immutable_decls() + self.decls_at(0) + self.decls_at(1));
        assert(terms_view(smt_problem.init_and_trans_assertions@) =~= seq![renamed(&self.frame_renaming(0), self.trans_body())]);
        smt_problem
    }

    /// The problem that declares the immutable variables and frame 0 and asserts the negated property.
    pub fn get_property_term(&self) -> (r: SMTProblem)
        requires
            self.wf(),
        ensures
            option_term_view(r.property_assertion) == Some(renamed(&self.frame_renaming(0), self.prop_body())),
            commands_view(r.variable_definitions@) == self.immutable_decls() + self.decls_at(0),
            r.init_and_trans_assertions@.len() == 0,
    {
        let builder = self.builder();
        let hv = self.get_state_holding_variables();
        let mut smt_problem = self.problem_with_immutables();
        self.declare_frame(&mut smt_problem, &hv, &builder, 0);
        smt_problem.add_property_assertion(&self.property_condition, &builder);
        assert(smt_problem.init_and_trans_assertions@.len() == terms_view(smt_problem.init_and_trans_assertions@).len());
        smt_problem
    }
}

/// Unrolling to depth `k` gives `k + 1` init and transition assertions, and
/// declares each state-holding variable and action once per frame and each
/// immutable variable once.
pub proof fn lemma_unroll_length(m: VMTModel, k: nat)
    ensures
        m.unrolled_assertions(k).len() == k + 1,
        m.unrolled_decls(k).len() == (k + 1) * (holding(m.state_variables@).len() + m.actions@.len())
            + immutables(m.state_variables@).len(),
    decreases k,
{
    let a = holding(m.state_variables@).len() + m.actions@.len();
    assert(m.decls_at(k).len() == a);
    if k == 0 {
        assert(m.unrolled_decls(0).len() == immutables(m.state_variables@).len() + a);
        assert((k + 1) * a == a) by (nonlinear_arith)
            requires
                k == 0,
        ;
    }
    if k > 0 {
        lemma_unroll_length(m, (k - 1) as nat);
        let kk = k as int;
        let h = immutables(m.state_variables@).len() as int;
        assert(m.unrolled_decls(k) == m.unrolled_decls((k - 1) as nat) + m.decls_at(k));
        assert(m.unrolled_decls((k - 1) as nat).len() == kk * a + h);
        assert((kk + 1) * a == kk * a + a) by (nonlinear_arith);
        assert(m.unrolled_decls(k).len() == (kk + 1) * a + h);
        assert((k + 1) * a == (kk + 1) * a);
    }
}

/// The `declare-sort` commands, in order.
pub open spec fn sorts_of(cs: Seq<CommandVal>) -> Seq<CommandVal>
    decreases cs.len(),
{
    if cs.len() == 0 {
        Seq::empty()
    } else if cs.last() is DeclareSort {
        sorts_of(cs.drop_last()).push(cs.last())
    } else {
        sorts_of(cs.drop_last())
    }
}

/// The `declare-fun` commands with parameters, in order.
pub open spec fn functions_of(cs: Seq<CommandVal>) -> Seq<CommandVal>
    decreases cs.len(),
{
    if cs.len() == 0 {
        Seq::empty()
    } else if cs.last() is DeclareFun && cs.last()->DeclareFun_1.len() > 0 {
        functions_of(cs.drop_last()).push(cs.last())
    } else {
        functions_of(cs.drop_last())
    }
}

/// The `declare-fun` commands without parameters, each under its name, in order.
pub open spec fn nullary_of(cs: Seq<CommandVal>) -> NamedCommands
    decreases cs.len(),
{
    if cs.len() == 0 {
        Seq::empty()
    } else if cs.last() is DeclareFun && cs.last()->DeclareFun_1.len() == 0 {
        nullary_of(cs.drop_last()).push((cs.last()->DeclareFun_0, cs.last()))
    } else {
        nullary_of(cs.drop_last())
    }
}

/// The `define-fun` commands, in order.
pub open spec fn relationships_of(cs: Seq<CommandVal>) -> Seq<CommandVal>
    decreases cs.len(),
{
    if cs.len() == 0 {
        Seq::empty()
    } else if cs.last() is DefineFun {
        relationships_of(cs.drop_last()).push(cs.last())
    } else {
        relationships_of(cs.drop_last())
    }
}

pub open spec fn holds_assert(cs: Seq<CommandVal>) -> bool {
    exists|i: int| 0 <= i < cs.len() && (#[trigger] cs[i]) is Assert
}

/// The commands before the last three.
pub open spec fn declarations_of(cs: Seq<CommandVal>) -> Seq<CommandVal> {
    cs.subrange(0, cs.len() - 3)
}

/// The commands form a transition system: more than three of them, the last three
/// the `:init`, `:trans` and `:invar-property` components, no `assert` before
/// them, and every relationship well formed.
pub open spec fn is_system(cs: Seq<CommandVal>) -> bool {
    &&& cs.len() > 3
    &&& has_attribute(cs[cs.len() - 3], "init"@)
    &&& has_attribute(cs[cs.len() - 2], "trans"@)
    &&& has_attribute(cs[cs.len() - 1], "invar-property"@)
    &&& !holds_assert(declarations_of(cs))
    &&& classify(relationships_of(declarations_of(cs)), nullary_of(declarations_of(cs))) is Some
}

/// The model is the system that the commands describe: well formed, its
/// components the last three commands' terms, its declarations and relationships
/// those before them.
pub open spec fn built_from(m: VMTModel, cs: Seq<CommandVal>) -> bool {
    let decls = declarations_of(cs);
    &&& m.wf()
    &&& m.initial_condition@ == cs[cs.len() - 3]->DefineFun_3
    &&& m.transition_condition@ == cs[cs.len() - 2]->DefineFun_3
    &&& m.property_condition@ == cs[cs.len() - 1]->DefineFun_3
    &&& commands_view(m.sorts@) == sorts_of(decls)
    &&& commands_view(m.function_definitions@) == functions_of(decls)
    &&& classify(relationships_of(decls), nullary_of(decls)) == Some(
        (variables_view(m.state_variables@), actions_view(m.actions@), facts_view(m.axioms@)),
    )
}

proof fn lemma_assoc_declared(v: NamedCommands, k: Seq<char>)
    requires
        forall|i: int| 0 <= i < v.len() ==> (#[trigger] v[i]).1 is DeclareFun,
    ensures
        commands_assoc(v, k) matches Some(c) ==> c is DeclareFun,
    decreases v.len(),
{
    if v.len() > 0 {
        let p = v.drop_last();
        assert forall|i: int| 0 <= i < p.len() implies (#[trigger] p[i]).1 is DeclareFun by {
            assert(p[i] == v[i]);
        }
        lemma_assoc_declared(p, k);
        assert(v.last() == v[v.len() - 1]);
    }
}

proof fn lemma_nullary_declared(cs: Seq<CommandVal>)
    ensures
        forall|i: int| 0 <= i < nullary_of(cs).len() ==> (#[trigger] nullary_of(cs)[i]).1 is DeclareFun,
    decreases cs.len(),
{
    if cs.len() > 0 {
        lemma_nullary_declared(cs.drop_last());
    }
}

/// Classified variables and actions are declarations when every named command is one.
proof fn lemma_classify_declared(rels: Seq<CommandVal>, vc: NamedCommands)
    requires
        forall|i: int| 0 <= i < vc.len() ==> (#[trigger] vc[i]).1 is DeclareFun,
    ensures
        classify(rels, vc) matches Some((v, a, f)) ==> (forall|i: int| 0 <= i < v.len() ==> (#[trigger] v[i]).0 is DeclareFun
            && v[i].1 is DeclareFun) && (forall|i: int| 0 <= i < a.len() ==> (#[trigger] a[i]).0 is DeclareFun),
    decreases rels.len(),
{
    if rels.len() > 0 {
        lemma_classify_declared(rels.drop_last(), vc);
        let c = rels.last();
        if let CommandVal::DefineFun(_, _, _, t) = c {
            if let TermVal::Attrs(inner, attrs) = t {
                if attrs.len() == 1 {
                    lemma_assoc_declared(vc, crate::utils::scrubbed(crate::concrete::term_text(*inner)));
                    lemma_assoc_declared(vc, crate::utils::scrubbed(crate::utils::attr_value_text(attrs[0].1)));
                }
            }
        }
    }
}

impl VMTModel {
    /// The transition system that the commands describe.
    pub fn checked_from(commands: Vec<Command>) -> (r: Result<VMTModel, VMTError>)
        ensures
            r is Ok <==> is_system(commands_view(commands@)),
            r matches Ok(m) ==> built_from(m, commands_view(commands@)),
            r matches Err(e) ==> (e is UnknownCommand ==> holds_assert(declarations_of(commands_view(commands@)))),
            ({
                let cs = commands_view(commands@);
                &&& cs.len() > 3
                &&& has_attribute(cs[cs.len() - 3], "init"@)
                &&& has_attribute(cs[cs.len() - 2], "trans"@)
                &&& has_attribute(cs[cs.len() - 1], "invar-property"@)
                &&& holds_assert(declarations_of(cs))
            }) ==> r matches Err(VMTError::UnknownCommand(_)),
    {
        let ghost cs = commands_view(commands@);
        let n = commands.len();
        if n <= 3 {
            return Err(VMTError::StructureError(String::from_str("not enough commands for a transition system")));
        }
        if !command_has_attribute_string(&commands[n - 1], "invar-property")
            || !command_has_attribute_string(&commands[n - 2], "trans")
            || !command_has_attribute_string(&commands[n - 3], "init") {
            return Err(VMTError::StructureError(String::from_str(
                "the last three commands must define the init, trans and invar-property components",
            )));
        }
        let property_condition = get_transition_system_component(&commands[n - 1], "invar-property");
        let transition_condition = get_transition_system_component(&commands[n - 2], "trans");
        let initial_condition = get_transition_system_component(&commands[n - 3], "init");
        let ghost decls = declarations_of(cs);
        let mut variable_commands: Vec<(String, Command)> = Vec::new();
        let mut sorts: Vec<Command> = Vec::new();
        let mut variable_relationships: Vec<Command> = Vec::new();
        let mut function_definitions: Vec<Command> = Vec::new();
        let mut i: usize = 0;
        while i < n - 3
            invariant
                n == commands@.len(),
                n > 3,
                i <= n - 3,
                cs == commands_view(commands@),
                decls == declarations_of(cs),
                !holds_assert(decls.subrange(0, i as int)),
                named_commands_view(variable_commands@) == nullary_of(decls.subrange(0, i as int)),
                commands_view(sorts@) == sorts_of(decls.subrange(0, i as int)),
                commands_view(variable_relationships@) == relationships_of(decls.subrange(0, i as int)),
                commands_view(function_definitions@) == functions_of(decls.subrange(0, i as int)),
            decreases n - 3 - i,
        {
            let ghost sub = decls.subrange(0, i + 1);
            assert(sub.drop_last() =~= decls.subrange(0, i as int));
            assert(sub.last() == commands@[i as int]@);
            let command = &commands[i];
            let ghost vb = variable_commands@;
            let ghost sb = sorts@;
            let ghost rb = variable_relationships@;
            let ghost fb = function_definitions@;
            match command {
                Command::DeclareFun { symbol, parameters, .. } => {
                    if parameters.len() == 0 {
                        let entry = (symbol.clone(), command.copy());
                        variable_commands.push(entry);
                        assert(named_commands_view(variable_commands@) =~= named_commands_view(vb).push((entry.0@, entry.1@)));
                    } else {
                        let c = command.copy();
                        function_definitions.push(c);
                        assert(commands_view(function_definitions@) =~= commands_view(fb).push(c@));
                    }
                },
                Command::DefineFun { .. } => {
                    let c = command.copy();
                    variable_relationships.push(c);
                    assert(commands_view(variable_relationships@) =~= commands_view(rb).push(c@));
                },
                Command::DeclareSort { .. } => {
                    let c = command.copy();
                    sorts.push(c);
                    assert(commands_view(sorts@) =~= commands_view(sb).push(c@));
                },
                Command::Assert { .. } => {
                    assert(decls[i as int] is Assert);
                    return Err(VMTError::UnknownCommand(command.to_string()));
                },
            }
            assert forall|j: int| 0 <= j < sub.len() implies !((#[trigger] sub[j]) is Assert) by {
                if j < i {
                    assert(sub[j] == decls.subrange(0, i as int)[j]);
                }
            }
            i = i + 1;
        }
        assert(decls.subrange(0, (n - 3) as int) =~= decls);
        assert(!holds_assert(decls));
        let (state_variables, actions, axioms) = match get_variables_actions_and_axioms(&variable_relationships, &variable_commands) {
            Ok(parts) => parts,
            Err(e) => {
                return Err(e);
            },
        };
        proof {
            lemma_nullary_declared(decls);
            lemma_classify_declared(relationships_of(decls), nullary_of(decls));
            assert forall|k: int| 0 <= k < state_variables@.len() implies (#[trigger] state_variables@[k]).wf() by {
                assert(variables_view(state_variables@)[k] == (state_variables@[k].current@, state_variables@[k].next@, state_variables@[k].relationship@));
            }
            assert forall|k: int| 0 <= k < actions@.len() implies (#[trigger] actions@[k]).wf() by {
                assert(actions_view(actions@)[k] == (actions@[k].action@, actions@[k].relationship@));
            }
            lemma_sorts_declared(decls);
            assert forall|k: int| 0 <= k < sorts@.len() implies (#[trigger] sorts@[k])@ is DeclareSort by {
                assert(commands_view(sorts@)[k] == sorts@[k]@);
            }
        }
        Ok(VMTModel {
            sorts,
            function_definitions,
            state_variables,
            actions,
            axioms,
            initial_condition,
            transition_condition,
            property_condition,
        })
    }
}

proof fn lemma_sorts_declared(cs: Seq<CommandVal>)
    ensures
        forall|i: int| 0 <= i < sorts_of(cs).len() ==> (#[trigger] sorts_of(cs)[i]) is DeclareSort,
    decreases cs.len(),
{
    if cs.len() > 0 {
        lemma_sorts_declared(cs.drop_last());
    }
}

pub open spec fn variable_commands(v: Seq<VarView>) -> Seq<CommandVal>
    decreases v.len(),
{
    if v.len() == 0 {
        Seq::empty()
    } else {
        variable_commands(v.drop_last()) + seq![v.last().0, v.last().1, v.last().2]
    }
}

pub open spec fn action_commands(v: Seq<ActView>) -> Seq<CommandVal>
    decreases v.len(),
{
    if v.len() == 0 {
        Seq::empty()
    } else {
        action_commands(v.drop_last()) + seq![v.last().0, v.last().1]
    }
}

/// `(define-fun name () Bool t)`.
pub open spec fn component(name: Seq<char>, t: TermVal) -> CommandVal {
    CommandVal::DefineFun(name, Seq::empty(), SortVal::Simple("Bool"@), t)
}

fn component_command(name: &str, t: &Term) -> (r: Command)
    ensures
        r@ == component(name@, t@),
{
    let c = Command::DefineFun {
        sig: FunctionDec {
            name: String::from_str(name),
            parameters: Vec::new(),
            result: Sort::Simple { identifier: String::from_str("Bool") },
        },
        term: t.copy(),
    };
    assert(c@->DefineFun_1 =~= Seq::<(Seq<char>, SortVal)>::empty());
    c
}

impl VMTModel {
    /// The commands that describe the system, in the order it is read back in.
    pub open spec fn model_commands(&self) -> Seq<CommandVal> {
        commands_view(self.sorts@) + commands_view(self.function_definitions@) + variable_commands(
            variables_view(self.state_variables@),
        ) + action_commands(actions_view(self.actions@)) + seq![
            component("init"@, self.initial_condition@),
            component("trans"@, self.transition_condition@),
            component("prop"@, self.property_condition@),
        ]
    }

    /// The commands that describe the system.
    pub fn as_commands(&self) -> (r: Vec<Command>)
        ensures
            commands_view(r@) == self.model_commands(),
    {
        let mut commands = copy_commands(&self.sorts);
        let ghost s0 = commands_view(commands@);
        let fds = copy_commands(&self.function_definitions);
        let mut k: usize = 0;
        while k < fds.len()
            invariant
                k <= fds@.len(),
                commands_view(commands@) == s0 + commands_view(fds@).subrange(0, k as int),
            decreases fds@.len() - k,
        {
            let ghost before = commands_view(commands@);
            let c = fds[k].copy();
            commands.push(c);
            assert(commands_view(commands@) =~= before.push(c@));
            assert(commands_view(fds@).subrange(0, k + 1) =~= commands_view(fds@).subrange(0, k as int).push(c@));
            k = k + 1;
        }
        assert(commands_view(fds@).subrange(0, fds@.len() as int) =~= commands_view(fds@));
        let ghost s1 = commands_view(commands@);
        let ghost vv = variables_view(self.state_variables@);
        let mut i: usize = 0;
        while i < self.state_variables.len()
            invariant
                i <= self.state_variables@.len(),
                vv == variables_view(self.state_variables@),
                commands_view(commands@) == s1 + variable_commands(vv.subrange(0, i as int)),
            decreases self.state_variables@.len() - i,
        {
            let ghost before = commands_view(commands@);
            let cs = self.state_variables[i].as_commands();
            let a = cs[0].copy();
            let b = cs[1].copy();
            let c = cs[2].copy();
            commands.push(a);
            commands.push(b);
            commands.push(c);
            proof {
                let sub = vv.subrange(0, i + 1);
                assert(sub.drop_last() =~= vv.subrange(0, i as int));
                assert(sub.last() == vv[i as int]);
                assert(commands_view(commands@) =~= before + seq![a@, b@, c@]);
            }
            i = i + 1;
        }
        assert(vv.subrange(0, vv.len() as int) =~= vv);
        let ghost s2 = commands_view(commands@);
        let ghost av = actions_view(self.actions@);
        let mut j: usize = 0;
        while j < self.actions.len()
            invariant
                j <= self.actions@.len(),
                av == actions_view(self.actions@),
                commands_view(commands@) == s2 + action_commands(av.subrange(0, j as int)),
            decreases self.actions@.len() - j,
        {
            let ghost before = commands_view(commands@);
            let cs = self.actions[j].as_commands();
            let a = cs[0].copy();
            let b = cs[1].copy();
            commands.push(a);
            commands.push(b);
            proof {
                let sub = av.subrange(0, j + 1);
                assert(sub.drop_last() =~= av.subrange(0, j as int));
                assert(sub.last() == av[j as int]);
                assert(commands_view(commands@) =~= before + seq![a@, b@]);
            }
            j = j + 1;
        }
        assert(av.subrange(0, av.len() as int) =~= av);
        let ghost s3 = commands_view(commands@);
        let c1 = component_command("init", &self.initial_condition);
        let c2 = component_command("trans", &self.transition_condition);
        let c3 = component_command("prop", &self.property_condition);
        commands.push(c1);
        commands.push(c2);
        commands.push(c3);
        assert(commands_view(commands@) =~= s3 + seq![c1@, c2@, c3@]);
        assert(commands_view(commands@) =~= self.model_commands());
        commands
    }

    /// The lines that report the size of the system: variables, actions, sorts.
    pub fn print_stats(&self) -> (r: Vec<String>)
        ensures
            r@.len() == 3,
            r@[0]@ == "Number of Variables: "@ + crate::text::decimal_text(self.state_variables@.len() as nat),
            r@[1]@ == "Number of Actions: "@ + crate::text::decimal_text(self.actions@.len() as nat),
            r@[2]@ == "Number of Sorts: "@ + crate::text::decimal_text(self.sorts@.len() as nat),
    {
        let mut out: Vec<String> = Vec::new();
        out.push(labelled("Number of Variables: ", self.state_variables.len()));
        out.push(labelled("Number of Actions: ", self.actions.len()));
        out.push(labelled("Number of Sorts: ", self.sorts.len()));
        out
    }

    /// The system as text, one command per line.
    pub fn as_vmt_string(&self) -> (r: String)
        ensures
            r@ == crate::text::lines(crate::smt::command_lines(self.model_commands())),
    {
        let commands = self.as_commands();
        let mut texts: Vec<String> = Vec::new();
        let mut i: usize = 0;
        while i < commands.len()
            invariant
                i <= commands@.len(),
                texts@.len() == i,
                forall|j: int| 0 <= j < i ==> (#[trigger] texts@[j])@ == crate::concrete::command_text(commands@[j]@),
            decreases commands@.len() - i,
        {
            texts.push(commands[i].to_string());
            i = i + 1;
        }
        assert(strings_view(texts@) =~= crate::smt::command_lines(commands_view(commands@)));
        crate::text::join_lines(&texts)
    }

    /// The names of the declared sorts.
    pub fn get_parametric_sort_names(&self) -> (r: Vec<String>)
        requires
            self.wf(),
        ensures
            strings_view(r@) == Seq::new(self.sorts@.len(), |i: int| self.sorts@[i]@->DeclareSort_0),
    {
        let mut out: Vec<String> = Vec::new();
        let mut i: usize = 0;
        while i < self.sorts.len()
            invariant
                i <= self.sorts@.len(),
                self.wf(),
                out@.len() == i,
                forall|j: int| 0 <= j < i ==> (#[trigger] out@[j])@ == self.sorts@[j]@->DeclareSort_0,
            decreases self.sorts@.len() - i,
        {
            assert(self.sorts@[i as int]@ is DeclareSort);
            match &self.sorts[i] {
                Command::DeclareSort { symbol, .. } => {
                    out.push(symbol.clone());
                },
                _ => {
                    return vstd::pervasive::unreached();
                },
            }
            i = i + 1;
        }
        assert(strings_view(out@) =~= Seq::new(self.sorts@.len(), |i: int| self.sorts@[i]@->DeclareSort_0));
        out
    }

    /// The system that the text describes.
    pub fn from_text(text: &str) -> (r: Result<VMTModel, VMTError>)
        ensures
            r is Ok <==> (crate::parser::read_commands(text@) matches Some(cs) && is_system(cs)),
            r matches Ok(m) ==> built_from(m, crate::parser::read_commands(text@)->0),
            r matches Ok(m) ==> m.wf() && exists|cs: Seq<CommandVal>| #[trigger] built_from(m, cs)
                && crate::parser::lex_from(text@, 0) == Some(
                crate::parser::sxs_tokens(Seq::new(cs.len(), |i: int| crate::concrete::command_sx(cs[i]))),
            ),
    {
        match crate::parser::parse_commands(text) {
            Ok(commands) => {
                let ghost cs = commands_view(commands@);
                assert(Seq::new(cs.len(), |i: int| crate::concrete::command_sx(cs[i])) =~= Seq::new(
                    commands@.len(),
                    |i: int| crate::concrete::command_sx(commands@[i]@),
                ));
                let r = VMTModel::checked_from(commands);
                assert(r matches Ok(m) ==> built_from(m, cs));
                r
            },
            Err(e) => Err(e),
        }
    }
}

fn labelled(label: &str, n: usize) -> (r: String)
    ensures
        r@ == label@ + crate::text::decimal_text(n as nat),
{
    let mut s = String::from_str(label);
    let ds = crate::text::decimal_chars(n as u64);
    let d = crate::text::string_of(&ds);
    s.append(d.as_str());
    s
}

impl VMTModel {
    /// The commands of the system over the uninterpreted array signature, after
    /// the declarations that stand for the arrays.
    pub open spec fn abstracted_commands(&self) -> Seq<CommandVal> {
        crate::array_abstractor::array_type_definitions("Int"@, "Int"@) + Seq::new(
            self.model_commands().len(),
            |i: int| crate::array_abstractor::abstract_command(self.model_commands()[i]),
        )
    }

    /// The system with the theory of arrays replaced by uninterpreted sorts and
    /// functions, read back from its abstracted commands.
    pub fn abstract_array_theory(&self) -> (r: Result<VMTModel, VMTError>)
        ensures
            r is Ok <==> is_system(self.abstracted_commands()),
            r matches Ok(m) ==> built_from(m, self.abstracted_commands()),
    {
        let abstractor = crate::array_abstractor::ArrayAbstractor::new();
        let mut all = abstractor.get_array_type_definitions();
        let commands = self.as_commands();
        let ghost defs = crate::array_abstractor::array_type_definitions("Int"@, "Int"@);
        assert forall|j: int| 0 <= j < 4 implies commands_view(all@)[j] == defs[j] by {
            assert(all@[4 * 0 + j]@ == crate::array_abstractor::array_type_definitions(abstractor.array_types@[0].0@, abstractor.array_types@[0].1@)[j]);
        }
        assert(commands_view(all@) =~= defs);
        let mut i: usize = 0;
        while i < commands.len()
            invariant
                i <= commands@.len(),
                commands_view(commands@) == self.model_commands(),
                commands_view(all@) == defs + Seq::new(i as nat, |j: int| crate::array_abstractor::abstract_command(self.model_commands()[j])),
            decreases commands@.len() - i,
        {
            let ghost before = commands_view(all@);
            let c = abstractor.abstract_command(&commands[i]);
            all.push(c);
            assert(commands@[i as int]@ == self.model_commands()[i as int]);
            assert(commands_view(all@) =~= before.push(c@));
            assert(commands_view(all@) =~= defs + Seq::new((i + 1) as nat, |j: int| crate::array_abstractor::abstract_command(self.model_commands()[j])));
            i = i + 1;
        }
        assert(commands_view(all@) =~= self.abstracted_commands());
        VMTModel::checked_from(all)
    }
}

/// Abstraction leaves no `Array` sort and no `select`, `store` or `const` in
/// the commands of a system.
pub proof fn lemma_abstraction_array_free(m: VMTModel)
    ensures
        forall|i: int| 0 <= i < m.abstracted_commands().len() ==> crate::array_abstractor::command_array_free(
            #[trigger] m.abstracted_commands()[i],
        ),
{
    let cs = m.abstracted_commands();
    let defs = crate::array_abstractor::array_type_definitions("Int"@, "Int"@);
    assert forall|i: int| 0 <= i < cs.len() implies crate::array_abstractor::command_array_free(#[trigger] cs[i]) by {
        if i < 4 {
            assert(cs[i] == defs[i]);
        } else {
            crate::array_abstractor::lemma_abstract_command_free(m.model_commands()[i - 4]);
        }
    }
}

/// The conjuncts of a condition's body: the arguments of an `and`, or the body itself.
pub open spec fn conjuncts(body: TermVal) -> Seq<TermVal> {
    if is_and_application(body) {
        body->App_1
    } else {
        seq![body]
    }
}

/// The attributed condition with one more conjunct; its attributes are kept.
pub open spec fn conjoined(cond: TermVal, inst: TermVal) -> TermVal {
    match cond {
        TermVal::Attrs(body, attrs) => TermVal::Attrs(
            Box::new(TermVal::App(QidVal::Simple("and"@), conjuncts(*body).push(inst))),
            attrs,
        ),
        _ => cond,
    }
}

/// Refinement only strengthens a condition: every conjunct it had stays, and the
/// instantiation is added last, so whatever the condition ruled out stays ruled out.
pub proof fn lemma_refinement_monotone(cond: TermVal, inst: TermVal)
    requires
        cond is Attrs,
    ensures
        conjoined(cond, inst) is Attrs,
        conjuncts(*conjoined(cond, inst)->Attrs_0) == conjuncts(*cond->Attrs_0).push(inst),
        conjoined(cond, inst)->Attrs_1 == cond->Attrs_1,
{
}

impl VMTModel {
    /// Each current name paired with its next name.
    pub open spec fn current_to_next(&self) -> Seq<(Seq<char>, Seq<char>)> {
        Seq::new(
            self.state_variables@.len(),
            |i: int| (self.state_variables@[i].current_name(), self.state_variables@[i].next_name()),
        )
    }

    /// The instantiation of a frame-indexed candidate: its least frame becomes the
    /// current state and its greatest the next state.
    pub open spec fn instantiation_of(&self, t: TermVal) -> TermVal {
        let b = frame_bounds(frames_of(t));
        renamed(&InstantiationMap { current_to_next: self.current_to_next(), first: b.0, last: b.1 }, t)
    }

    /// A candidate is taken when it spans at most one transition, its
    /// instantiation mentions no variable at a frame, and it was not taken before.
    pub open spec fn accepts_instance(&self, t: TermVal, used: Seq<Seq<char>>) -> bool {
        &&& span_ok(frames_of(t))
        &&& frames_of(self.instantiation_of(t)) == Set::<nat>::empty()
        &&& !used.contains(term_text(self.instantiation_of(t)))
    }

    /// The attributed condition with one more conjunct.
    pub fn add_instantiation_to_condition(&self, instantiation: Term, condition: &Term) -> (r: Term)
        requires
            condition@ is Attrs,
        ensures
            r@ == conjoined(condition@, instantiation@),
    {
        match condition {
            Term::Attributes { term, attributes } => {
                let mut and_terms = if term_is_and_application(term) {
                    get_and_terms(term)
                } else {
                    let mut v: Vec<Term> = Vec::new();
                    v.push((**term).copy());
                    v
                };
                let ghost before = and_terms@;
                and_terms.push(instantiation);
                let body = Term::Application {
                    qual_identifier: QualIdentifier::Simple { identifier: String::from_str("and") },
                    arguments: and_terms,
                };
                assert(body@->App_1 =~= conjuncts(term@).push(instantiation@));
                Term::Attributes { term: Box::new(body), attributes: crate::concrete::copy_attributes(attributes) }
            },
            _ => vstd::pervasive::unreached(),
        }
    }

    /// Adds a frame-indexed candidate, rewritten over current and next state
    /// variables, as a conjunct of the initial condition and of the transition
    /// relation. Gives whether it was added: a candidate that spans more than one
    /// transition, that keeps a framed variable, or that was added before is not.
    pub fn add_instantiation_term(&mut self, t: &Term, instances: &mut Vec<String>) -> (r: bool)
        requires
            old(self).wf(),
        ensures
            final(self).wf(),
            r == old(self).accepts_instance(t@, strings_view(old(instances)@)),
            r ==> strings_view(final(instances)@) == strings_view(old(instances)@).push(term_text(old(self).instantiation_of(t@))),
            r ==> final(self).initial_condition@ == conjoined(old(self).initial_condition@, old(self).instantiation_of(t@)),
            r ==> final(self).transition_condition@ == conjoined(old(self).transition_condition@, old(self).instantiation_of(t@)),
            !r ==> strings_view(final(instances)@) == strings_view(old(instances)@),
            !r ==> final(self).initial_condition@ == old(self).initial_condition@,
            !r ==> final(self).transition_condition@ == old(self).transition_condition@,
            final(self).property_condition == old(self).property_condition,
            final(self).state_variables == old(self).state_variables,
            final(self).actions == old(self).actions,
            final(self).sorts == old(self).sorts,
            final(self).function_definitions == old(self).function_definitions,
            final(self).axioms == old(self).axioms,
    {
        let mut frame_getter = FrameNumGetter::new();
        frame_getter.visit(t);
        assert(frame_getter.frames() =~= frames_of(t@));
        if !frame_getter.spans_one_step() {
            return false;
        }
        let (lo, hi) = frame_getter.bounds();
        let instantiator = Instantiator {
            current_to_next_variables: self.get_current_to_next_varible_names(),
            first_frame: lo,
            last_frame: hi,
        };
        let rewritten_term = crate::rewriter::rewrite_term(&instantiator, t);
        let ghost imap = InstantiationMap {
            current_to_next: self.current_to_next(),
            first: frame_bounds(frames_of(t@)).0,
            last: frame_bounds(frames_of(t@)).1,
        };
        proof {
            assert(instantiator.map() == imap);
            crate::rewriter::lemma_renamed_ext(&instantiator, &imap, t@);
        }
        assert(rewritten_term@ == self.instantiation_of(t@));
        let mut check = FrameNumGetter::new();
        check.visit(&rewritten_term);
        assert(check.frames() =~= frames_of(rewritten_term@));
        if check.frame_nums.len() > 0 {
            assert(check.frames().contains(check.frame_nums@[0] as nat));
            return false;
        }
        assert(check.frames() =~= Set::<nat>::empty());
        let text = rewritten_term.to_string();
        if contains_name(instances, &text) {
            return false;
        }
        let ghost before = instances@;
        instances.push(text);
        proof {
            crate::vmt::lemma_strings_view_push(before, text);
        }
        let init = self.add_instantiation_to_condition(rewritten_term.copy(), &self.initial_condition);
        let trans = self.add_instantiation_to_condition(rewritten_term, &self.transition_condition);
        self.initial_condition = init;
        self.transition_condition = trans;
        true
    }

    /// Adds the candidate that `inst` writes (see `add_instantiation_term`); a
    /// text that writes no term is not added.
    pub fn add_instantiation(&mut self, inst: String, instances: &mut Vec<String>) -> (r: bool)
        requires
            old(self).wf(),
        ensures
            final(self).wf(),
            r == (crate::parser::read_term(inst@) matches Some(t) && old(self).accepts_instance(
                t,
                strings_view(old(instances)@),
            )),
            r ==> ({
                let t = crate::parser::read_term(inst@)->0;
                &&& strings_view(final(instances)@) == strings_view(old(instances)@).push(
                    term_text(old(self).instantiation_of(t)),
                )
                &&& final(self).initial_condition@ == conjoined(old(self).initial_condition@, old(self).instantiation_of(t))
                &&& final(self).transition_condition@ == conjoined(old(self).transition_condition@, old(self).instantiation_of(t))
            }),
            !r ==> strings_view(final(instances)@) == strings_view(old(instances)@),
            !r ==> final(self).initial_condition@ == old(self).initial_condition@,
            !r ==> final(self).transition_condition@ == old(self).transition_condition@,
            final(self).property_condition == old(self).property_condition,
            final(self).state_variables == old(self).state_variables,
            final(self).actions == old(self).actions,
            final(self).sorts == old(self).sorts,
            final(self).function_definitions == old(self).function_definitions,
            final(self).axioms == old(self).axioms,
    {
        match self.get_instance_term(inst) {
            Ok(t) => self.add_instantiation_term(&t, instances),
            Err(_) => false,
        }
    }

    /// The term that a candidate's text writes.
    fn get_instance_term(&self, instance: String) -> (r: Result<Term, VMTError>)
        ensures
            match r {
                Ok(t) => crate::parser::read_term(instance@) == Some(t@),
                Err(_) => crate::parser::read_term(instance@) is None,
            },
    {
        crate::parser::parse_term(instance.as_str())
    }
}

proof fn lemma_filters_in(cs: Seq<CommandVal>)
    ensures
        forall|i: int| 0 <= i < sorts_of(cs).len() ==> cs.contains(#[trigger] sorts_of(cs)[i]),
        forall|i: int| 0 <= i < functions_of(cs).len() ==> cs.contains(#[trigger] functions_of(cs)[i]),
        forall|i: int| 0 <= i < relationships_of(cs).len() ==> cs.contains(#[trigger] relationships_of(cs)[i]),
        forall|i: int| 0 <= i < nullary_of(cs).len() ==> cs.contains(#[trigger] nullary_of(cs)[i].1),
    decreases cs.len(),
{
    if cs.len() > 0 {
        let p = cs.drop_last();
        lemma_filters_in(p);
        assert(cs.contains(cs.last())) by {
            assert(cs[cs.len() - 1] == cs.last());
        }
        assert forall|x: CommandVal| p.contains(x) implies cs.contains(x) by {
            let j = choose|j: int| 0 <= j < p.len() && p[j] == x;
            assert(cs[j] == p[j]);
        }
        assert forall|i: int| 0 <= i < sorts_of(cs).len() implies cs.contains(#[trigger] sorts_of(cs)[i]) by {
            if i < sorts_of(p).len() {
                assert(sorts_of(cs)[i] == sorts_of(p)[i]);
                assert(p.contains(sorts_of(p)[i]));
            }
        }
        assert forall|i: int| 0 <= i < functions_of(cs).len() implies cs.contains(#[trigger] functions_of(cs)[i]) by {
            if i < functions_of(p).len() {
                assert(functions_of(cs)[i] == functions_of(p)[i]);
                assert(p.contains(functions_of(p)[i]));
            }
        }
        assert forall|i: int| 0 <= i < relationships_of(cs).len() implies cs.contains(#[trigger] relationships_of(cs)[i]) by {
            if i < relationships_of(p).len() {
                assert(relationships_of(cs)[i] == relationships_of(p)[i]);
                assert(p.contains(relationships_of(p)[i]));
            }
        }
        assert forall|i: int| 0 <= i < nullary_of(cs).len() implies cs.contains(#[trigger] nullary_of(cs)[i].1) by {
            if i < nullary_of(p).len() {
                assert(nullary_of(cs)[i] == nullary_of(p)[i]);
                assert(p.contains(nullary_of(p)[i].1));
            }
        }
    }
}

proof fn lemma_assoc_in(v: NamedCommands, k: Seq<char>)
    ensures
        commands_assoc(v, k) matches Some(c) ==> exists|j: int| 0 <= j < v.len() && (#[trigger] v[j]).1 == c,
    decreases v.len(),
{
    if v.len() > 0 {
        let p = v.drop_last();
        lemma_assoc_in(p, k);
        if v.last().0 == k {
            assert(v[v.len() - 1] == v.last());
        } else if let Some(c) = commands_assoc(p, k) {
            let j = choose|j: int| 0 <= j < p.len() && (#[trigger] p[j]).1 == c;
            assert(v[j] == p[j]);
        }
    }
}

/// Every command of a classified variable or action comes from the relationships
/// or the named declarations.
proof fn lemma_classify_in(rels: Seq<CommandVal>, vc: NamedCommands)
    ensures
        classify(rels, vc) matches Some((v, a, f)) ==> {
            &&& forall|i: int| 0 <= i < v.len() ==> (exists|j: int| 0 <= j < vc.len() && vc[j].1 == (#[trigger] v[i]).0)
                && (exists|j: int| 0 <= j < vc.len() && vc[j].1 == v[i].1) && rels.contains(v[i].2)
            &&& forall|i: int| 0 <= i < a.len() ==> (exists|j: int| 0 <= j < vc.len() && vc[j].1 == (#[trigger] a[i]).0)
                && rels.contains(a[i].1)
        },
    decreases rels.len(),
{
    if rels.len() > 0 {
        let p = rels.drop_last();
        lemma_classify_in(p, vc);
        let c = rels.last();
        assert(rels.contains(c)) by {
            assert(rels[rels.len() - 1] == c);
        }
        assert forall|x: CommandVal| p.contains(x) implies rels.contains(x) by {
            let j = choose|j: int| 0 <= j < p.len() && p[j] == x;
            assert(rels[j] == p[j]);
        }
        if let CommandVal::DefineFun(_, _, _, t) = c {
            if let TermVal::Attrs(inner, attrs) = t {
                if attrs.len() == 1 {
                    lemma_assoc_in(vc, crate::utils::scrubbed(crate::concrete::term_text(*inner)));
                    lemma_assoc_in(vc, crate::utils::scrubbed(crate::utils::attr_value_text(attrs[0].1)));
                }
            }
        }
    }
}

proof fn lemma_variable_commands_in(v: Seq<VarView>)
    ensures
        forall|i: int| 0 <= i < variable_commands(v).len() ==> exists|j: int| 0 <= j < v.len() && (
            #[trigger] variable_commands(v)[i] == v[j].0 || variable_commands(v)[i] == v[j].1
                || variable_commands(v)[i] == v[j].2),
    decreases v.len(),
{
    if v.len() > 0 {
        let p = v.drop_last();
        lemma_variable_commands_in(p);
        let w = variable_commands(v);
        assert forall|i: int| 0 <= i < w.len() implies exists|j: int| 0 <= j < v.len() && (#[trigger] w[i] == v[j].0
            || w[i] == v[j].1 || w[i] == v[j].2) by {
            let k = variable_commands(p).len() as int;
            if i < k {
                assert(w[i] == variable_commands(p)[i]);
                let j = choose|j: int| 0 <= j < p.len() && (#[trigger] variable_commands(p)[i] == p[j].0
                    || variable_commands(p)[i] == p[j].1 || variable_commands(p)[i] == p[j].2);
                assert(v[j] == p[j]);
            } else {
                assert(v[v.len() - 1] == v.last());
            }
        }
    }
}

proof fn lemma_action_commands_in(a: Seq<ActView>)
    ensures
        forall|i: int| 0 <= i < action_commands(a).len() ==> exists|j: int| 0 <= j < a.len() && (
            #[trigger] action_commands(a)[i] == a[j].0 || action_commands(a)[i] == a[j].1),
    decreases a.len(),
{
    if a.len() > 0 {
        let p = a.drop_last();
        lemma_action_commands_in(p);
        let w = action_commands(a);
        assert forall|i: int| 0 <= i < w.len() implies exists|j: int| 0 <= j < a.len() && (#[trigger] w[i] == a[j].0
            || w[i] == a[j].1) by {
            let k = action_commands(p).len() as int;
            if i < k {
                assert(w[i] == action_commands(p)[i]);
                let j = choose|j: int| 0 <= j < p.len() && (#[trigger] action_commands(p)[i] == p[j].0
                    || action_commands(p)[i] == p[j].1);
                assert(a[j] == p[j]);
            } else {
                assert(a[a.len() - 1] == a.last());
            }
        }
    }
}

/// The commands of the variables and actions of a model built from commands are
/// among those commands.
#[verifier::rlimit(100)]
proof fn lemma_built_parts_in(a: VMTModel, cs: Seq<CommandVal>)
    requires
        built_from(a, cs),
    ensures
        forall|k: int| 0 <= k < variable_commands(variables_view(a.state_variables@)).len() ==> declarations_of(cs).contains(
            #[trigger] variable_commands(variables_view(a.state_variables@))[k],
        ),
        forall|k: int| 0 <= k < action_commands(actions_view(a.actions@)).len() ==> declarations_of(cs).contains(
            #[trigger] action_commands(actions_view(a.actions@))[k],
        ),
{
    let decls = declarations_of(cs);
    let nv = nullary_of(decls);
    let rl = relationships_of(decls);
    lemma_filters_in(decls);
    lemma_classify_in(rl, nv);
    let vv = variables_view(a.state_variables@);
    let av = actions_view(a.actions@);
    lemma_variable_commands_in(vv);
    lemma_action_commands_in(av);
    let s3 = variable_commands(vv);
    let s4 = action_commands(av);
    let cl = classify(rl, nv)->0;
    assert(cl.0 == vv && cl.1 == av);
    assert forall|k: int| 0 <= k < s3.len() implies decls.contains(#[trigger] s3[k]) by {
        let j = choose|j: int| 0 <= j < vv.len() && (#[trigger] s3[k] == vv[j].0 || s3[k] == vv[j].1 || s3[k] == vv[j].2);
        assert(cl.0[j] == vv[j]);
        let j1 = choose|j1: int| 0 <= j1 < nv.len() && nv[j1].1 == vv[j].0;
        let j2 = choose|j2: int| 0 <= j2 < nv.len() && nv[j2].1 == vv[j].1;
        assert(decls.contains(nv[j1].1));
        assert(decls.contains(nv[j2].1));
        let jr = choose|jr: int| 0 <= jr < rl.len() && rl[jr] == vv[j].2;
        assert(decls.contains(rl[jr]));
    }
    assert forall|k: int| 0 <= k < s4.len() implies decls.contains(#[trigger] s4[k]) by {
        let j = choose|j: int| 0 <= j < av.len() && (#[trigger] s4[k] == av[j].0 || s4[k] == av[j].1);
        assert(cl.1[j] == av[j]);
        let j1 = choose|j1: int| 0 <= j1 < nv.len() && nv[j1].1 == av[j].0;
        assert(decls.contains(nv[j1].1));
        let jr = choose|jr: int| 0 <= jr < rl.len() && rl[jr] == av[j].1;
        assert(decls.contains(rl[jr]));
    }
}

/// The system read back from abstracted commands renders commands in which no
/// `Array` sort and no `select`, `store` or `const` occurs.
#[verifier::rlimit(100)]
pub proof fn lemma_abstracted_model_array_free(m: VMTModel, a: VMTModel)
    requires
        built_from(a, m.abstracted_commands()),
    ensures
        forall|i: int| 0 <= i < a.model_commands().len() ==> crate::array_abstractor::command_array_free(
            #[trigger] a.model_commands()[i],
        ),
{
    let cs = m.abstracted_commands();
    let decls = declarations_of(cs);
    lemma_abstraction_array_free(m);
    assert forall|x: CommandVal| decls.contains(x) implies crate::array_abstractor::command_array_free(x) by {
        let j = choose|j: int| 0 <= j < decls.len() && decls[j] == x;
        assert(decls[j] == cs[j]);
    }
    lemma_filters_in(decls);
    lemma_built_parts_in(a, cs);
    let mc = a.model_commands();
    let s1 = commands_view(a.sorts@);
    let s2 = commands_view(a.function_definitions@);
    let s3 = variable_commands(variables_view(a.state_variables@));
    let s4 = action_commands(actions_view(a.actions@));
    assert forall|i: int| 0 <= i < mc.len() implies crate::array_abstractor::command_array_free(#[trigger] mc[i]) by {
        if i < s1.len() {
            assert(mc[i] == s1[i]);
            assert(decls.contains(sorts_of(decls)[i]));
        } else if i < s1.len() + s2.len() {
            assert(mc[i] == s2[i - s1.len()]);
            assert(decls.contains(functions_of(decls)[i - s1.len()]));
        } else if i < s1.len() + s2.len() + s3.len() {
            assert(mc[i] == s3[i - s1.len() - s2.len()]);
            assert(decls.contains(s3[i - s1.len() - s2.len()]));
        } else if i < s1.len() + s2.len() + s3.len() + s4.len() {
            assert(mc[i] == s4[i - s1.len() - s2.len() - s3.len()]);
            assert(decls.contains(s4[i - s1.len() - s2.len() - s3.len()]));
        } else {
            let n = cs.len();
            assert(crate::array_abstractor::command_array_free(cs[n - 3]));
            assert(crate::array_abstractor::command_array_free(cs[n - 2]));
            assert(crate::array_abstractor::command_array_free(cs[n - 1]));
            assert(crate::array_abstractor::sort_array_free(SortVal::Simple("Bool"@)));
        }
    }
}

} // verus!
