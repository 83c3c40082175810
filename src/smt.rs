//! The ground problem that unrolling produces.
use crate::bmc::BMCBuilder;
use crate::concrete::{Command, CommandVal, Term, TermVal, command_text, strings_view, term_text};
use crate::let_extract::{LetExtract, flatten, scope_view};
use crate::model::{Action, Variable};
use crate::rewriter::{renamed, renamed_command, rewrite_command, rewrite_term};
use crate::text::{join_lines, lines};
use crate::utils::{actions_view, assert_negation, assert_term, commands_view, variables_view};
use vstd::prelude::*;

verus! {

/// Declarations, frame-indexed variable declarations, the init and transition
/// assertions in order, and the negated property.
pub struct SMTProblem {
    pub sorts: Vec<Command>,
    pub variable_definitions: Vec<Command>,
    pub function_definitions: Vec<Command>,
    pub init_and_trans_assertions: Vec<Term>,
    pub property_assertion: Option<Term>,
}

pub open spec fn terms_view(v: Seq<Term>) -> Seq<TermVal> {
    Seq::new(v.len(), |i: int| v[i]@)
}

pub open spec fn option_term_view(t: Option<Term>) -> Option<TermVal> {
    match t {
        Some(x) => Some(x@),
        None => None,
    }
}

/// Copies a list of commands.
pub fn copy_commands(v: &Vec<Command>) -> (r: Vec<Command>)
    ensures
        commands_view(r@) == commands_view(v@),
{
    let mut out: Vec<Command> = Vec::new();
    let mut i: usize = 0;
    while i < v.len()
        invariant
            i <= v@.len(),
            out@.len() == i,
            forall|j: int| 0 <= j < i ==> (#[trigger] out@[j])@ == v@[j]@,
        decreases v@.len() - i,
    {
        out.push(v[i].copy());
        i = i + 1;
    }
    assert(commands_view(out@) =~= commands_view(v@));
    out
}

/// The text of each command.
pub open spec fn command_lines(v: Seq<CommandVal>) -> Seq<Seq<char>> {
    Seq::new(v.len(), |i: int| command_text(v[i]))
}

/// The assertion of each term.
pub open spec fn assertion_lines(v: Seq<TermVal>) -> Seq<Seq<char>> {
    Seq::new(v.len(), |i: int| "(assert "@ + term_text(v[i]) + ")"@)
}

/// The SMT-LIB script of a problem.
pub open spec fn script_text(
    sorts: Seq<CommandVal>,
    functions: Seq<CommandVal>,
    defs: Seq<CommandVal>,
    asserts: Seq<TermVal>,
    prop: Option<TermVal>,
) -> Seq<char> {
    lines(command_lines(sorts)) + seq!['\n'] + lines(command_lines(functions)) + seq!['\n'] + lines(
        command_lines(defs),
    ) + seq!['\n'] + lines(assertion_lines(asserts)) + seq!['\n'] + match prop {
        Some(p) => "(assert (not "@ + term_text(p) + "))"@,
        None => Seq::empty(),
    }
}

fn command_strings(v: &Vec<Command>) -> (r: Vec<String>)
    ensures
        strings_view(r@) == command_lines(commands_view(v@)),
{
    let mut out: Vec<String> = Vec::new();
    let mut i: usize = 0;
    while i < v.len()
        invariant
            i <= v@.len(),
            out@.len() == i,
            forall|j: int| 0 <= j < i ==> (#[trigger] out@[j])@ == command_text(v@[j]@),
        decreases v@.len() - i,
    {
        out.push(v[i].to_string());
        i = i + 1;
    }
    assert(strings_view(out@) =~= command_lines(commands_view(v@)));
    out
}

impl SMTProblem {
    /// A problem with the given declarations and nothing else.
    pub fn new(sorts: &Vec<Command>, function_definitions: &Vec<Command>) -> (r: SMTProblem)
        ensures
            commands_view(r.sorts@) == commands_view(sorts@),
            commands_view(r.function_definitions@) == commands_view(function_definitions@),
            r.variable_definitions@.len() == 0,
            r.init_and_trans_assertions@.len() == 0,
            r.property_assertion is None,
    {
        SMTProblem {
            sorts: copy_commands(sorts),
            variable_definitions: Vec::new(),
            function_definitions: copy_commands(function_definitions),
            init_and_trans_assertions: Vec::new(),
            property_assertion: None,
        }
    }

    /// The number of init and transition assertions.
    pub fn init_and_trans_length(&self) -> (r: usize)
        ensures
            r == self.init_and_trans_assertions@.len(),
    {
        self.init_and_trans_assertions.len()
    }

    /// Adds the body of an attributed condition, renamed for the builder's step.
    pub fn add_assertion(&mut self, condition: &Term, builder: &BMCBuilder)
        requires
            condition@ is Attrs,
        ensures
            terms_view(final(self).init_and_trans_assertions@) == terms_view(
                old(self).init_and_trans_assertions@,
            ).push(renamed(&builder.renaming(), *condition@->Attrs_0)),
            commands_view(final(self).sorts@) == commands_view(old(self).sorts@),
            commands_view(final(self).function_definitions@) == commands_view(old(self).function_definitions@),
            commands_view(final(self).variable_definitions@) == commands_view(old(self).variable_definitions@),
            option_term_view(final(self).property_assertion) == option_term_view(old(self).property_assertion),
    {
        match condition {
            Term::Attributes { term, .. } => {
                let r = rewrite_term(builder, term);
                proof {
                    crate::rewriter::lemma_renamed_ext(builder, &builder.renaming(), term@);
                }
                let ghost before = terms_view(self.init_and_trans_assertions@);
                self.init_and_trans_assertions.push(r);
                assert(terms_view(self.init_and_trans_assertions@) =~= before.push(r@));
            },
            _ => vstd::pervasive::unreached(),
        }
    }

    /// Sets the body of an attributed property, renamed for the builder's step; the
    /// script asserts its negation.
    pub fn add_property_assertion(&mut self, condition: &Term, builder: &BMCBuilder)
        requires
            condition@ is Attrs,
        ensures
            option_term_view(final(self).property_assertion) == Some(
                renamed(&builder.renaming(), *condition@->Attrs_0),
            ),
            commands_view(final(self).sorts@) == commands_view(old(self).sorts@),
            commands_view(final(self).function_definitions@) == commands_view(old(self).function_definitions@),
            commands_view(final(self).variable_definitions@) == commands_view(old(self).variable_definitions@),
            terms_view(final(self).init_and_trans_assertions@) == terms_view(old(self).init_and_trans_assertions@),
    {
        match condition {
            Term::Attributes { term, .. } => {
                let r = rewrite_term(builder, term);
                proof {
                    crate::rewriter::lemma_renamed_ext(builder, &builder.renaming(), term@);
                }
                self.property_assertion = Some(r);
            },
            _ => vstd::pervasive::unreached(),
        }
    }

    /// Declares each given state variable and each action at the builder's step.
    pub fn add_variable_definitions(
        &mut self,
        state_variables: &Vec<Variable>,
        actions: &Vec<Action>,
        builder: &BMCBuilder,
    )
        ensures
            commands_view(final(self).variable_definitions@) == commands_view(old(self).variable_definitions@)
                + Seq::new(state_variables@.len(), |i: int| renamed_command(&builder.renaming(), state_variables@[i].current@))
                + Seq::new(actions@.len(), |i: int| renamed_command(&builder.renaming(), actions@[i].action@)),
            commands_view(final(self).sorts@) == commands_view(old(self).sorts@),
            commands_view(final(self).function_definitions@) == commands_view(old(self).function_definitions@),
            terms_view(final(self).init_and_trans_assertions@) == terms_view(old(self).init_and_trans_assertions@),
            option_term_view(final(self).property_assertion) == option_term_view(old(self).property_assertion),
    {
        let ghost start = commands_view(self.variable_definitions@);
        let ghost rn = builder.renaming();
        let mut i: usize = 0;
        while i < state_variables.len()
            invariant
                i <= state_variables@.len(),
                rn == builder.renaming(),
                commands_view(self.variable_definitions@) == start + Seq::new(i as nat, |j: int| renamed_command(&rn, state_variables@[j].current@)),
                commands_view(self.sorts@) == commands_view(old(self).sorts@),
                commands_view(self.function_definitions@) == commands_view(old(self).function_definitions@),
                terms_view(self.init_and_trans_assertions@) == terms_view(old(self).init_and_trans_assertions@),
                option_term_view(self.property_assertion) == option_term_view(old(self).property_assertion),
            decreases state_variables@.len() - i,
        {
            let c = rewrite_command(builder, &state_variables[i].current);
            proof {
                lemma_renamed_command_ext(builder, &rn, state_variables@[i as int].current@);
            }
            let ghost before = commands_view(self.variable_definitions@);
            self.variable_definitions.push(c);
            assert(commands_view(self.variable_definitions@) =~= before.push(c@));
            assert(commands_view(self.variable_definitions@) =~= start + Seq::new((i + 1) as nat, |j: int| renamed_command(&rn, state_variables@[j].current@)));
            i = i + 1;
        }
        let ghost mid = commands_view(self.variable_definitions@);
        let mut k: usize = 0;
        while k < actions.len()
            invariant
                k <= actions@.len(),
                rn == builder.renaming(),
                commands_view(self.variable_definitions@) == mid + Seq::new(k as nat, |j: int| renamed_command(&rn, actions@[j].action@)),
                commands_view(self.sorts@) == commands_view(old(self).sorts@),
                commands_view(self.function_definitions@) == commands_view(old(self).function_definitions@),
                terms_view(self.init_and_trans_assertions@) == terms_view(old(self).init_and_trans_assertions@),
                option_term_view(self.property_assertion) == option_term_view(old(self).property_assertion),
            decreases actions@.len() - k,
        {
            let c = rewrite_command(builder, &actions[k].action);
            proof {
                lemma_renamed_command_ext(builder, &rn, actions@[k as int].action@);
            }
            let ghost before = commands_view(self.variable_definitions@);
            self.variable_definitions.push(c);
            assert(commands_view(self.variable_definitions@) =~= before.push(c@));
            assert(commands_view(self.variable_definitions@) =~= mid + Seq::new((k + 1) as nat, |j: int| renamed_command(&rn, actions@[j].action@)));
            k = k + 1;
        }
        assert(Seq::new(state_variables@.len(), |i: int| renamed_command(&rn, state_variables@[i].current@)) =~= Seq::new(state_variables@.len(), |i: int| renamed_command(&builder.renaming(), state_variables@[i].current@)));
        assert(Seq::new(actions@.len(), |i: int| renamed_command(&rn, actions@[i].action@)) =~= Seq::new(actions@.len(), |i: int| renamed_command(&builder.renaming(), actions@[i].action@)));
    }

    /// The init and transition assertions, then the property, each with its `let`s
    /// inlined, as text.
    pub fn get_assert_terms(&self) -> (r: Vec<String>)
        ensures
            strings_view(r@) == Seq::new(
                self.init_and_trans_assertions@.len(),
                |i: int| term_text(flatten(self.init_and_trans_assertions@[i]@)),
            ) + match self.property_assertion {
                Some(p) => seq![term_text(flatten(p@))],
                None => Seq::empty(),
            },
    {
        let mut let_extract = LetExtract::new();
        proof {
            assert(scope_view(let_extract.scope@) =~= Seq::empty());
        }
        let ghost want = Seq::new(
            self.init_and_trans_assertions@.len(),
            |i: int| term_text(flatten(self.init_and_trans_assertions@[i]@)),
        );
        let mut out: Vec<String> = Vec::new();
        let mut i: usize = 0;
        while i < self.init_and_trans_assertions.len()
            invariant
                i <= self.init_and_trans_assertions@.len(),
                let_extract.scope@.len() == 0,
                want == Seq::new(
                    self.init_and_trans_assertions@.len(),
                    |i: int| term_text(flatten(self.init_and_trans_assertions@[i]@)),
                ),
                strings_view(out@) == want.subrange(0, i as int),
            decreases self.init_and_trans_assertions@.len() - i,
        {
            proof {
                assert(scope_view(let_extract.scope@) =~= Seq::empty());
            }
            let t = let_extract.flatten(&self.init_and_trans_assertions[i]);
            let ghost before = strings_view(out@);
            out.push(t.to_string());
            assert(strings_view(out@) =~= before.push(term_text(t@)));
            assert(want.subrange(0, i + 1) =~= want.subrange(0, i as int).push(want[i as int]));
            i = i + 1;
        }
        assert(want.subrange(0, want.len() as int) =~= want);
        match &self.property_assertion {
            Some(p) => {
                proof {
                    assert(scope_view(let_extract.scope@) =~= Seq::empty());
                }
                let t = let_extract.flatten(p);
                let ghost before = strings_view(out@);
                out.push(t.to_string());
                assert(strings_view(out@) =~= before.push(term_text(t@)));
            },
            None => {
                assert(want + Seq::<Seq<char>>::empty() =~= want);
            },
        }
        out
    }

    /// The SMT-LIB script: sorts, function declarations, variable declarations, the
    /// init and transition assertions and the negated property, one per line.
    pub fn to_smtlib2(&self) -> (r: String)
        ensures
            r@ == script_text(
                commands_view(self.sorts@),
                commands_view(self.function_definitions@),
                commands_view(self.variable_definitions@),
                terms_view(self.init_and_trans_assertions@),
                option_term_view(self.property_assertion),
            ),
    {
        let sort_names = join_lines(&command_strings(&self.sorts));
        let function_definitions = join_lines(&command_strings(&self.function_definitions));
        let defs = join_lines(&command_strings(&self.variable_definitions));
        let mut asserts: Vec<String> = Vec::new();
        let mut i: usize = 0;
        while i < self.init_and_trans_assertions.len()
            invariant
                i <= self.init_and_trans_assertions@.len(),
                strings_view(asserts@) == assertion_lines(terms_view(self.init_and_trans_assertions@)).subrange(0, i as int),
            decreases self.init_and_trans_assertions@.len() - i,
        {
            let ghost before = strings_view(asserts@);
            let a = assert_term(&self.init_and_trans_assertions[i]);
            asserts.push(a);
            assert(strings_view(asserts@) =~= before.push(a@));
            assert(assertion_lines(terms_view(self.init_and_trans_assertions@)).subrange(0, i + 1) =~= before.push(a@));
            i = i + 1;
        }
        assert(assertion_lines(terms_view(self.init_and_trans_assertions@)).subrange(0, i as int) =~= assertion_lines(terms_view(self.init_and_trans_assertions@)));
        let init_and_trans_asserts = join_lines(&asserts);
        let property_assert = match &self.property_assertion {
            Some(prop) => assert_negation(prop),
            None => String::new(),
        };
        let mut s = sort_names;
        s.append("\n");
        s.append(function_definitions.as_str());
        s.append("\n");
        s.append(defs.as_str());
        s.append("\n");
        s.append(init_and_trans_asserts.as_str());
        s.append("\n");
        s.append(property_assert.as_str());
        proof {
            reveal_strlit("\n");
        }
        s
    }
}

/// Two symbol maps that agree on every symbol rename every command alike.
pub proof fn lemma_renamed_command_ext<R1: crate::rewriter::SymbolMap, R2: crate::rewriter::SymbolMap>(
    r1: &R1,
    r2: &R2,
    c: CommandVal,
)
    requires
        forall|s: Seq<char>| #[trigger] r1.rewrite_spec(s) == r2.rewrite_spec(s),
    ensures
        renamed_command(r1, c) == renamed_command(r2, c),
{
    match c {
        CommandVal::Assert(t) => {
            crate::rewriter::lemma_renamed_ext(r1, r2, t);
        },
        CommandVal::DefineFun(n, ps, res, body) => {
            crate::rewriter::lemma_renamed_ext(r1, r2, body);
            assert(crate::rewriter::renamed_vars(r1, ps) =~= crate::rewriter::renamed_vars(r2, ps));
        },
        _ => {},
    }
}

/// The labelled assertion of each init and transition term.
pub open spec fn labelled_lines(v: Seq<TermVal>) -> Seq<Seq<char>> {
    Seq::new(
        v.len(),
        |i: int|
            "(assert (! "@ + term_text(v[i]) + " :named "@ + crate::utils::interpolant_name(i as nat) + "))"@,
    )
}

/// The labels of `n` assertions.
pub open spec fn labels(n: nat) -> Seq<Seq<char>> {
    Seq::new(n, |i: int| crate::utils::interpolant_name(i as nat))
}

/// The script for an interpolation tool: each assertion labelled `A`, `B`, ...
/// in order (the negated property last), then a request for the sequent
/// interpolant over all labels.
pub open spec fn interpolation_script(
    sorts: Seq<CommandVal>,
    functions: Seq<CommandVal>,
    defs: Seq<CommandVal>,
    asserts: Seq<TermVal>,
    prop: Option<TermVal>,
) -> Seq<char> {
    let n = asserts.len();
    let prop_lines = match prop {
        Some(p) => seq!["(assert (! (not "@ + term_text(p) + ") :named "@ + crate::utils::interpolant_name(n) + "))"@],
        None => Seq::<Seq<char>>::empty(),
    };
    let k = n + prop_lines.len();
    lines(
        seq!["(set-option :produce-interpolants true)"@] + command_lines(sorts) + command_lines(functions)
            + command_lines(defs) + labelled_lines(asserts) + prop_lines + seq![
            "(check-sat)"@,
            "(get-interpolants"@ + crate::text::spaced(labels(k)) + ")"@,
        ],
    )
}

fn push_all(out: &mut Vec<String>, more: Vec<String>)
    ensures
        strings_view(final(out)@) == strings_view(old(out)@) + strings_view(more@),
{
    let mut i: usize = 0;
    while i < more.len()
        invariant
            i <= more@.len(),
            strings_view(out@) == strings_view(old(out)@) + strings_view(more@).subrange(0, i as int),
        decreases more@.len() - i,
    {
        let ghost before = out@;
        out.push(more[i].clone());
        assert(strings_view(out@) =~= strings_view(before).push(more@[i as int]@));
        assert(strings_view(more@).subrange(0, i + 1) =~= strings_view(more@).subrange(0, i as int).push(more@[i as int]@));
        i = i + 1;
    }
    assert(strings_view(more@).subrange(0, more@.len() as int) =~= strings_view(more@));
}

fn push_line(out: &mut Vec<String>, line: String)
    ensures
        strings_view(final(out)@) == strings_view(old(out)@).push(line@),
{
    let ghost before = out@;
    out.push(line);
    assert(strings_view(out@) =~= strings_view(before).push(line@));
}

impl SMTProblem {
    /// The problem as a script for an interpolation tool.
    pub fn to_smtinterpol(&self) -> (r: String)
        requires
            self.init_and_trans_assertions@.len() < usize::MAX - 1,
        ensures
            r@ == interpolation_script(
                commands_view(self.sorts@),
                commands_view(self.function_definitions@),
                commands_view(self.variable_definitions@),
                terms_view(self.init_and_trans_assertions@),
                option_term_view(self.property_assertion),
            ),
    {
        let mut out: Vec<String> = Vec::new();
        push_line(&mut out, String::from_str("(set-option :produce-interpolants true)"));
        push_all(&mut out, command_strings(&self.sorts));
        push_all(&mut out, command_strings(&self.function_definitions));
        push_all(&mut out, command_strings(&self.variable_definitions));
        let n = self.init_and_trans_assertions.len();
        let ghost asserts = terms_view(self.init_and_trans_assertions@);
        let mut labelled: Vec<String> = Vec::new();
        let mut i: usize = 0;
        while i < n
            invariant
                i <= n,
                n == self.init_and_trans_assertions@.len(),
                asserts == terms_view(self.init_and_trans_assertions@),
                strings_view(labelled@) == labelled_lines(asserts).subrange(0, i as int),
            decreases n - i,
        {
            let ghost before = labelled@;
            let a = crate::utils::assert_term_interpolant(i, &self.init_and_trans_assertions[i]);
            labelled.push(a);
            assert(strings_view(labelled@) =~= strings_view(before).push(a@));
            assert(labelled_lines(asserts).subrange(0, i + 1) =~= labelled_lines(asserts).subrange(0, i as int).push(a@));
            i = i + 1;
        }
        assert(labelled_lines(asserts).subrange(0, n as int) =~= labelled_lines(asserts));
        push_all(&mut out, labelled);
        let mut k = n;
        match &self.property_assertion {
            Some(p) => {
                push_line(&mut out, crate::utils::assert_negation_interpolant(n, p));
                k = n + 1;
            },
            None => {},
        }
        push_line(&mut out, String::from_str("(check-sat)"));
        let mut request = String::from_str("(get-interpolants");
        let mut j: usize = 0;
        while j < k
            invariant
                j <= k,
                request@ == "(get-interpolants"@ + crate::text::spaced(labels(k as nat).subrange(0, j as int)),
            decreases k - j,
        {
            let ghost before = request@;
            let name = crate::utils::get_interpolant_name(j);
            request.append(" ");
            request.append(name.as_str());
            proof {
                let sub = labels(k as nat).subrange(0, j + 1);
                assert(sub.drop_last() =~= labels(k as nat).subrange(0, j as int));
                assert(request@ =~= before + " "@ + name@);
            }
            j = j + 1;
        }
        assert(labels(k as nat).subrange(0, k as int) =~= labels(k as nat));
        request.append(")");
        push_line(&mut out, request);
        let ghost want = seq!["(set-option :produce-interpolants true)"@] + command_lines(commands_view(self.sorts@))
            + command_lines(commands_view(self.function_definitions@)) + command_lines(commands_view(self.variable_definitions@))
            + labelled_lines(asserts) + match option_term_view(self.property_assertion) {
            Some(p) => seq!["(assert (! (not "@ + term_text(p) + ") :named "@ + crate::utils::interpolant_name(n as nat) + "))"@],
            None => Seq::<Seq<char>>::empty(),
        } + seq!["(check-sat)"@, "(get-interpolants"@ + crate::text::spaced(labels(k as nat)) + ")"@];
        assert(strings_view(out@) =~= want);
        join_lines(&out)
    }
}

} // verus!
