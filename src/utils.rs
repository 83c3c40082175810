//! Helpers for reading a transition system out of commands and writing assertions.
use crate::concrete::{
    AttrVal, AttributeValue, Command, CommandVal, QidVal, QualIdentifier, Term, TermVal,
    constant_text, term_text,
};
use crate::model::{Action, Axiom, Variable, fact_keyword, fact_keyword_text};
use crate::text::{chars_of, string_of};
use crate::vmt::VMTError;
use vstd::prelude::*;

verus! {

/// `(assert t)`.
pub fn assert_term(assertion: &Term) -> (r: String)
    ensures
        r@ == "(assert "@ + term_text(assertion@) + ")"@,
{
    let mut s = String::from_str("(assert ");
    let t = assertion.to_string();
    s.append(t.as_str());
    s.append(")");
    s
}

/// `(assert (not t))`.
pub fn assert_negation(assertion: &Term) -> (r: String)
    ensures
        r@ == "(assert (not "@ + term_text(assertion@) + "))"@,
{
    let mut s = String::from_str("(assert (not ");
    let t = assertion.to_string();
    s.append(t.as_str());
    s.append("))");
    s
}

/// The label of the `i`-th assertion handed to an interpolation tool: `A` to `Z`,
/// then an `A` in front of the label of `i - 26`.
pub open spec fn interpolant_name(i: nat) -> Seq<char>
    decreases i,
{
    if i <= 25 {
        seq![letter(i)]
    } else {
        seq!['A'] + interpolant_name((i - 26) as nat)
    }
}

pub open spec fn letter(i: nat) -> char {
    ((i + 65) as u32) as char
}

/// The label of the `i`-th assertion handed to an interpolation tool.
pub fn get_interpolant_name(i: usize) -> (r: String)
    ensures
        r@ == interpolant_name(i as nat),
{
    let mut cs: Vec<char> = Vec::new();
    let mut k: usize = i;
    while k > 25
        invariant
            cs@ + interpolant_name(k as nat) == interpolant_name(i as nat),
            forall|j: int| 0 <= j < cs@.len() ==> cs@[j] == 'A',
        decreases k,
    {
        cs.push('A');
        proof {
            assert(interpolant_name(k as nat) == seq!['A'] + interpolant_name((k - 26) as nat));
            assert(cs@ + interpolant_name((k - 26) as nat) =~= cs@.drop_last() + interpolant_name(k as nat));
        }
        k = k - 26;
    }
    let c = ((k as u32) + 65) as u8 as char;
    proof {
        assert(c == letter(k as nat));
    }
    cs.push(c);
    assert(cs@ =~= cs@.drop_last() + interpolant_name(k as nat));
    string_of(&cs)
}

/// `(assert (! t :named label))`, the `i`-th assertion for an interpolation tool.
pub fn assert_term_interpolant(i: usize, assertion: &Term) -> (r: String)
    ensures
        r@ == "(assert (! "@ + term_text(assertion@) + " :named "@ + interpolant_name(i as nat) + "))"@,
{
    let mut s = String::from_str("(assert (! ");
    let t = assertion.to_string();
    s.append(t.as_str());
    s.append(" :named ");
    let n = get_interpolant_name(i);
    s.append(n.as_str());
    s.append("))");
    s
}

/// `(assert (! (not t) :named label))`, the negated property for an interpolation tool.
pub fn assert_negation_interpolant(i: usize, assertion: &Term) -> (r: String)
    ensures
        r@ == "(assert (! (not "@ + term_text(assertion@) + ") :named "@ + interpolant_name(i as nat) + "))"@,
{
    let mut s = String::from_str("(assert (! (not ");
    let t = assertion.to_string();
    s.append(t.as_str());
    s.append(") :named ");
    let n = get_interpolant_name(i);
    s.append(n.as_str());
    s.append("))");
    s
}

/// The term applies `and`.
pub open spec fn is_and_application(t: TermVal) -> bool {
    t is App && t->App_0 == QidVal::Simple("and"@)
}

/// The arguments of an `and` application.
pub fn get_and_terms(term: &Term) -> (r: Vec<Term>)
    requires
        is_and_application(term@),
    ensures
        r@.len() == term@->App_1.len(),
        forall|i: int| 0 <= i < r@.len() ==> (#[trigger] r@[i])@ == term@->App_1[i],
{
    match term {
        Term::Application { arguments, .. } => {
            let mut out: Vec<Term> = Vec::new();
            let mut i: usize = 0;
            while i < arguments.len()
                invariant
                    i <= arguments@.len(),
                    *term == (Term::Application { qual_identifier: term->qual_identifier, arguments: *arguments }),
                    out@.len() == i,
                    forall|j: int| 0 <= j < i ==> (#[trigger] out@[j])@ == term@->App_1[j],
                decreases arguments@.len() - i,
            {
                out.push(arguments[i].copy());
                i = i + 1;
            }
            out
        },
        _ => vstd::pervasive::unreached(),
    }
}

/// Whether the term applies `and`.
pub fn term_is_and_application(term: &Term) -> (r: bool)
    ensures
        r == is_and_application(term@),
{
    match term {
        Term::Application { qual_identifier: QualIdentifier::Simple { identifier }, .. } => {
            let a = String::from_str("and");
            *identifier == a
        },
        _ => false,
    }
}

/// A name written between bars (`|x|`) without them.
pub open spec fn scrubbed(s: Seq<char>) -> Seq<char> {
    if s.len() >= 2 && s[0] == '|' && s[s.len() - 1] == '|' {
        s.subrange(1, s.len() - 1)
    } else if s.len() == 1 && s[0] == '|' {
        Seq::empty()
    } else {
        s
    }
}

/// The name without the bars that quote it.
pub fn scrub_variable_name(variable_name: String) -> (r: String)
    ensures
        r@ == scrubbed(variable_name@),
{
    let cs = chars_of(variable_name.as_str());
    let n = cs.len();
    if n >= 2 && cs[0] == '|' && cs[n - 1] == '|' {
        let mut out: Vec<char> = Vec::new();
        let mut i: usize = 1;
        while i < n - 1
            invariant
                1 <= i <= n - 1,
                n == cs@.len(),
                cs@ == variable_name@,
                out@ == variable_name@.subrange(1, i as int),
            decreases n - 1 - i,
        {
            out.push(cs[i]);
            assert(variable_name@.subrange(1, i + 1) =~= variable_name@.subrange(1, i as int).push(cs@[i as int]));
            i = i + 1;
        }
        string_of(&out)
    } else if n == 1 && cs[0] == '|' {
        String::new()
    } else {
        variable_name
    }
}

pub type NamedCommands = Seq<(Seq<char>, CommandVal)>;

pub open spec fn named_commands_view(v: Seq<(String, Command)>) -> NamedCommands {
    Seq::new(v.len(), |i: int| (v[i].0@, v[i].1@))
}

/// The latest command filed under `k`.
pub open spec fn commands_assoc(v: NamedCommands, k: Seq<char>) -> Option<CommandVal>
    decreases v.len(),
{
    if v.len() == 0 {
        None
    } else if v.last().0 == k {
        Some(v.last().1)
    } else {
        commands_assoc(v.drop_last(), k)
    }
}

/// The declaration of the variable named `variable_name`, the latest if several.
pub fn get_variable_command(variable_name: &String, variable_commands: &Vec<(String, Command)>) -> (r: Option<Command>)
    ensures
        match r {
            Some(c) => commands_assoc(named_commands_view(variable_commands@), variable_name@) == Some(c@),
            None => commands_assoc(named_commands_view(variable_commands@), variable_name@) is None,
        },
{
    let ghost nv = named_commands_view(variable_commands@);
    let mut i: usize = variable_commands.len();
    assert(nv.subrange(0, i as int) =~= nv);
    while i > 0
        invariant
            i <= variable_commands@.len(),
            nv == named_commands_view(variable_commands@),
            commands_assoc(nv, variable_name@) == commands_assoc(nv.subrange(0, i as int), variable_name@),
        decreases i,
    {
        let ghost sub = nv.subrange(0, i as int);
        assert(sub.drop_last() =~= nv.subrange(0, i - 1));
        if variable_commands[i - 1].0 == *variable_name {
            return Some(variable_commands[i - 1].1.copy());
        }
        i = i - 1;
    }
    None
}

/// The command is a `define-fun` whose term carries exactly one attribute, `attribute`.
pub open spec fn has_attribute(c: CommandVal, attribute: Seq<char>) -> bool {
    c is DefineFun && c->DefineFun_3 is Attrs && c->DefineFun_3->Attrs_1.len() == 1
        && c->DefineFun_3->Attrs_1[0].0 == attribute
}

/// Whether the command is a `define-fun` whose term carries exactly one
/// attribute, `attribute`.
pub fn command_has_attribute_string(command: &Command, attribute: &str) -> (r: bool)
    ensures
        r == has_attribute(command@, attribute@),
{
    match command {
        Command::DefineFun { term: Term::Attributes { attributes, .. }, .. } => {
            if attributes.len() != 1 {
                return false;
            }
            let a = String::from_str(attribute);
            attributes[0].0 == a
        },
        _ => false,
    }
}

/// The attributed term of a component (`:init`, `:trans`, `:invar-property`) of the system.
pub fn get_transition_system_component(command: &Command, attribute: &str) -> (r: Term)
    requires
        has_attribute(command@, attribute@),
    ensures
        r@ == command@->DefineFun_3,
{
    match command {
        Command::DefineFun { term, .. } => term.copy(),
        _ => vstd::pervasive::unreached(),
    }
}

/// The text of an attribute value.
pub open spec fn attr_value_text(v: AttrVal) -> Seq<char> {
    match v {
        AttrVal::Empty => Seq::empty(),
        AttrVal::Constant(c) => constant_text(c),
        AttrVal::Symbol(s) => s,
    }
}

fn attribute_value_text(v: &AttributeValue) -> (r: String)
    ensures
        r@ == attr_value_text(v@),
{
    match v {
        AttributeValue::Empty => String::new(),
        AttributeValue::Constant(c) => c.to_sexpr().to_text(),
        AttributeValue::Symbol(s) => s.clone(),
    }
}

/// What one relationship of a system declares.
pub enum RelationVal {
    Var(CommandVal, CommandVal, CommandVal),
    Act(CommandVal, CommandVal),
    Fact(TermVal),
}

/// What a relationship declares, if it is well formed: a `define-fun` whose term
/// carries one attribute, `:next name` (a state variable), `:action` (an input)
/// or the fact keyword (an assumed fact), and whose names are declared.
pub open spec fn relation_of(c: CommandVal, vc: NamedCommands) -> Option<RelationVal> {
    match c {
        CommandVal::DefineFun(_, _, _, t) => match t {
            TermVal::Attrs(inner, attrs) => if attrs.len() != 1 {
                None
            } else if attrs[0].0 == "next"@ {
                match (
                    commands_assoc(vc, scrubbed(term_text(*inner))),
                    commands_assoc(vc, scrubbed(attr_value_text(attrs[0].1))),
                ) {
                    (Some(cur), Some(nxt)) => Some(RelationVal::Var(cur, nxt, c)),
                    _ => None,
                }
            } else if attrs[0].0 == "action"@ {
                match commands_assoc(vc, scrubbed(term_text(*inner))) {
                    Some(a) => Some(RelationVal::Act(a, c)),
                    None => None,
                }
            } else if attrs[0].0 == fact_keyword() {
                Some(RelationVal::Fact(*inner))
            } else {
                None
            },
            _ => None,
        },
        _ => None,
    }
}

/// The classification of a relationship.
pub fn relation(c: &Command, variable_commands: &Vec<(String, Command)>) -> (r: Option<(u8, Vec<Command>, Option<Term>)>)
    ensures
        match r {
            None => relation_of(c@, named_commands_view(variable_commands@)) is None,
            Some((k, cmds, t)) => match relation_of(c@, named_commands_view(variable_commands@)) {
                Some(RelationVal::Var(cur, nxt, rel)) => k == 0 && cmds@.len() == 2 && cmds@[0]@ == cur && cmds@[1]@ == nxt,
                Some(RelationVal::Act(a, rel)) => k == 1 && cmds@.len() == 1 && cmds@[0]@ == a,
                Some(RelationVal::Fact(ft)) => k == 2 && t is Some && t->0@ == ft,
                None => false,
            },
        },
{
    match c {
        Command::DefineFun { term: Term::Attributes { term, attributes }, .. } => {
            if attributes.len() != 1 {
                return None;
            }
            let keyword = &attributes[0].0;
            let next_kw = String::from_str("next");
            let action_kw = String::from_str("action");
            let fact_kw = fact_keyword_text();
            if *keyword == next_kw {
                let cur_name = scrub_variable_name(term.to_string());
                let next_name = scrub_variable_name(attribute_value_text(&attributes[0].1));
                match (get_variable_command(&cur_name, variable_commands), get_variable_command(&next_name, variable_commands)) {
                    (Some(cur), Some(nxt)) => {
                        let mut v: Vec<Command> = Vec::new();
                        v.push(cur);
                        v.push(nxt);
                        Some((0, v, None))
                    },
                    _ => None,
                }
            } else if *keyword == action_kw {
                let name = scrub_variable_name(term.to_string());
                match get_variable_command(&name, variable_commands) {
                    Some(a) => {
                        let mut v: Vec<Command> = Vec::new();
                        v.push(a);
                        Some((1, v, None))
                    },
                    None => None,
                }
            } else if *keyword == fact_kw {
                Some((2, Vec::new(), Some((**term).copy())))
            } else {
                None
            }
        },
        _ => None,
    }
}

pub type VarView = (CommandVal, CommandVal, CommandVal);

pub type ActView = (CommandVal, CommandVal);

pub open spec fn variables_view(v: Seq<Variable>) -> Seq<VarView> {
    Seq::new(v.len(), |i: int| (v[i].current@, v[i].next@, v[i].relationship@))
}

pub open spec fn actions_view(v: Seq<Action>) -> Seq<ActView> {
    Seq::new(v.len(), |i: int| (v[i].action@, v[i].relationship@))
}

pub open spec fn facts_view(v: Seq<Axiom>) -> Seq<TermVal> {
    Seq::new(v.len(), |i: int| v[i].term@)
}

pub open spec fn commands_view(v: Seq<Command>) -> Seq<CommandVal> {
    Seq::new(v.len(), |i: int| v[i]@)
}

/// The state variables, actions and facts that the relationships declare, in
/// order; nothing if one of them is not well formed.
pub open spec fn classify(rels: Seq<CommandVal>, vc: NamedCommands) -> Option<
    (Seq<VarView>, Seq<ActView>, Seq<TermVal>),
>
    decreases rels.len(),
{
    if rels.len() == 0 {
        Some((Seq::empty(), Seq::empty(), Seq::empty()))
    } else {
        match (classify(rels.drop_last(), vc), relation_of(rels.last(), vc)) {
            (Some((v, a, f)), Some(RelationVal::Var(c, n, r))) => Some((v.push((c, n, r)), a, f)),
            (Some((v, a, f)), Some(RelationVal::Act(x, r))) => Some((v, a.push((x, r)), f)),
            (Some((v, a, f)), Some(RelationVal::Fact(t))) => Some((v, a, f.push(t))),
            _ => None,
        }
    }
}

/// Splits the relationships of a system into state variables, actions and facts.
pub fn get_variables_actions_and_axioms(
    variable_relationships: &Vec<Command>,
    variable_commands: &Vec<(String, Command)>,
) -> (r: Result<(Vec<Variable>, Vec<Action>, Vec<Axiom>), VMTError>)
    ensures
        match r {
            Ok((v, a, f)) => classify(commands_view(variable_relationships@), named_commands_view(variable_commands@)) == Some(
                (variables_view(v@), actions_view(a@), facts_view(f@)),
            ),
            Err(e) => e is StructureError && classify(
                commands_view(variable_relationships@),
                named_commands_view(variable_commands@),
            ) is None,
        },
{
    let ghost rels = commands_view(variable_relationships@);
    let mut state_variables: Vec<Variable> = Vec::new();
    let mut actions: Vec<Action> = Vec::new();
    let mut axioms: Vec<Axiom> = Vec::new();
    let mut i: usize = 0;
    while i < variable_relationships.len()
        invariant
            i <= variable_relationships@.len(),
            rels == commands_view(variable_relationships@),
            classify(rels.subrange(0, i as int), named_commands_view(variable_commands@)) == Some(
                (variables_view(state_variables@), actions_view(actions@), facts_view(axioms@)),
            ),
        decreases variable_relationships@.len() - i,
    {
        let ghost sub = rels.subrange(0, i + 1);
        assert(sub.drop_last() =~= rels.subrange(0, i as int));
        assert(sub.last() == variable_relationships@[i as int]@);
        let rel = &variable_relationships[i];
        match relation(rel, variable_commands) {
            None => {
                proof {
                    lemma_classify_none(rels, named_commands_view(variable_commands@), i + 1);
                }
                return Err(VMTError::StructureError(String::from_str("ill-formed variable relationship")));
            },
            Some((k, cmds, t)) => {
                if k == 0 {
                    let ghost before = variables_view(state_variables@);
                    let v = Variable { current: cmds[0].copy(), next: cmds[1].copy(), relationship: rel.copy() };
                    state_variables.push(v);
                    assert(variables_view(state_variables@) =~= before.push((v.current@, v.next@, v.relationship@)));
                } else if k == 1 {
                    let ghost before = actions_view(actions@);
                    let a = Action { action: cmds[0].copy(), relationship: rel.copy() };
                    actions.push(a);
                    assert(actions_view(actions@) =~= before.push((a.action@, a.relationship@)));
                } else {
                    let ghost before = facts_view(axioms@);
                    match t {
                        Some(term) => {
                            let ax = Axiom { term };
                            axioms.push(ax);
                            assert(facts_view(axioms@) =~= before.push(ax.term@));
                        },
                        None => {
                            return vstd::pervasive::unreached();
                        },
                    }
                }
            },
        }
        i = i + 1;
    }
    assert(rels.subrange(0, rels.len() as int) =~= rels);
    Ok((state_variables, actions, axioms))
}

/// Once a prefix of the relationships fails to classify, the whole does too.
pub proof fn lemma_classify_none(rels: Seq<CommandVal>, vc: NamedCommands, i: int)
    requires
        0 <= i <= rels.len(),
        classify(rels.subrange(0, i), vc) is None,
    ensures
        classify(rels, vc) is None,
    decreases rels.len() - i,
{
    if i < rels.len() {
        let sub = rels.subrange(0, i + 1);
        assert(sub.drop_last() =~= rels.subrange(0, i));
        lemma_classify_none(rels, vc, i + 1);
    } else {
        assert(rels.subrange(0, i) =~= rels);
    }
}

} // verus!
