//! The parts of a transition system: state variables, actions and axioms.
use crate::concrete::{Command, CommandVal, FunctionDec, Sort, SortVal, Term, TermVal};
use vstd::prelude::*;

verus! {

/// The name declared by a `declare-fun`.
pub open spec fn declared_name(c: CommandVal) -> Seq<char> {
    match c {
        CommandVal::DeclareFun(s, _, _) => s,
        _ => Seq::empty(),
    }
}

/// The name of a sort, without its arguments.
pub open spec fn sort_name(s: SortVal) -> Seq<char> {
    match s {
        SortVal::Simple(id) => id,
        SortVal::Param(id, _) => id,
    }
}

/// The name declared by a command that must be a `declare-fun`.
pub fn declared_symbol(c: &Command) -> (r: &String)
    requires
        c@ is DeclareFun,
    ensures
        r@ == declared_name(c@),
{
    match c {
        Command::DeclareFun { symbol, .. } => symbol,
        _ => vstd::pervasive::unreached(),
    }
}

/// A state variable: the declarations of its current and next names, and the
/// `define-fun` whose `:next` attribute pairs them.
#[derive(Debug)]
pub struct Variable {
    pub current: Command,
    pub next: Command,
    pub relationship: Command,
}

impl Variable {
    pub open spec fn wf(&self) -> bool {
        self.current@ is DeclareFun && self.next@ is DeclareFun
    }

    pub open spec fn current_name(&self) -> Seq<char> {
        declared_name(self.current@)
    }

    pub open spec fn next_name(&self) -> Seq<char> {
        declared_name(self.next@)
    }

    pub fn get_current_variable_name(&self) -> (r: &String)
        requires
            self.wf(),
        ensures
            r@ == self.current_name(),
    {
        declared_symbol(&self.current)
    }

    pub fn get_next_variable_name(&self) -> (r: &String)
        requires
            self.wf(),
        ensures
            r@ == self.next_name(),
    {
        declared_symbol(&self.next)
    }

    /// The name of the variable's sort, without its arguments.
    pub fn get_sort_name(&self) -> (r: String)
        requires
            self.wf(),
        ensures
            r@ == sort_name(self.current@->DeclareFun_2),
    {
        match &self.current {
            Command::DeclareFun { sort, .. } => match sort {
                Sort::Simple { identifier } => identifier.clone(),
                Sort::Parameterized { identifier, .. } => identifier.clone(),
            },
            _ => vstd::pervasive::unreached(),
        }
    }

    /// The three commands, in order: current, next, relationship.
    pub fn as_commands(&self) -> (r: Vec<Command>)
        ensures
            r@.len() == 3,
            r@[0]@ == self.current@,
            r@[1]@ == self.next@,
            r@[2]@ == self.relationship@,
    {
        let mut v: Vec<Command> = Vec::new();
        v.push(self.current.copy());
        v.push(self.next.copy());
        v.push(self.relationship.copy());
        v
    }

    pub fn copy(&self) -> (r: Variable)
        ensures
            r.current@ == self.current@,
            r.next@ == self.next@,
            r.relationship@ == self.relationship@,
    {
        Variable { current: self.current.copy(), next: self.next.copy(), relationship: self.relationship.copy() }
    }
}

/// An input: its declaration and the `define-fun` whose `:action` attribute marks it.
#[derive(Debug)]
pub struct Action {
    pub action: Command,
    pub relationship: Command,
}

impl Action {
    pub open spec fn wf(&self) -> bool {
        self.action@ is DeclareFun
    }

    pub open spec fn name(&self) -> Seq<char> {
        declared_name(self.action@)
    }

    pub fn get_current_action_name(&self) -> (r: &String)
        requires
            self.wf(),
        ensures
            r@ == self.name(),
    {
        declared_symbol(&self.action)
    }

    /// The two commands, in order: declaration, relationship.
    pub fn as_commands(&self) -> (r: Vec<Command>)
        ensures
            r@.len() == 2,
            r@[0]@ == self.action@,
            r@[1]@ == self.relationship@,
    {
        let mut v: Vec<Command> = Vec::new();
        v.push(self.action.copy());
        v.push(self.relationship.copy());
        v
    }

    pub fn copy(&self) -> (r: Action)
        ensures
            r.action@ == self.action@,
            r.relationship@ == self.relationship@,
    {
        Action { action: self.action.copy(), relationship: self.relationship.copy() }
    }
}

/// The keyword that marks an assumed fact, and the name under which one is written back.
pub open spec fn fact_keyword() -> Seq<char> {
    seq!['a', 'x', 'i', 'o', 'm']
}

/// The keyword that marks an assumed fact.
pub fn fact_keyword_text() -> (r: String)
    ensures
        r@ == fact_keyword(),
{
    let mut v: Vec<char> = Vec::new();
    v.push('a');
    v.push('x');
    v.push('i');
    v.push('o');
    v.push('m');
    assert(v@ =~= fact_keyword());
    crate::text::string_of(&v)
}

/// A term that the fact keyword marks.
#[derive(Debug)]
pub struct Axiom {
    pub term: Term,
}

impl Axiom {
    /// The fact as a nullary Boolean `define-fun` named by its keyword.
    pub fn as_commands(&self) -> (r: Vec<Command>)
        ensures
            r@.len() == 1,
            r@[0]@ == CommandVal::DefineFun(fact_keyword(), Seq::empty(), SortVal::Simple("Bool"@), self.term@),
    {
        let sig = FunctionDec {
            name: fact_keyword_text(),
            parameters: Vec::new(),
            result: Sort::Simple { identifier: String::from_str("Bool") },
        };
        let c = Command::DefineFun { sig, term: self.term.copy() };
        assert(c@->DefineFun_1 =~= Seq::empty());
        let mut v: Vec<Command> = Vec::new();
        v.push(c);
        v
    }

    pub fn copy(&self) -> (r: Axiom)
        ensures
            r.term@ == self.term@,
    {
        Axiom { term: self.term.copy() }
    }
}

} // verus!
