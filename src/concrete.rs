//! Terms, sorts and commands of the command language, and their text.
use crate::sexpr::{SExpr, Sx, sx_text, sx_seq, atom, push_sx};
use vstd::prelude::*;

verus! {

/// A literal constant: a numeral (its digits as written) or a string literal.
#[derive(Debug)]
pub enum Constant {
    Numeral(String),
    Str(String),
}

/// A sort: a name, or a name applied to sort arguments (`(Array Int Int)`).
#[derive(Debug)]
pub enum Sort {
    Simple { identifier: String },
    Parameterized { identifier: String, parameters: Vec<Sort> },
}

/// An identifier, possibly annotated with a sort (`(as const (Array Int Int))`).
#[derive(Debug)]
pub enum QualIdentifier {
    Simple { identifier: String },
    Sorted { identifier: String, sort: Sort },
}

/// The value that follows a keyword in an attribute.
#[derive(Debug)]
pub enum AttributeValue {
    Empty,
    Constant(Constant),
    Symbol(String),
}

/// A term. Keywords of attributes are held without their leading colon.
#[derive(Debug)]
pub enum Term {
    Constant(Constant),
    QualIdentifier(QualIdentifier),
    Application { qual_identifier: QualIdentifier, arguments: Vec<Term> },
    Let { var_bindings: Vec<(String, Term)>, term: Box<Term> },
    Forall { vars: Vec<(String, Sort)>, term: Box<Term> },
    Exists { vars: Vec<(String, Sort)>, term: Box<Term> },
    Match { term: Box<Term>, cases: Vec<(Vec<String>, Term)> },
    Attributes { term: Box<Term>, attributes: Vec<(String, AttributeValue)> },
}

/// The signature of a defined function.
#[derive(Debug)]
pub struct FunctionDec {
    pub name: String,
    pub parameters: Vec<(String, Sort)>,
    pub result: Sort,
}

/// A command of the command language.
#[derive(Debug)]
pub enum Command {
    Assert { term: Term },
    DeclareFun { symbol: String, parameters: Vec<Sort>, sort: Sort },
    DeclareSort { symbol: String, arity: String },
    DefineFun { sig: FunctionDec, term: Term },
}

// ---------------------------------------------------------------------------
// Mathematical models of the syntax: strings become character sequences and
// vectors become sequences.

pub enum ConstVal {
    Numeral(Seq<char>),
    Str(Seq<char>),
}

pub enum SortVal {
    Simple(Seq<char>),
    Param(Seq<char>, Seq<SortVal>),
}

pub enum QidVal {
    Simple(Seq<char>),
    Sorted(Seq<char>, SortVal),
}

pub enum AttrVal {
    Empty,
    Constant(ConstVal),
    Symbol(Seq<char>),
}

pub enum TermVal {
    Constant(ConstVal),
    Ident(QidVal),
    App(QidVal, Seq<TermVal>),
    Let(Seq<(Seq<char>, TermVal)>, Box<TermVal>),
    Forall(Seq<(Seq<char>, SortVal)>, Box<TermVal>),
    Exists(Seq<(Seq<char>, SortVal)>, Box<TermVal>),
    Match(Box<TermVal>, Seq<(Seq<Seq<char>>, TermVal)>),
    Attrs(Box<TermVal>, Seq<(Seq<char>, AttrVal)>),
}

pub enum CommandVal {
    Assert(TermVal),
    DeclareFun(Seq<char>, Seq<SortVal>, SortVal),
    DeclareSort(Seq<char>, Seq<char>),
    DefineFun(Seq<char>, Seq<(Seq<char>, SortVal)>, SortVal, TermVal),
}

pub open spec fn constant_view(c: Constant) -> ConstVal {
    match c {
        Constant::Numeral(d) => ConstVal::Numeral(d@),
        Constant::Str(s) => ConstVal::Str(s@),
    }
}

pub open spec fn sort_view(s: Sort) -> SortVal
    decreases s,
{
    match s {
        Sort::Simple { identifier } => SortVal::Simple(identifier@),
        Sort::Parameterized { identifier, parameters } => SortVal::Param(
            identifier@,
            Seq::new(
                parameters.len() as nat,
                |i: int|
                    if 0 <= i < parameters.len() {
                        sort_view(parameters@[i])
                    } else {
                        SortVal::Simple(Seq::empty())
                    },
            ),
        ),
    }
}

pub open spec fn qid_view(q: QualIdentifier) -> QidVal {
    match q {
        QualIdentifier::Simple { identifier } => QidVal::Simple(identifier@),
        QualIdentifier::Sorted { identifier, sort } => QidVal::Sorted(identifier@, sort_view(sort)),
    }
}

pub open spec fn attr_value_view(a: AttributeValue) -> AttrVal {
    match a {
        AttributeValue::Empty => AttrVal::Empty,
        AttributeValue::Constant(c) => AttrVal::Constant(constant_view(c)),
        AttributeValue::Symbol(s) => AttrVal::Symbol(s@),
    }
}

pub open spec fn sorted_vars_view(v: Seq<(String, Sort)>) -> Seq<(Seq<char>, SortVal)> {
    Seq::new(v.len(), |i: int| (v[i].0@, sort_view(v[i].1)))
}

pub open spec fn attributes_view(v: Seq<(String, AttributeValue)>) -> Seq<(Seq<char>, AttrVal)> {
    Seq::new(v.len(), |i: int| (v[i].0@, attr_value_view(v[i].1)))
}

pub open spec fn strings_view(v: Seq<String>) -> Seq<Seq<char>> {
    Seq::new(v.len(), |i: int| v[i]@)
}

pub open spec fn sorts_view(v: Seq<Sort>) -> Seq<SortVal> {
    Seq::new(v.len(), |i: int| sort_view(v[i]))
}

pub open spec fn term_view(t: Term) -> TermVal
    decreases t,
{
    match t {
        Term::Constant(c) => TermVal::Constant(constant_view(c)),
        Term::QualIdentifier(q) => TermVal::Ident(qid_view(q)),
        Term::Application { qual_identifier, arguments } => TermVal::App(
            qid_view(qual_identifier),
            Seq::new(
                arguments.len() as nat,
                |i: int|
                    if 0 <= i < arguments.len() {
                        term_view(arguments@[i])
                    } else {
                        TermVal::Ident(QidVal::Simple(Seq::empty()))
                    },
            ),
        ),
        Term::Let { var_bindings, term } => TermVal::Let(
            Seq::new(
                var_bindings.len() as nat,
                |i: int|
                    if 0 <= i < var_bindings.len() {
                        (var_bindings@[i].0@, term_view(var_bindings@[i].1))
                    } else {
                        (Seq::empty(), TermVal::Ident(QidVal::Simple(Seq::empty())))
                    },
            ),
            Box::new(term_view(*term)),
        ),
        Term::Forall { vars, term } => TermVal::Forall(
            sorted_vars_view(vars@),
            Box::new(term_view(*term)),
        ),
        Term::Exists { vars, term } => TermVal::Exists(
            sorted_vars_view(vars@),
            Box::new(term_view(*term)),
        ),
        Term::Match { term, cases } => TermVal::Match(
            Box::new(term_view(*term)),
            Seq::new(
                cases.len() as nat,
                |i: int|
                    if 0 <= i < cases.len() {
                        (strings_view(cases@[i].0@), term_view(cases@[i].1))
                    } else {
                        (Seq::empty(), TermVal::Ident(QidVal::Simple(Seq::empty())))
                    },
            ),
        ),
        Term::Attributes { term, attributes } => TermVal::Attrs(
            Box::new(term_view(*term)),
            attributes_view(attributes@),
        ),
    }
}

pub open spec fn command_view(c: Command) -> CommandVal {
    match c {
        Command::Assert { term } => CommandVal::Assert(term_view(term)),
        Command::DeclareFun { symbol, parameters, sort } => CommandVal::DeclareFun(
            symbol@,
            sorts_view(parameters@),
            sort_view(sort),
        ),
        Command::DeclareSort { symbol, arity } => CommandVal::DeclareSort(symbol@, arity@),
        Command::DefineFun { sig, term } => CommandVal::DefineFun(
            sig.name@,
            sorted_vars_view(sig.parameters@),
            sort_view(sig.result),
            term_view(term),
        ),
    }
}

impl View for Constant {
    type V = ConstVal;

    open spec fn view(&self) -> ConstVal {
        constant_view(*self)
    }
}

impl View for Sort {
    type V = SortVal;

    open spec fn view(&self) -> SortVal {
        sort_view(*self)
    }
}

impl View for QualIdentifier {
    type V = QidVal;

    open spec fn view(&self) -> QidVal {
        qid_view(*self)
    }
}

impl View for AttributeValue {
    type V = AttrVal;

    open spec fn view(&self) -> AttrVal {
        attr_value_view(*self)
    }
}

impl View for Term {
    type V = TermVal;

    open spec fn view(&self) -> TermVal {
        term_view(*self)
    }
}

impl View for Command {
    type V = CommandVal;

    open spec fn view(&self) -> CommandVal {
        command_view(*self)
    }
}

// ---------------------------------------------------------------------------
// The S-expression form of each syntactic class.

pub open spec fn constant_text(c: ConstVal) -> Seq<char> {
    match c {
        ConstVal::Numeral(d) => d,
        ConstVal::Str(s) => "\""@ + s + "\""@,
    }
}

pub open spec fn sort_sx(s: SortVal) -> Sx
    decreases s,
{
    match s {
        SortVal::Simple(id) => Sx::Atom(id),
        SortVal::Param(id, ps) => Sx::List(
            seq![Sx::Atom(id)] + Seq::new(
                ps.len(),
                |i: int|
                    if 0 <= i < ps.len() {
                        sort_sx(ps[i])
                    } else {
                        Sx::Atom(Seq::empty())
                    },
            ),
        ),
    }
}

pub open spec fn qid_sx(q: QidVal) -> Sx {
    match q {
        QidVal::Simple(id) => Sx::Atom(id),
        QidVal::Sorted(id, sort) => Sx::List(seq![Sx::Atom("as"@), Sx::Atom(id), sort_sx(sort)]),
    }
}

pub open spec fn sorted_vars_sx(vars: Seq<(Seq<char>, SortVal)>) -> Sx {
    Sx::List(Seq::new(vars.len(), |i: int| Sx::List(seq![Sx::Atom(vars[i].0), sort_sx(vars[i].1)])))
}

pub open spec fn pattern_sx(p: Seq<Seq<char>>) -> Sx {
    if p.len() == 1 {
        Sx::Atom(p[0])
    } else {
        Sx::List(Seq::new(p.len(), |i: int| Sx::Atom(p[i])))
    }
}

pub open spec fn attribute_sx(a: (Seq<char>, AttrVal)) -> Seq<Sx> {
    seq![Sx::Atom(":"@ + a.0)] + match a.1 {
        AttrVal::Empty => Seq::empty(),
        AttrVal::Constant(c) => seq![Sx::Atom(constant_text(c))],
        AttrVal::Symbol(s) => seq![Sx::Atom(s)],
    }
}

pub open spec fn attributes_sx(s: Seq<(Seq<char>, AttrVal)>) -> Seq<Sx>
    decreases s.len(),
{
    if s.len() == 0 {
        Seq::empty()
    } else {
        attributes_sx(s.drop_last()) + attribute_sx(s.last())
    }
}

pub open spec fn term_sx(t: TermVal) -> Sx
    decreases t,
{
    match t {
        TermVal::Constant(c) => Sx::Atom(constant_text(c)),
        TermVal::Ident(q) => qid_sx(q),
        TermVal::App(q, args) => Sx::List(
            seq![qid_sx(q)] + Seq::new(
                args.len(),
                |i: int|
                    if 0 <= i < args.len() {
                        term_sx(args[i])
                    } else {
                        Sx::Atom(Seq::empty())
                    },
            ),
        ),
        TermVal::Let(bs, body) => Sx::List(
            seq![
                Sx::Atom("let"@),
                Sx::List(
                    Seq::new(
                        bs.len(),
                        |i: int|
                            if 0 <= i < bs.len() {
                                Sx::List(seq![Sx::Atom(bs[i].0), term_sx(bs[i].1)])
                            } else {
                                Sx::Atom(Seq::empty())
                            },
                    ),
                ),
                term_sx(*body),
            ],
        ),
        TermVal::Forall(vars, body) => Sx::List(
            seq![Sx::Atom("forall"@), sorted_vars_sx(vars), term_sx(*body)],
        ),
        TermVal::Exists(vars, body) => Sx::List(
            seq![Sx::Atom("exists"@), sorted_vars_sx(vars), term_sx(*body)],
        ),
        TermVal::Match(scrutinee, cases) => Sx::List(
            seq![
                Sx::Atom("match"@),
                term_sx(*scrutinee),
                Sx::List(
                    Seq::new(
                        cases.len(),
                        |i: int|
                            if 0 <= i < cases.len() {
                                Sx::List(seq![pattern_sx(cases[i].0), term_sx(cases[i].1)])
                            } else {
                                Sx::Atom(Seq::empty())
                            },
                    ),
                ),
            ],
        ),
        TermVal::Attrs(body, attrs) => Sx::List(
            seq![Sx::Atom("!"@), term_sx(*body)] + attributes_sx(attrs),
        ),
    }
}

pub open spec fn command_sx(c: CommandVal) -> Sx {
    match c {
        CommandVal::Assert(t) => Sx::List(seq![Sx::Atom("assert"@), term_sx(t)]),
        CommandVal::DeclareFun(symbol, params, sort) => Sx::List(
            seq![
                Sx::Atom("declare-fun"@),
                Sx::Atom(symbol),
                Sx::List(Seq::new(params.len(), |i: int| sort_sx(params[i]))),
                sort_sx(sort),
            ],
        ),
        CommandVal::DeclareSort(symbol, arity) => Sx::List(
            seq![Sx::Atom("declare-sort"@), Sx::Atom(symbol), Sx::Atom(arity)],
        ),
        CommandVal::DefineFun(name, params, result, body) => Sx::List(
            seq![
                Sx::Atom("define-fun"@),
                Sx::Atom(name),
                sorted_vars_sx(params),
                sort_sx(result),
                term_sx(body),
            ],
        ),
    }
}

/// The canonical text of a term; two terms are the same term when their texts agree.
pub open spec fn term_text(t: TermVal) -> Seq<char> {
    sx_text(term_sx(t))
}

pub open spec fn sort_text(s: SortVal) -> Seq<char> {
    sx_text(sort_sx(s))
}

pub open spec fn command_text(c: CommandVal) -> Seq<char> {
    sx_text(command_sx(c))
}

// ---------------------------------------------------------------------------
// Copies with their models kept.

impl Constant {
    pub fn copy(&self) -> (r: Constant)
        ensures
            r@ == self@,
    {
        match self {
            Constant::Numeral(d) => Constant::Numeral(d.clone()),
            Constant::Str(s) => Constant::Str(s.clone()),
        }
    }
}

impl AttributeValue {
    pub fn copy(&self) -> (r: AttributeValue)
        ensures
            r@ == self@,
    {
        match self {
            AttributeValue::Empty => AttributeValue::Empty,
            AttributeValue::Constant(c) => AttributeValue::Constant(c.copy()),
            AttributeValue::Symbol(s) => AttributeValue::Symbol(s.clone()),
        }
    }
}

impl Sort {
    pub fn copy(&self) -> (r: Sort)
        ensures
            r@ == self@,
        decreases self,
    {
        match self {
            Sort::Simple { identifier } => Sort::Simple { identifier: identifier.clone() },
            Sort::Parameterized { identifier, parameters } => {
                let mut out: Vec<Sort> = Vec::new();
                let mut i: usize = 0;
                while i < parameters.len()
                    invariant
                        i <= parameters@.len(),
                        *self == (Sort::Parameterized { identifier: *identifier, parameters: *parameters }),
                        out@.len() == i,
                        forall|j: int| 0 <= j < i ==> sort_view(#[trigger] out@[j]) == sort_view(parameters@[j]),
                    decreases parameters@.len() - i,
                {
                    proof {
                        broadcast use vstd::std_specs::vec::axiom_vec_index_decreases;

                        assert(decreases_to!(*self => self->parameters));
                        assert(decreases_to!(self->parameters => self->parameters[i as int]));
                    }
                    let c = parameters[i].copy();
                    out.push(c);
                    i = i + 1;
                }
                let r = Sort::Parameterized { identifier: identifier.clone(), parameters: out };
                assert(r@->Param_1 =~= self@->Param_1);
                r
            },
        }
    }
}

/// Copies a list of sorts.
pub fn copy_sorts(v: &Vec<Sort>) -> (r: Vec<Sort>)
    ensures
        sorts_view(r@) == sorts_view(v@),
{
    let mut out: Vec<Sort> = Vec::new();
    let mut i: usize = 0;
    while i < v.len()
        invariant
            i <= v@.len(),
            out@.len() == i,
            forall|j: int| 0 <= j < i ==> sort_view(#[trigger] out@[j]) == sort_view(v@[j]),
        decreases v@.len() - i,
    {
        out.push(v[i].copy());
        i = i + 1;
    }
    assert(sorts_view(out@) =~= sorts_view(v@));
    out
}

/// Copies a list of sorted variables.
pub fn copy_sorted_vars(v: &Vec<(String, Sort)>) -> (r: Vec<(String, Sort)>)
    ensures
        sorted_vars_view(r@) == sorted_vars_view(v@),
{
    let mut out: Vec<(String, Sort)> = Vec::new();
    let mut i: usize = 0;
    while i < v.len()
        invariant
            i <= v@.len(),
            out@.len() == i,
            forall|j: int| 0 <= j < i ==> #[trigger] out@[j].0@ == v@[j].0@ && out@[j].1@ == v@[j].1@,
        decreases v@.len() - i,
    {
        out.push((v[i].0.clone(), v[i].1.copy()));
        i = i + 1;
    }
    assert(sorted_vars_view(out@) =~= sorted_vars_view(v@));
    out
}

/// Copies a list of strings.
pub fn copy_strings(v: &Vec<String>) -> (r: Vec<String>)
    ensures
        strings_view(r@) == strings_view(v@),
{
    let mut out: Vec<String> = Vec::new();
    let mut i: usize = 0;
    while i < v.len()
        invariant
            i <= v@.len(),
            out@.len() == i,
            forall|j: int| 0 <= j < i ==> #[trigger] out@[j]@ == v@[j]@,
        decreases v@.len() - i,
    {
        out.push(v[i].clone());
        i = i + 1;
    }
    assert(strings_view(out@) =~= strings_view(v@));
    out
}

/// Copies a list of attributes.
pub fn copy_attributes(v: &Vec<(String, AttributeValue)>) -> (r: Vec<(String, AttributeValue)>)
    ensures
        attributes_view(r@) == attributes_view(v@),
{
    let mut out: Vec<(String, AttributeValue)> = Vec::new();
    let mut i: usize = 0;
    while i < v.len()
        invariant
            i <= v@.len(),
            out@.len() == i,
            forall|j: int| 0 <= j < i ==> #[trigger] out@[j].0@ == v@[j].0@ && out@[j].1@ == v@[j].1@,
        decreases v@.len() - i,
    {
        out.push((v[i].0.clone(), v[i].1.copy()));
        i = i + 1;
    }
    assert(attributes_view(out@) =~= attributes_view(v@));
    out
}

impl QualIdentifier {
    pub fn copy(&self) -> (r: QualIdentifier)
        ensures
            r@ == self@,
    {
        match self {
            QualIdentifier::Simple { identifier } => QualIdentifier::Simple { identifier: identifier.clone() },
            QualIdentifier::Sorted { identifier, sort } => QualIdentifier::Sorted {
                identifier: identifier.clone(),
                sort: sort.copy(),
            },
        }
    }
}

impl Term {
    /// A copy of the term.
    pub fn copy(&self) -> (r: Term)
        ensures
            r@ == self@,
        decreases self,
    {
        proof {
            broadcast use vstd::std_specs::vec::axiom_vec_index_decreases;
        }
        match self {
            Term::Constant(c) => Term::Constant(c.copy()),
            Term::QualIdentifier(q) => Term::QualIdentifier(q.copy()),
            Term::Application { qual_identifier, arguments } => {
                let mut out: Vec<Term> = Vec::new();
                let mut i: usize = 0;
                while i < arguments.len()
                    invariant
                        i <= arguments@.len(),
                        *self == (Term::Application { qual_identifier: *qual_identifier, arguments: *arguments }),
                        out@.len() == i,
                        forall|j: int| 0 <= j < i ==> term_view(#[trigger] out@[j]) == term_view(arguments@[j]),
                    decreases arguments@.len() - i,
                {
                    proof {
                        assert(decreases_to!(*self => self->arguments));
                        assert(decreases_to!(self->arguments => self->arguments[i as int]));
                    }
                    out.push(arguments[i].copy());
                    i = i + 1;
                }
                let r = Term::Application { qual_identifier: qual_identifier.copy(), arguments: out };
                assert(r@->App_1 =~= self@->App_1);
                r
            },
            Term::Let { var_bindings, term } => {
                let mut out: Vec<(String, Term)> = Vec::new();
                let mut i: usize = 0;
                while i < var_bindings.len()
                    invariant
                        i <= var_bindings@.len(),
                        *self == (Term::Let { var_bindings: *var_bindings, term: *term }),
                        out@.len() == i,
                        forall|j: int| 0 <= j < i ==> (#[trigger] out@[j]).0@ == var_bindings@[j].0@
                            && term_view(out@[j].1) == term_view(var_bindings@[j].1),
                    decreases var_bindings@.len() - i,
                {
                    proof {
                        assert(decreases_to!(*self => self->var_bindings));
                        assert(decreases_to!(self->var_bindings => self->var_bindings[i as int]));
                        assert(decreases_to!(self->var_bindings[i as int] => self->var_bindings[i as int].1));
                    }
                    let b = (var_bindings[i].0.clone(), var_bindings[i].1.copy());
                    out.push(b);
                    i = i + 1;
                }
                let body = (**term).copy();
                let r = Term::Let { var_bindings: out, term: Box::new(body) };
                assert(r@->Let_0 =~= self@->Let_0);
                r
            },
            Term::Forall { vars, term } => {
                let body = (**term).copy();
                Term::Forall { vars: copy_sorted_vars(vars), term: Box::new(body) }
            },
            Term::Exists { vars, term } => {
                let body = (**term).copy();
                Term::Exists { vars: copy_sorted_vars(vars), term: Box::new(body) }
            },
            Term::Match { term, cases } => {
                let mut out: Vec<(Vec<String>, Term)> = Vec::new();
                let mut i: usize = 0;
                while i < cases.len()
                    invariant
                        i <= cases@.len(),
                        *self == (Term::Match { term: *term, cases: *cases }),
                        out@.len() == i,
                        forall|j: int| 0 <= j < i ==> strings_view((#[trigger] out@[j]).0@) == strings_view(cases@[j].0@)
                            && term_view(out@[j].1) == term_view(cases@[j].1),
                    decreases cases@.len() - i,
                {
                    proof {
                        assert(decreases_to!(*self => self->cases));
                        assert(decreases_to!(self->cases => self->cases[i as int]));
                        assert(decreases_to!(self->cases[i as int] => self->cases[i as int].1));
                    }
                    let c = (copy_strings(&cases[i].0), cases[i].1.copy());
                    out.push(c);
                    i = i + 1;
                }
                let scrutinee = (**term).copy();
                let r = Term::Match { term: Box::new(scrutinee), cases: out };
                assert(r@->Match_1 =~= self@->Match_1);
                r
            },
            Term::Attributes { term, attributes } => {
                let body = (**term).copy();
                Term::Attributes { term: Box::new(body), attributes: copy_attributes(attributes) }
            },
        }
    }
}

impl Command {
    /// A copy of the command.
    pub fn copy(&self) -> (r: Command)
        ensures
            r@ == self@,
    {
        match self {
            Command::Assert { term } => Command::Assert { term: term.copy() },
            Command::DeclareFun { symbol, parameters, sort } => Command::DeclareFun {
                symbol: symbol.clone(),
                parameters: copy_sorts(parameters),
                sort: sort.copy(),
            },
            Command::DeclareSort { symbol, arity } => Command::DeclareSort {
                symbol: symbol.clone(),
                arity: arity.clone(),
            },
            Command::DefineFun { sig, term } => Command::DefineFun {
                sig: FunctionDec {
                    name: sig.name.clone(),
                    parameters: copy_sorted_vars(&sig.parameters),
                    result: sig.result.copy(),
                },
                term: term.copy(),
            },
        }
    }
}

// ---------------------------------------------------------------------------
// Rendering.

impl Constant {
    pub fn to_sexpr(&self) -> (r: SExpr)
        ensures
            r@ == Sx::Atom(constant_text(self@)),
    {
        match self {
            Constant::Numeral(d) => SExpr::Atom(d.clone()),
            Constant::Str(s) => {
                let mut t = String::from_str("\"");
                t.append(s.as_str());
                t.append("\"");
                SExpr::Atom(t)
            },
        }
    }
}

impl Sort {
    pub fn to_sexpr(&self) -> (r: SExpr)
        ensures
            r@ == sort_sx(self@),
        decreases self,
    {
        match self {
            Sort::Simple { identifier } => SExpr::Atom(identifier.clone()),
            Sort::Parameterized { identifier, parameters } => {
                let mut out: Vec<SExpr> = Vec::new();
                push_sx(&mut out, SExpr::Atom(identifier.clone()));
                let ghost ps = self@->Param_1;
                let mut i: usize = 0;
                while i < parameters.len()
                    invariant
                        i <= parameters@.len(),
                        *self == (Sort::Parameterized { identifier: *identifier, parameters: *parameters }),
                        ps == self@->Param_1,
                        sx_seq(out@) == seq![Sx::Atom(identifier@)] + Seq::new(i as nat, |j: int| sort_sx(ps[j])),
                    decreases parameters@.len() - i,
                {
                    proof {
                        broadcast use vstd::std_specs::vec::axiom_vec_index_decreases;

                        assert(decreases_to!(*self => self->parameters));
                        assert(decreases_to!(self->parameters => self->parameters[i as int]));
                    }
                    let x = parameters[i].to_sexpr();
                    let ghost prev = sx_seq(out@);
                    push_sx(&mut out, x);
                    assert(sx_seq(out@) =~= seq![Sx::Atom(identifier@)] + Seq::new((i + 1) as nat, |j: int| sort_sx(ps[j])));
                    i = i + 1;
                }
                let r = SExpr::List(out);
                assert(sx_seq(out@) =~= sort_sx(self@)->List_0);
                r
            },
        }
    }

    /// The text of the sort.
    pub fn to_string(&self) -> (r: String)
        ensures
            r@ == sort_text(self@),
    {
        self.to_sexpr().to_text()
    }
}

impl QualIdentifier {
    pub fn to_sexpr(&self) -> (r: SExpr)
        ensures
            r@ == qid_sx(self@),
    {
        match self {
            QualIdentifier::Simple { identifier } => SExpr::Atom(identifier.clone()),
            QualIdentifier::Sorted { identifier, sort } => {
                let mut out: Vec<SExpr> = Vec::new();
                push_sx(&mut out, atom("as"));
                push_sx(&mut out, SExpr::Atom(identifier.clone()));
                push_sx(&mut out, sort.to_sexpr());
                assert(sx_seq(out@) =~= qid_sx(self@)->List_0);
                SExpr::List(out)
            },
        }
    }
}

/// The S-expression of a list of sorted variables.
fn sorted_vars_to_sexpr(vars: &Vec<(String, Sort)>) -> (r: SExpr)
    ensures
        r@ == sorted_vars_sx(sorted_vars_view(vars@)),
{
    let ghost vs = sorted_vars_view(vars@);
    let mut out: Vec<SExpr> = Vec::new();
    let mut i: usize = 0;
    while i < vars.len()
        invariant
            i <= vars@.len(),
            vs == sorted_vars_view(vars@),
            sx_seq(out@) == Seq::new(i as nat, |j: int| Sx::List(seq![Sx::Atom(vs[j].0), sort_sx(vs[j].1)])),
        decreases vars@.len() - i,
    {
        let mut pair: Vec<SExpr> = Vec::new();
        push_sx(&mut pair, SExpr::Atom(vars[i].0.clone()));
        push_sx(&mut pair, vars[i].1.to_sexpr());
        assert(sx_seq(pair@) =~= seq![Sx::Atom(vs[i as int].0), sort_sx(vs[i as int].1)]);
        push_sx(&mut out, SExpr::List(pair));
        assert(sx_seq(out@) =~= Seq::new((i + 1) as nat, |j: int| Sx::List(seq![Sx::Atom(vs[j].0), sort_sx(vs[j].1)])));
        i = i + 1;
    }
    assert(sx_seq(out@) =~= sorted_vars_sx(vs)->List_0);
    SExpr::List(out)
}

/// The S-expression of a match pattern.
fn pattern_to_sexpr(p: &Vec<String>) -> (r: SExpr)
    ensures
        r@ == pattern_sx(strings_view(p@)),
{
    let ghost ps = strings_view(p@);
    if p.len() == 1 {
        SExpr::Atom(p[0].clone())
    } else {
        let mut out: Vec<SExpr> = Vec::new();
        let mut i: usize = 0;
        while i < p.len()
            invariant
                i <= p@.len(),
                ps == strings_view(p@),
                p@.len() != 1,
                sx_seq(out@) == Seq::new(i as nat, |j: int| Sx::Atom(ps[j])),
            decreases p@.len() - i,
        {
            push_sx(&mut out, SExpr::Atom(p[i].clone()));
            assert(sx_seq(out@) =~= Seq::new((i + 1) as nat, |j: int| Sx::Atom(ps[j])));
            i = i + 1;
        }
        assert(sx_seq(out@) =~= pattern_sx(ps)->List_0);
        SExpr::List(out)
    }
}

/// Unfolds the attributes' S-expressions over one more attribute.
proof fn lemma_attributes_sx_extend(s: Seq<(Seq<char>, AttrVal)>, i: int)
    requires
        0 <= i < s.len(),
    ensures
        attributes_sx(s.subrange(0, i + 1)) == attributes_sx(s.subrange(0, i)) + attribute_sx(s[i]),
{
    let p = s.subrange(0, i + 1);
    assert(p.drop_last() =~= s.subrange(0, i));
}

/// Appends the S-expressions of a list of attributes to `out`.
fn push_attributes(out: &mut Vec<SExpr>, attrs: &Vec<(String, AttributeValue)>)
    ensures
        sx_seq(final(out)@) == sx_seq(old(out)@) + attributes_sx(attributes_view(attrs@)),
{
    let ghost av = attributes_view(attrs@);
    let ghost start = sx_seq(out@);
    let mut i: usize = 0;
    while i < attrs.len()
        invariant
            i <= attrs@.len(),
            av == attributes_view(attrs@),
            sx_seq(out@) == start + attributes_sx(av.subrange(0, i as int)),
        decreases attrs@.len() - i,
    {
        let ghost prev = sx_seq(out@);
        let mut k = String::from_str(":");
        k.append(attrs[i].0.as_str());
        push_sx(out, SExpr::Atom(k));
        match &attrs[i].1 {
            AttributeValue::Empty => {},
            AttributeValue::Constant(c) => {
                push_sx(out, c.to_sexpr());
            },
            AttributeValue::Symbol(s) => {
                push_sx(out, SExpr::Atom(s.clone()));
            },
        }
        proof {
            lemma_attributes_sx_extend(av, i as int);
            assert(sx_seq(out@) =~= prev + attribute_sx(av[i as int]));
            assert(sx_seq(out@) =~= start + attributes_sx(av.subrange(0, i + 1)));
        }
        i = i + 1;
    }
    assert(av.subrange(0, attrs@.len() as int) =~= av);
}

impl Term {
    pub fn to_sexpr(&self) -> (r: SExpr)
        ensures
            r@ == term_sx(self@),
        decreases self,
    {
        proof {
            broadcast use vstd::std_specs::vec::axiom_vec_index_decreases;
        }
        match self {
            Term::Constant(c) => c.to_sexpr(),
            Term::QualIdentifier(q) => q.to_sexpr(),
            Term::Application { qual_identifier, arguments } => {
                let ghost args = self@->App_1;
                let mut out: Vec<SExpr> = Vec::new();
                push_sx(&mut out, qual_identifier.to_sexpr());
                let mut i: usize = 0;
                while i < arguments.len()
                    invariant
                        i <= arguments@.len(),
                        *self == (Term::Application { qual_identifier: *qual_identifier, arguments: *arguments }),
                        args == self@->App_1,
                        sx_seq(out@) == seq![qid_sx(qual_identifier@)] + Seq::new(i as nat, |j: int| term_sx(args[j])),
                    decreases arguments@.len() - i,
                {
                    proof {
                        assert(decreases_to!(*self => self->arguments));
                        assert(decreases_to!(self->arguments => self->arguments[i as int]));
                    }
                    let x = arguments[i].to_sexpr();
                    push_sx(&mut out, x);
                    assert(sx_seq(out@) =~= seq![qid_sx(qual_identifier@)] + Seq::new((i + 1) as nat, |j: int| term_sx(args[j])));
                    i = i + 1;
                }
                assert(sx_seq(out@) =~= term_sx(self@)->List_0);
                SExpr::List(out)
            },
            Term::Let { var_bindings, term } => {
                let ghost bs = self@->Let_0;
                let mut out: Vec<SExpr> = Vec::new();
                let mut i: usize = 0;
                while i < var_bindings.len()
                    invariant
                        i <= var_bindings@.len(),
                        *self == (Term::Let { var_bindings: *var_bindings, term: *term }),
                        bs == self@->Let_0,
                        sx_seq(out@) == Seq::new(i as nat, |j: int| Sx::List(seq![Sx::Atom(bs[j].0), term_sx(bs[j].1)])),
                    decreases var_bindings@.len() - i,
                {
                    proof {
                        assert(decreases_to!(*self => self->var_bindings));
                        assert(decreases_to!(self->var_bindings => self->var_bindings[i as int]));
                        assert(decreases_to!(self->var_bindings[i as int] => self->var_bindings[i as int].1));
                    }
                    let mut pair: Vec<SExpr> = Vec::new();
                    push_sx(&mut pair, SExpr::Atom(var_bindings[i].0.clone()));
                    push_sx(&mut pair, var_bindings[i].1.to_sexpr());
                    assert(sx_seq(pair@) =~= seq![Sx::Atom(bs[i as int].0), term_sx(bs[i as int].1)]);
                    push_sx(&mut out, SExpr::List(pair));
                    assert(sx_seq(out@) =~= Seq::new((i + 1) as nat, |j: int| Sx::List(seq![Sx::Atom(bs[j].0), term_sx(bs[j].1)])));
                    i = i + 1;
                }
                let mut all: Vec<SExpr> = Vec::new();
                push_sx(&mut all, atom("let"));
                let bindings = SExpr::List(out);
                assert(bindings@ == term_sx(self@)->List_0[1]) by {
                    assert(sx_seq(out@) =~= term_sx(self@)->List_0[1]->List_0);
                }
                push_sx(&mut all, bindings);
                push_sx(&mut all, (**term).to_sexpr());
                assert(sx_seq(all@) =~= term_sx(self@)->List_0);
                SExpr::List(all)
            },
            Term::Forall { vars, term } => {
                let mut all: Vec<SExpr> = Vec::new();
                push_sx(&mut all, atom("forall"));
                push_sx(&mut all, sorted_vars_to_sexpr(vars));
                push_sx(&mut all, (**term).to_sexpr());
                assert(sx_seq(all@) =~= term_sx(self@)->List_0);
                SExpr::List(all)
            },
            Term::Exists { vars, term } => {
                let mut all: Vec<SExpr> = Vec::new();
                push_sx(&mut all, atom("exists"));
                push_sx(&mut all, sorted_vars_to_sexpr(vars));
                push_sx(&mut all, (**term).to_sexpr());
                assert(sx_seq(all@) =~= term_sx(self@)->List_0);
                SExpr::List(all)
            },
            Term::Match { term, cases } => {
                let ghost cs = self@->Match_1;
                let mut out: Vec<SExpr> = Vec::new();
                let mut i: usize = 0;
                while i < cases.len()
                    invariant
                        i <= cases@.len(),
                        *self == (Term::Match { term: *term, cases: *cases }),
                        cs == self@->Match_1,
                        sx_seq(out@) == Seq::new(i as nat, |j: int| Sx::List(seq![pattern_sx(cs[j].0), term_sx(cs[j].1)])),
                    decreases cases@.len() - i,
                {
                    proof {
                        assert(decreases_to!(*self => self->cases));
                        assert(decreases_to!(self->cases => self->cases[i as int]));
                        assert(decreases_to!(self->cases[i as int] => self->cases[i as int].1));
                    }
                    let mut pair: Vec<SExpr> = Vec::new();
                    push_sx(&mut pair, pattern_to_sexpr(&cases[i].0));
                    push_sx(&mut pair, cases[i].1.to_sexpr());
                    assert(sx_seq(pair@) =~= seq![pattern_sx(cs[i as int].0), term_sx(cs[i as int].1)]);
                    push_sx(&mut out, SExpr::List(pair));
                    assert(sx_seq(out@) =~= Seq::new((i + 1) as nat, |j: int| Sx::List(seq![pattern_sx(cs[j].0), term_sx(cs[j].1)])));
                    i = i + 1;
                }
                let mut all: Vec<SExpr> = Vec::new();
                push_sx(&mut all, atom("match"));
                push_sx(&mut all, (**term).to_sexpr());
                let list = SExpr::List(out);
                assert(list@ == term_sx(self@)->List_0[2]) by {
                    assert(sx_seq(out@) =~= term_sx(self@)->List_0[2]->List_0);
                }
                push_sx(&mut all, list);
                assert(sx_seq(all@) =~= term_sx(self@)->List_0);
                SExpr::List(all)
            },
            Term::Attributes { term, attributes } => {
                let mut all: Vec<SExpr> = Vec::new();
                push_sx(&mut all, atom("!"));
                push_sx(&mut all, (**term).to_sexpr());
                push_attributes(&mut all, attributes);
                assert(sx_seq(all@) =~= term_sx(self@)->List_0);
                SExpr::List(all)
            },
        }
    }

    /// The text of the term.
    pub fn to_string(&self) -> (r: String)
        ensures
            r@ == term_text(self@),
    {
        self.to_sexpr().to_text()
    }
}

impl Command {
    pub fn to_sexpr(&self) -> (r: SExpr)
        ensures
            r@ == command_sx(self@),
    {
        let mut all: Vec<SExpr> = Vec::new();
        match self {
            Command::Assert { term } => {
                push_sx(&mut all, atom("assert"));
                push_sx(&mut all, term.to_sexpr());
            },
            Command::DeclareFun { symbol, parameters, sort } => {
                push_sx(&mut all, atom("declare-fun"));
                push_sx(&mut all, SExpr::Atom(symbol.clone()));
                let ghost ps = sorts_view(parameters@);
                let mut out: Vec<SExpr> = Vec::new();
                let mut i: usize = 0;
                while i < parameters.len()
                    invariant
                        i <= parameters@.len(),
                        ps == sorts_view(parameters@),
                        sx_seq(out@) == Seq::new(i as nat, |j: int| sort_sx(ps[j])),
                    decreases parameters@.len() - i,
                {
                    push_sx(&mut out, parameters[i].to_sexpr());
                    assert(sx_seq(out@) =~= Seq::new((i + 1) as nat, |j: int| sort_sx(ps[j])));
                    i = i + 1;
                }
                let list = SExpr::List(out);
                assert(list@ == command_sx(self@)->List_0[2]) by {
                    assert(sx_seq(out@) =~= command_sx(self@)->List_0[2]->List_0);
                }
                push_sx(&mut all, list);
                push_sx(&mut all, sort.to_sexpr());
            },
            Command::DeclareSort { symbol, arity } => {
                push_sx(&mut all, atom("declare-sort"));
                push_sx(&mut all, SExpr::Atom(symbol.clone()));
                push_sx(&mut all, SExpr::Atom(arity.clone()));
            },
            Command::DefineFun { sig, term } => {
                push_sx(&mut all, atom("define-fun"));
                push_sx(&mut all, SExpr::Atom(sig.name.clone()));
                push_sx(&mut all, sorted_vars_to_sexpr(&sig.parameters));
                push_sx(&mut all, sig.result.to_sexpr());
                push_sx(&mut all, term.to_sexpr());
            },
        }
        assert(sx_seq(all@) =~= command_sx(self@)->List_0);
        SExpr::List(all)
    }

    /// The text of the command.
    pub fn to_string(&self) -> (r: String)
        ensures
            r@ == command_text(self@),
    {
        self.to_sexpr().to_text()
    }
}

} // verus!
