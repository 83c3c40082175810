//! Rewriting of the symbols of terms and commands.
use crate::concrete::{
    AttrVal, AttributeValue, Command, CommandVal, QidVal, QualIdentifier, Sort, SortVal, Term,
    TermVal, copy_sorted_vars, copy_sorts, sorted_vars_view, strings_view, term_view,
};
use vstd::prelude::*;

verus! {

/// What each symbol becomes.
pub trait SymbolMap {
    spec fn rewrite_spec(&self, s: Seq<char>) -> Seq<char>;
}

/// A rewriter of symbols that can be run.
pub trait SymbolRewriter: SymbolMap {
    fn process_symbol(&self, s: &String) -> (r: String)
        ensures
            r@ == self.rewrite_spec(s@),
    ;
}

pub open spec fn renamed_qid<R: SymbolMap>(r: &R, q: QidVal) -> QidVal {
    match q {
        QidVal::Simple(n) => QidVal::Simple(r.rewrite_spec(n)),
        QidVal::Sorted(n, s) => QidVal::Sorted(r.rewrite_spec(n), s),
    }
}

pub open spec fn renamed_vars<R: SymbolMap>(r: &R, vars: Seq<(Seq<char>, SortVal)>) -> Seq<
    (Seq<char>, SortVal),
> {
    Seq::new(vars.len(), |i: int| (r.rewrite_spec(vars[i].0), vars[i].1))
}

pub open spec fn renamed_names<R: SymbolMap>(r: &R, names: Seq<Seq<char>>) -> Seq<Seq<char>> {
    Seq::new(names.len(), |i: int| r.rewrite_spec(names[i]))
}

pub open spec fn renamed_attrs<R: SymbolMap>(r: &R, attrs: Seq<(Seq<char>, AttrVal)>) -> Seq<
    (Seq<char>, AttrVal),
> {
    Seq::new(
        attrs.len(),
        |i: int|
            (
                attrs[i].0,
                match attrs[i].1 {
                    AttrVal::Symbol(s) => AttrVal::Symbol(r.rewrite_spec(s)),
                    v => v,
                },
            ),
    )
}

/// The term with every symbol rewritten: identifiers, bound names and symbol
/// values of attributes. Sorts and keywords are left as they are.
pub open spec fn renamed<R: SymbolMap>(r: &R, t: TermVal) -> TermVal
    decreases t,
{
    match t {
        TermVal::Constant(_) => t,
        TermVal::Ident(q) => TermVal::Ident(renamed_qid(r, q)),
        TermVal::App(q, args) => TermVal::App(
            renamed_qid(r, q),
            Seq::new(
                args.len(),
                |i: int|
                    if 0 <= i < args.len() {
                        renamed(r, args[i])
                    } else {
                        t
                    },
            ),
        ),
        TermVal::Let(bs, body) => TermVal::Let(
            Seq::new(
                bs.len(),
                |i: int|
                    if 0 <= i < bs.len() {
                        (r.rewrite_spec(bs[i].0), renamed(r, bs[i].1))
                    } else {
                        (Seq::empty(), t)
                    },
            ),
            Box::new(renamed(r, *body)),
        ),
        TermVal::Forall(vars, body) => TermVal::Forall(renamed_vars(r, vars), Box::new(renamed(r, *body))),
        TermVal::Exists(vars, body) => TermVal::Exists(renamed_vars(r, vars), Box::new(renamed(r, *body))),
        TermVal::Match(s, cases) => TermVal::Match(
            Box::new(renamed(r, *s)),
            Seq::new(
                cases.len(),
                |i: int|
                    if 0 <= i < cases.len() {
                        (renamed_names(r, cases[i].0), renamed(r, cases[i].1))
                    } else {
                        (Seq::empty(), t)
                    },
            ),
        ),
        TermVal::Attrs(body, attrs) => TermVal::Attrs(Box::new(renamed(r, *body)), renamed_attrs(r, attrs)),
    }
}

/// The command with its declared name and the symbols of its term rewritten.
pub open spec fn renamed_command<R: SymbolMap>(r: &R, c: CommandVal) -> CommandVal {
    match c {
        CommandVal::Assert(t) => CommandVal::Assert(renamed(r, t)),
        CommandVal::DeclareFun(s, ps, sort) => CommandVal::DeclareFun(r.rewrite_spec(s), ps, sort),
        CommandVal::DeclareSort(s, a) => CommandVal::DeclareSort(s, a),
        CommandVal::DefineFun(n, ps, res, body) => CommandVal::DefineFun(
            r.rewrite_spec(n),
            renamed_vars(r, ps),
            res,
            renamed(r, body),
        ),
    }
}

fn rewrite_qid<R: SymbolRewriter>(r: &R, q: &QualIdentifier) -> (out: QualIdentifier)
    ensures
        out@ == renamed_qid(r, q@),
{
    match q {
        QualIdentifier::Simple { identifier } => QualIdentifier::Simple { identifier: r.process_symbol(identifier) },
        QualIdentifier::Sorted { identifier, sort } => QualIdentifier::Sorted {
            identifier: r.process_symbol(identifier),
            sort: sort.copy(),
        },
    }
}

fn rewrite_vars<R: SymbolRewriter>(r: &R, vars: &Vec<(String, Sort)>) -> (out: Vec<(String, Sort)>)
    ensures
        sorted_vars_view(out@) == renamed_vars(r, sorted_vars_view(vars@)),
{
    let mut out: Vec<(String, Sort)> = Vec::new();
    let mut i: usize = 0;
    while i < vars.len()
        invariant
            i <= vars@.len(),
            out@.len() == i,
            forall|j: int| 0 <= j < i ==> (#[trigger] out@[j]).0@ == r.rewrite_spec(vars@[j].0@)
                && out@[j].1@ == vars@[j].1@,
        decreases vars@.len() - i,
    {
        out.push((r.process_symbol(&vars[i].0), vars[i].1.copy()));
        i = i + 1;
    }
    assert(sorted_vars_view(out@) =~= renamed_vars(r, sorted_vars_view(vars@)));
    out
}

fn rewrite_names<R: SymbolRewriter>(r: &R, names: &Vec<String>) -> (out: Vec<String>)
    ensures
        strings_view(out@) == renamed_names(r, strings_view(names@)),
{
    let mut out: Vec<String> = Vec::new();
    let mut i: usize = 0;
    while i < names.len()
        invariant
            i <= names@.len(),
            out@.len() == i,
            forall|j: int| 0 <= j < i ==> (#[trigger] out@[j])@ == r.rewrite_spec(names@[j]@),
        decreases names@.len() - i,
    {
        out.push(r.process_symbol(&names[i]));
        i = i + 1;
    }
    assert(strings_view(out@) =~= renamed_names(r, strings_view(names@)));
    out
}

fn rewrite_attrs<R: SymbolRewriter>(r: &R, attrs: &Vec<(String, AttributeValue)>) -> (out: Vec<
    (String, AttributeValue),
>)
    ensures
        crate::concrete::attributes_view(out@) == renamed_attrs(
            r,
            crate::concrete::attributes_view(attrs@),
        ),
{
    let ghost av = crate::concrete::attributes_view(attrs@);
    let ghost want = renamed_attrs(r, av);
    let mut out: Vec<(String, AttributeValue)> = Vec::new();
    let mut i: usize = 0;
    while i < attrs.len()
        invariant
            i <= attrs@.len(),
            av == crate::concrete::attributes_view(attrs@),
            want == renamed_attrs(r, av),
            out@.len() == i,
            forall|j: int| 0 <= j < i ==> (#[trigger] out@[j]).0@ == want[j].0 && out@[j].1@ == want[j].1,
        decreases attrs@.len() - i,
    {
        let v = match &attrs[i].1 {
            AttributeValue::Symbol(s) => AttributeValue::Symbol(r.process_symbol(s)),
            other => other.copy(),
        };
        out.push((attrs[i].0.clone(), v));
        i = i + 1;
    }
    assert(crate::concrete::attributes_view(out@) =~= want);
    out
}

/// The term with every symbol rewritten by `r`.
pub fn rewrite_term<R: SymbolRewriter>(r: &R, t: &Term) -> (out: Term)
    ensures
        out@ == renamed(r, t@),
    decreases t,
{
    proof {
        broadcast use vstd::std_specs::vec::axiom_vec_index_decreases;
    }
    match t {
        Term::Constant(c) => Term::Constant(c.copy()),
        Term::QualIdentifier(q) => Term::QualIdentifier(rewrite_qid(r, q)),
        Term::Application { qual_identifier, arguments } => {
            let ghost args = t@->App_1;
            let mut out: Vec<Term> = Vec::new();
            let mut i: usize = 0;
            while i < arguments.len()
                invariant
                    i <= arguments@.len(),
                    *t == (Term::Application { qual_identifier: *qual_identifier, arguments: *arguments }),
                    args == t@->App_1,
                    out@.len() == i,
                    forall|j: int| 0 <= j < i ==> term_view(#[trigger] out@[j]) == renamed(r, args[j]),
                decreases arguments@.len() - i,
            {
                proof {
                    assert(decreases_to!(*t => t->arguments));
                    assert(decreases_to!(t->arguments => t->arguments[i as int]));
                }
                out.push(rewrite_term(r, &arguments[i]));
                i = i + 1;
            }
            let res = Term::Application { qual_identifier: rewrite_qid(r, qual_identifier), arguments: out };
            assert(res@->App_1 =~= renamed(r, t@)->App_1);
            res
        },
        Term::Let { var_bindings, term } => {
            let ghost bs = t@->Let_0;
            let mut out: Vec<(String, Term)> = Vec::new();
            let mut i: usize = 0;
            while i < var_bindings.len()
                invariant
                    i <= var_bindings@.len(),
                    *t == (Term::Let { var_bindings: *var_bindings, term: *term }),
                    bs == t@->Let_0,
                    out@.len() == i,
                    forall|j: int| 0 <= j < i ==> (#[trigger] out@[j]).0@ == r.rewrite_spec(bs[j].0)
                        && term_view(out@[j].1) == renamed(r, bs[j].1),
                decreases var_bindings@.len() - i,
            {
                proof {
                    assert(decreases_to!(*t => t->var_bindings));
                    assert(decreases_to!(t->var_bindings => t->var_bindings[i as int]));
                    assert(decreases_to!(t->var_bindings[i as int] => t->var_bindings[i as int].1));
                }
                let v = rewrite_term(r, &var_bindings[i].1);
                out.push((r.process_symbol(&var_bindings[i].0), v));
                i = i + 1;
            }
            let body = rewrite_term(r, term);
            let res = Term::Let { var_bindings: out, term: Box::new(body) };
            assert(res@->Let_0 =~= renamed(r, t@)->Let_0);
            res
        },
        Term::Forall { vars, term } => {
            let body = rewrite_term(r, term);
            Term::Forall { vars: rewrite_vars(r, vars), term: Box::new(body) }
        },
        Term::Exists { vars, term } => {
            let body = rewrite_term(r, term);
            Term::Exists { vars: rewrite_vars(r, vars), term: Box::new(body) }
        },
        Term::Match { term, cases } => {
            let ghost cs = t@->Match_1;
            let scrutinee = rewrite_term(r, term);
            let mut out: Vec<(Vec<String>, Term)> = Vec::new();
            let mut i: usize = 0;
            while i < cases.len()
                invariant
                    i <= cases@.len(),
                    *t == (Term::Match { term: *term, cases: *cases }),
                    cs == t@->Match_1,
                    out@.len() == i,
                    forall|j: int| 0 <= j < i ==> strings_view((#[trigger] out@[j]).0@) == renamed_names(r, cs[j].0)
                        && term_view(out@[j].1) == renamed(r, cs[j].1),
                decreases cases@.len() - i,
            {
                proof {
                    assert(decreases_to!(*t => t->cases));
                    assert(decreases_to!(t->cases => t->cases[i as int]));
                    assert(decreases_to!(t->cases[i as int] => t->cases[i as int].1));
                }
                let body = rewrite_term(r, &cases[i].1);
                out.push((rewrite_names(r, &cases[i].0), body));
                i = i + 1;
            }
            let res = Term::Match { term: Box::new(scrutinee), cases: out };
            assert(res@->Match_1 =~= renamed(r, t@)->Match_1);
            res
        },
        Term::Attributes { term, attributes } => {
            let body = rewrite_term(r, term);
            Term::Attributes { term: Box::new(body), attributes: rewrite_attrs(r, attributes) }
        },
    }
}

/// The command with its symbols rewritten by `r`.
pub fn rewrite_command<R: SymbolRewriter>(r: &R, c: &Command) -> (out: Command)
    ensures
        out@ == renamed_command(r, c@),
{
    match c {
        Command::Assert { term } => Command::Assert { term: rewrite_term(r, term) },
        Command::DeclareFun { symbol, parameters, sort } => Command::DeclareFun {
            symbol: r.process_symbol(symbol),
            parameters: copy_sorts(parameters),
            sort: sort.copy(),
        },
        Command::DeclareSort { symbol, arity } => Command::DeclareSort {
            symbol: symbol.clone(),
            arity: arity.clone(),
        },
        Command::DefineFun { sig, term } => Command::DefineFun {
            sig: crate::concrete::FunctionDec {
                name: r.process_symbol(&sig.name),
                parameters: rewrite_vars(r, &sig.parameters),
                result: sig.result.copy(),
            },
            term: rewrite_term(r, term),
        },
    }
}

/// Two symbol maps that agree on every symbol rename every term alike.
pub proof fn lemma_renamed_ext<R1: SymbolMap, R2: SymbolMap>(r1: &R1, r2: &R2, t: TermVal)
    requires
        forall|s: Seq<char>| #[trigger] r1.rewrite_spec(s) == r2.rewrite_spec(s),
    ensures
        renamed(r1, t) == renamed(r2, t),
    decreases t,
{
    let a = renamed(r1, t);
    let b = renamed(r2, t);
    match t {
        TermVal::Constant(_) => {},
        TermVal::Ident(q) => {},
        TermVal::App(q, args) => {
            assert forall|i: int| 0 <= i < args.len() implies #[trigger] a->App_1[i] == b->App_1[i] by {
                lemma_renamed_ext(r1, r2, args[i]);
            }
            assert(a->App_1 =~= b->App_1);
        },
        TermVal::Let(bs, body) => {
            assert forall|i: int| 0 <= i < bs.len() implies #[trigger] a->Let_0[i] == b->Let_0[i] by {
                lemma_renamed_ext(r1, r2, bs[i].1);
            }
            assert(a->Let_0 =~= b->Let_0);
            lemma_renamed_ext(r1, r2, *body);
        },
        TermVal::Forall(vars, body) => {
            assert(a->Forall_0 =~= b->Forall_0);
            lemma_renamed_ext(r1, r2, *body);
        },
        TermVal::Exists(vars, body) => {
            assert(a->Exists_0 =~= b->Exists_0);
            lemma_renamed_ext(r1, r2, *body);
        },
        TermVal::Match(sc, cases) => {
            assert forall|i: int| 0 <= i < cases.len() implies #[trigger] a->Match_1[i] == b->Match_1[i] by {
                lemma_renamed_ext(r1, r2, cases[i].1);
                assert(a->Match_1[i].0 =~= b->Match_1[i].0);
            }
            assert(a->Match_1 =~= b->Match_1);
            lemma_renamed_ext(r1, r2, *sc);
        },
        TermVal::Attrs(body, attrs) => {
            assert(a->Attrs_1 =~= b->Attrs_1);
            lemma_renamed_ext(r1, r2, *body);
        },
    }
}

} // verus!
