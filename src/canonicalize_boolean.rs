//! Rewrites `and` and `or` applications to arity two, for back-ends that
//! reject other arities.
use crate::concrete::{QidVal, QualIdentifier, Term, TermVal, term_view, strings_view};
use crate::concrete::{copy_attributes, copy_sorted_vars, copy_strings};
use crate::props::{everywhere, lemma_all_everywhere, lemma_bindings_everywhere, lemma_cases_everywhere};
use vstd::prelude::*;

verus! {

/// The name of a (possibly sorted) identifier.
pub open spec fn qid_name(q: QidVal) -> Seq<char> {
    match q {
        QidVal::Simple(n) => n,
        QidVal::Sorted(n, _) => n,
    }
}

/// The identifier names `and` or `or`.
pub open spec fn is_connective(q: QidVal) -> bool {
    qid_name(q) == "and"@ || qid_name(q) == "or"@
}

/// `(op a b c ... z)` as `(op a (op b (op c ... z)))`; one argument stands alone.
pub open spec fn right_fold(q: QidVal, s: Seq<TermVal>) -> TermVal
    decreases s.len(),
{
    if s.len() == 1 {
        s[0]
    } else if s.len() <= 2 {
        TermVal::App(q, s)
    } else {
        TermVal::App(q, seq![s[0], right_fold(q, s.drop_first())])
    }
}

/// Each argument canonicalized.
pub open spec fn canon_args(args: Seq<TermVal>) -> Seq<TermVal>
    decreases args,
{
    Seq::new(
        args.len(),
        |i: int|
            if 0 <= i < args.len() {
                canon(args[i])
            } else {
                TermVal::Ident(QidVal::Simple(Seq::empty()))
            },
    )
}

/// The term with every `and` and `or` application rewritten to arity two.
pub open spec fn canon(t: TermVal) -> TermVal
    decreases t,
{
    match t {
        TermVal::Constant(_) => t,
        TermVal::Ident(_) => t,
        TermVal::App(q, args) => if is_connective(q) {
            right_fold(q, canon_args(args))
        } else {
            TermVal::App(q, canon_args(args))
        },
        TermVal::Let(bs, body) => TermVal::Let(
            Seq::new(
                bs.len(),
                |i: int|
                    if 0 <= i < bs.len() {
                        (bs[i].0, canon(bs[i].1))
                    } else {
                        (Seq::empty(), t)
                    },
            ),
            Box::new(canon(*body)),
        ),
        TermVal::Forall(vars, body) => TermVal::Forall(vars, Box::new(canon(*body))),
        TermVal::Exists(vars, body) => TermVal::Exists(vars, Box::new(canon(*body))),
        TermVal::Match(s, cases) => TermVal::Match(
            Box::new(canon(*s)),
            Seq::new(
                cases.len(),
                |i: int|
                    if 0 <= i < cases.len() {
                        (cases[i].0, canon(cases[i].1))
                    } else {
                        (Seq::empty(), t)
                    },
            ),
        ),
        TermVal::Attrs(body, attrs) => TermVal::Attrs(Box::new(canon(*body)), attrs),
    }
}

/// Every `and` and `or` application at this node has some argument.
pub open spec fn connective_nonempty(t: TermVal) -> bool {
    t is App && is_connective(t->App_0) ==> t->App_1.len() > 0
}

/// Every `and` and `or` application at this node has exactly two arguments.
pub open spec fn connective_binary(t: TermVal) -> bool {
    t is App && is_connective(t->App_0) ==> t->App_1.len() == 2
}

/// The canonicalizer. It holds no state.
pub struct CanonicalizeBooleanFunctions {}

fn is_connective_name(q: &QualIdentifier) -> (r: bool)
    ensures
        r == is_connective(q@),
{
    let name = match q {
        QualIdentifier::Simple { identifier } => identifier,
        QualIdentifier::Sorted { identifier, .. } => identifier,
    };
    let a = String::from_str("and");
    let o = String::from_str("or");
    *name == a || *name == o
}

/// Folds canonical arguments to the right under `q`.
fn fold_right(q: &QualIdentifier, args: Vec<Term>) -> (r: Term)
    ensures
        r@ == right_fold(q@, Seq::new(args@.len(), |i: int| args@[i]@)),
{
    let ghost s = Seq::new(args@.len(), |i: int| args@[i]@);
    let n = args.len();
    if n <= 2 {
        if n == 1 {
            let mut args = args;
            let x = args.pop().unwrap();
            return x;
        }
        let r = Term::Application { qual_identifier: q.copy(), arguments: args };
        assert(r@->App_1 =~= s);
        return r;
    }
    let mut rest = args;
    let b = rest.pop().unwrap();
    let a = rest.pop().unwrap();
    let mut pair: Vec<Term> = Vec::new();
    pair.push(a);
    pair.push(b);
    let mut acc = Term::Application { qual_identifier: q.copy(), arguments: pair };
    proof {
        assert(acc@->App_1 =~= s.subrange(n - 2, n as int));
        assert(acc@ == right_fold(q@, s.subrange(n - 2, n as int)));
    }
    let mut i: usize = n - 2;
    while i > 0
        invariant
            0 <= i <= n - 2,
            n == s.len(),
            rest@.len() == i,
            forall|j: int| 0 <= j < i ==> (#[trigger] rest@[j])@ == s[j],
            acc@ == right_fold(q@, s.subrange(i as int, n as int)),
        decreases i,
    {
        let x = rest.pop().unwrap();
        let mut pair: Vec<Term> = Vec::new();
        pair.push(x);
        pair.push(acc);
        let next = Term::Application { qual_identifier: q.copy(), arguments: pair };
        proof {
            let sub = s.subrange(i - 1, n as int);
            assert(sub.drop_first() =~= s.subrange(i as int, n as int));
            assert(next@->App_1 =~= seq![sub[0], right_fold(q@, sub.drop_first())]);
        }
        acc = next;
        i = i - 1;
    }
    assert(s.subrange(0, n as int) =~= s);
    acc
}

impl CanonicalizeBooleanFunctions {
    pub fn new() -> CanonicalizeBooleanFunctions {
        CanonicalizeBooleanFunctions {}
    }

    /// The term with every `and` and `or` application rewritten to arity two.
    pub fn canonicalize(&self, t: &Term) -> (r: Term)
        ensures
            r@ == canon(t@),
        decreases t,
    {
        proof {
            broadcast use vstd::std_specs::vec::axiom_vec_index_decreases;
        }
        match t {
            Term::Constant(_) => t.copy(),
            Term::QualIdentifier(_) => t.copy(),
            Term::Application { qual_identifier, arguments } => {
                let ghost args = t@->App_1;
                let mut out: Vec<Term> = Vec::new();
                let mut i: usize = 0;
                while i < arguments.len()
                    invariant
                        i <= arguments@.len(),
                        *t == (Term::Application { qual_identifier: *qual_identifier, arguments: *arguments }),
                        args == t@->App_1,
                        out@.len() == i,
                        forall|j: int| 0 <= j < i ==> term_view(#[trigger] out@[j]) == canon(args[j]),
                    decreases arguments@.len() - i,
                {
                    proof {
                        assert(decreases_to!(*t => t->arguments));
                        assert(decreases_to!(t->arguments => t->arguments[i as int]));
                    }
                    out.push(self.canonicalize(&arguments[i]));
                    i = i + 1;
                }
                let ghost cargs = canon_args(args);
                assert(Seq::new(out@.len(), |i: int| out@[i]@) =~= cargs);
                if is_connective_name(qual_identifier) {
                    fold_right(qual_identifier, out)
                } else {
                    let r = Term::Application { qual_identifier: qual_identifier.copy(), arguments: out };
                    assert(r@->App_1 =~= cargs);
                    r
                }
            },
            Term::Let { var_bindings, term } => {
                let ghost bs = t@->Let_0;
                let mut out: Vec<(String, Term)> = Vec::new();
                let mut i: usize = 0;
                while i < var_bindings.len()
                    invariant
                        i <= var_bindings@.len(),
                        *t == (Term::Let { var_bindings: *var_bindings, term: *term }),
                        bs == t@->Let_0,
                        out@.len() == i,
                        forall|j: int| 0 <= j < i ==> (#[trigger] out@[j]).0@ == bs[j].0
                            && term_view(out@[j].1) == canon(bs[j].1),
                    decreases var_bindings@.len() - i,
                {
                    proof {
                        assert(decreases_to!(*t => t->var_bindings));
                        assert(decreases_to!(t->var_bindings => t->var_bindings[i as int]));
                        assert(decreases_to!(t->var_bindings[i as int] => t->var_bindings[i as int].1));
                    }
                    let v = self.canonicalize(&var_bindings[i].1);
                    out.push((var_bindings[i].0.clone(), v));
                    i = i + 1;
                }
                let body = self.canonicalize(term);
                let r = Term::Let { var_bindings: out, term: Box::new(body) };
                assert(r@->Let_0 =~= canon(t@)->Let_0);
                r
            },
            Term::Forall { vars, term } => {
                let body = self.canonicalize(term);
                Term::Forall { vars: copy_sorted_vars(vars), term: Box::new(body) }
            },
            Term::Exists { vars, term } => {
                let body = self.canonicalize(term);
                Term::Exists { vars: copy_sorted_vars(vars), term: Box::new(body) }
            },
            Term::Match { term, cases } => {
                let ghost cs = t@->Match_1;
                let scrutinee = self.canonicalize(term);
                let mut out: Vec<(Vec<String>, Term)> = Vec::new();
                let mut i: usize = 0;
                while i < cases.len()
                    invariant
                        i <= cases@.len(),
                        *t == (Term::Match { term: *term, cases: *cases }),
                        cs == t@->Match_1,
                        out@.len() == i,
                        forall|j: int| 0 <= j < i ==> strings_view((#[trigger] out@[j]).0@) == cs[j].0
                            && term_view(out@[j].1) == canon(cs[j].1),
                    decreases cases@.len() - i,
                {
                    proof {
                        assert(decreases_to!(*t => t->cases));
                        assert(decreases_to!(t->cases => t->cases[i as int]));
                        assert(decreases_to!(t->cases[i as int] => t->cases[i as int].1));
                    }
                    let body = self.canonicalize(&cases[i].1);
                    out.push((copy_strings(&cases[i].0), body));
                    i = i + 1;
                }
                let r = Term::Match { term: Box::new(scrutinee), cases: out };
                assert(r@->Match_1 =~= canon(t@)->Match_1);
                r
            },
            Term::Attributes { term, attributes } => {
                let body = self.canonicalize(term);
                Term::Attributes { term: Box::new(body), attributes: copy_attributes(attributes) }
            },
        }
    }
}

pub open spec fn nonempty_pred() -> spec_fn(TermVal) -> bool {
    |x: TermVal| connective_nonempty(x)
}

pub open spec fn binary_pred() -> spec_fn(TermVal) -> bool {
    |x: TermVal| connective_binary(x)
}

proof fn lemma_right_fold_binary(q: QidVal, s: Seq<TermVal>)
    requires
        is_connective(q),
        s.len() > 0,
        forall|i: int| 0 <= i < s.len() ==> everywhere(#[trigger] s[i], binary_pred()),
    ensures
        everywhere(right_fold(q, s), binary_pred()),
    decreases s.len(),
{
    if s.len() == 2 {
        lemma_all_everywhere(s, binary_pred());
    } else if s.len() > 2 {
        let rest = s.drop_first();
        assert forall|i: int| 0 <= i < rest.len() implies everywhere(#[trigger] rest[i], binary_pred()) by {
            assert(rest[i] == s[i + 1]);
        }
        lemma_right_fold_binary(q, rest);
        let pair = seq![s[0], right_fold(q, rest)];
        assert(everywhere(pair[0], binary_pred()));
        lemma_all_everywhere(pair, binary_pred());
    }
}

/// After canonicalization every `and` and `or` application has exactly two
/// arguments, provided none had zero to begin with (those are left as they are).
pub proof fn lemma_canon_binary(t: TermVal)
    requires
        everywhere(t, nonempty_pred()),
    ensures
        everywhere(canon(t), binary_pred()),
    decreases t,
{
    match t {
        TermVal::Constant(_) => {},
        TermVal::Ident(_) => {},
        TermVal::App(q, args) => {
            lemma_all_everywhere(args, nonempty_pred());
            let cargs = canon_args(args);
            assert forall|i: int| 0 <= i < cargs.len() implies everywhere(#[trigger] cargs[i], binary_pred()) by {
                lemma_canon_binary(args[i]);
            }
            if is_connective(q) {
                lemma_right_fold_binary(q, cargs);
            } else {
                lemma_all_everywhere(cargs, binary_pred());
            }
        },
        TermVal::Let(bs, body) => {
            lemma_bindings_everywhere(bs, nonempty_pred());
            lemma_canon_binary(*body);
            let r = canon(t);
            assert forall|i: int| 0 <= i < r->Let_0.len() implies everywhere(#[trigger] r->Let_0[i].1, binary_pred()) by {
                lemma_canon_binary(bs[i].1);
            }
            lemma_bindings_everywhere(r->Let_0, binary_pred());
        },
        TermVal::Forall(_, body) => {
            lemma_canon_binary(*body);
        },
        TermVal::Exists(_, body) => {
            lemma_canon_binary(*body);
        },
        TermVal::Match(sc, cases) => {
            lemma_cases_everywhere(cases, nonempty_pred());
            lemma_canon_binary(*sc);
            let r = canon(t);
            assert forall|i: int| 0 <= i < r->Match_1.len() implies everywhere(#[trigger] r->Match_1[i].1, binary_pred()) by {
                lemma_canon_binary(cases[i].1);
            }
            lemma_cases_everywhere(r->Match_1, binary_pred());
        },
        TermVal::Attrs(body, _) => {
            lemma_canon_binary(*body);
        },
    }
}

/// Every `and` and `or` application at this node has no argument or exactly two.
pub open spec fn connective_settled(t: TermVal) -> bool {
    t is App && is_connective(t->App_0) ==> t->App_1.len() == 0 || t->App_1.len() == 2
}

pub open spec fn settled_pred() -> spec_fn(TermVal) -> bool {
    |x: TermVal| connective_settled(x)
}

proof fn lemma_right_fold_settled(q: QidVal, s: Seq<TermVal>)
    requires
        is_connective(q),
        forall|i: int| 0 <= i < s.len() ==> everywhere(#[trigger] s[i], settled_pred()),
    ensures
        everywhere(right_fold(q, s), settled_pred()),
    decreases s.len(),
{
    if s.len() == 0 || s.len() == 2 {
        lemma_all_everywhere(s, settled_pred());
    } else if s.len() > 2 {
        let rest = s.drop_first();
        assert forall|i: int| 0 <= i < rest.len() implies everywhere(#[trigger] rest[i], settled_pred()) by {
            assert(rest[i] == s[i + 1]);
        }
        lemma_right_fold_settled(q, rest);
        let pair = seq![s[0], right_fold(q, rest)];
        assert(everywhere(pair[0], settled_pred()));
        lemma_all_everywhere(pair, settled_pred());
    }
}

/// Canonicalization leaves every `and` and `or` application with no argument or two.
pub proof fn lemma_canon_settled(t: TermVal)
    ensures
        everywhere(canon(t), settled_pred()),
    decreases t,
{
    match t {
        TermVal::Constant(_) => {},
        TermVal::Ident(_) => {},
        TermVal::App(q, args) => {
            let cargs = canon_args(args);
            assert forall|i: int| 0 <= i < cargs.len() implies everywhere(#[trigger] cargs[i], settled_pred()) by {
                lemma_canon_settled(args[i]);
            }
            if is_connective(q) {
                lemma_right_fold_settled(q, cargs);
            } else {
                lemma_all_everywhere(cargs, settled_pred());
            }
        },
        TermVal::Let(bs, body) => {
            lemma_canon_settled(*body);
            let r = canon(t);
            assert forall|i: int| 0 <= i < r->Let_0.len() implies everywhere(#[trigger] r->Let_0[i].1, settled_pred()) by {
                lemma_canon_settled(bs[i].1);
            }
            lemma_bindings_everywhere(r->Let_0, settled_pred());
        },
        TermVal::Forall(_, body) => {
            lemma_canon_settled(*body);
        },
        TermVal::Exists(_, body) => {
            lemma_canon_settled(*body);
        },
        TermVal::Match(sc, cases) => {
            lemma_canon_settled(*sc);
            let r = canon(t);
            assert forall|i: int| 0 <= i < r->Match_1.len() implies everywhere(#[trigger] r->Match_1[i].1, settled_pred()) by {
                lemma_canon_settled(cases[i].1);
            }
            lemma_cases_everywhere(r->Match_1, settled_pred());
        },
        TermVal::Attrs(body, _) => {
            lemma_canon_settled(*body);
        },
    }
}

/// A term whose `and` and `or` applications all have no argument or two is canonical already.
pub proof fn lemma_canon_fixes_settled(t: TermVal)
    requires
        everywhere(t, settled_pred()),
    ensures
        canon(t) == t,
    decreases t,
{
    match t {
        TermVal::Constant(_) => {},
        TermVal::Ident(_) => {},
        TermVal::App(q, args) => {
            lemma_all_everywhere(args, settled_pred());
            let cargs = canon_args(args);
            assert forall|i: int| 0 <= i < args.len() implies #[trigger] cargs[i] == args[i] by {
                lemma_canon_fixes_settled(args[i]);
            }
            assert(cargs =~= args);
            assert(settled_pred()(t));
        },
        TermVal::Let(bs, body) => {
            lemma_bindings_everywhere(bs, settled_pred());
            lemma_canon_fixes_settled(*body);
            let r = canon(t);
            assert forall|i: int| 0 <= i < bs.len() implies #[trigger] r->Let_0[i] == bs[i] by {
                lemma_canon_fixes_settled(bs[i].1);
            }
            assert(r->Let_0 =~= bs);
        },
        TermVal::Forall(_, body) => {
            lemma_canon_fixes_settled(*body);
        },
        TermVal::Exists(_, body) => {
            lemma_canon_fixes_settled(*body);
        },
        TermVal::Match(sc, cases) => {
            lemma_cases_everywhere(cases, settled_pred());
            lemma_canon_fixes_settled(*sc);
            let r = canon(t);
            assert forall|i: int| 0 <= i < cases.len() implies #[trigger] r->Match_1[i] == cases[i] by {
                lemma_canon_fixes_settled(cases[i].1);
            }
            assert(r->Match_1 =~= cases);
        },
        TermVal::Attrs(body, _) => {
            lemma_canon_fixes_settled(*body);
        },
    }
}

/// Canonicalization is idempotent: canonicalizing a canonical term changes nothing.
pub proof fn lemma_canon_idempotent(t: TermVal)
    ensures
        canon(canon(t)) == canon(t),
{
    lemma_canon_settled(t);
    lemma_canon_fixes_settled(canon(t));
}

} // verus!
