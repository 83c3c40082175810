//! Properties that hold at every node of a term.
use crate::concrete::{AttrVal, QidVal, TermVal};
use crate::rewriter::{SymbolMap, renamed};
use vstd::prelude::*;

verus! {

/// `p` holds of the term and of each of its subterms.
pub open spec fn everywhere(t: TermVal, p: spec_fn(TermVal) -> bool) -> bool
    decreases t,
{
    p(t) && match t {
        TermVal::Constant(_) => true,
        TermVal::Ident(_) => true,
        TermVal::App(_, args) => all_everywhere(args, p),
        TermVal::Let(bs, body) => bindings_everywhere(bs, p) && everywhere(*body, p),
        TermVal::Forall(_, body) => everywhere(*body, p),
        TermVal::Exists(_, body) => everywhere(*body, p),
        TermVal::Match(s, cases) => everywhere(*s, p) && cases_everywhere(cases, p),
        TermVal::Attrs(body, _) => everywhere(*body, p),
    }
}

pub open spec fn all_everywhere(s: Seq<TermVal>, p: spec_fn(TermVal) -> bool) -> bool
    decreases s,
{
    if s.len() == 0 {
        true
    } else {
        all_everywhere(s.subrange(0, s.len() - 1), p) && everywhere(s[s.len() - 1], p)
    }
}

pub open spec fn bindings_everywhere(
    s: Seq<(Seq<char>, TermVal)>,
    p: spec_fn(TermVal) -> bool,
) -> bool
    decreases s,
{
    if s.len() == 0 {
        true
    } else {
        bindings_everywhere(s.subrange(0, s.len() - 1), p) && everywhere(s[s.len() - 1].1, p)
    }
}

pub open spec fn cases_everywhere(
    s: Seq<(Seq<Seq<char>>, TermVal)>,
    p: spec_fn(TermVal) -> bool,
) -> bool
    decreases s,
{
    if s.len() == 0 {
        true
    } else {
        cases_everywhere(s.subrange(0, s.len() - 1), p) && everywhere(s[s.len() - 1].1, p)
    }
}

/// `all_everywhere` holds exactly when `p` holds everywhere in each item.
pub proof fn lemma_all_everywhere(s: Seq<TermVal>, p: spec_fn(TermVal) -> bool)
    ensures
        all_everywhere(s, p) <==> forall|i: int| 0 <= i < s.len() ==> everywhere(#[trigger] s[i], p),
    decreases s.len(),
{
    if s.len() > 0 {
        let q = s.subrange(0, s.len() - 1);
        lemma_all_everywhere(q, p);
        if forall|i: int| 0 <= i < s.len() ==> everywhere(#[trigger] s[i], p) {
            assert forall|i: int| 0 <= i < q.len() implies everywhere(#[trigger] q[i], p) by {
                assert(q[i] == s[i]);
            }
        }
        if all_everywhere(s, p) {
            assert forall|i: int| 0 <= i < s.len() implies everywhere(#[trigger] s[i], p) by {
                if i < q.len() {
                    assert(q[i] == s[i]);
                }
            }
        }
    }
}

/// `bindings_everywhere` holds exactly when `p` holds everywhere in each bound term.
pub proof fn lemma_bindings_everywhere(s: Seq<(Seq<char>, TermVal)>, p: spec_fn(TermVal) -> bool)
    ensures
        bindings_everywhere(s, p) <==> forall|i: int|
            0 <= i < s.len() ==> everywhere(#[trigger] s[i].1, p),
    decreases s.len(),
{
    if s.len() > 0 {
        let q = s.subrange(0, s.len() - 1);
        lemma_bindings_everywhere(q, p);
        if forall|i: int| 0 <= i < s.len() ==> everywhere(#[trigger] s[i].1, p) {
            assert forall|i: int| 0 <= i < q.len() implies everywhere(#[trigger] q[i].1, p) by {
                assert(q[i] == s[i]);
            }
        }
        if bindings_everywhere(s, p) {
            assert forall|i: int| 0 <= i < s.len() implies everywhere(#[trigger] s[i].1, p) by {
                if i < q.len() {
                    assert(q[i] == s[i]);
                }
            }
        }
    }
}

/// `cases_everywhere` holds exactly when `p` holds everywhere in each case's term.
pub proof fn lemma_cases_everywhere(s: Seq<(Seq<Seq<char>>, TermVal)>, p: spec_fn(TermVal) -> bool)
    ensures
        cases_everywhere(s, p) <==> forall|i: int|
            0 <= i < s.len() ==> everywhere(#[trigger] s[i].1, p),
    decreases s.len(),
{
    if s.len() > 0 {
        let q = s.subrange(0, s.len() - 1);
        lemma_cases_everywhere(q, p);
        if forall|i: int| 0 <= i < s.len() ==> everywhere(#[trigger] s[i].1, p) {
            assert forall|i: int| 0 <= i < q.len() implies everywhere(#[trigger] q[i].1, p) by {
                assert(q[i] == s[i]);
            }
        }
        if cases_everywhere(s, p) {
            assert forall|i: int| 0 <= i < s.len() implies everywhere(#[trigger] s[i].1, p) by {
                if i < q.len() {
                    assert(q[i] == s[i]);
                }
            }
        }
    }
}

/// The name of a (possibly sorted) identifier.
pub open spec fn qid_symbol(q: QidVal) -> Seq<char> {
    match q {
        QidVal::Simple(n) => n,
        QidVal::Sorted(n, _) => n,
    }
}

/// `p` holds of every symbol that occurs at this node: the identifier, the names
/// a binder binds, the names of match patterns and symbol values of attributes.
pub open spec fn syms_all(n: TermVal, p: spec_fn(Seq<char>) -> bool) -> bool {
    match n {
        TermVal::Constant(_) => true,
        TermVal::Ident(q) => p(qid_symbol(q)),
        TermVal::App(q, _) => p(qid_symbol(q)),
        TermVal::Let(bs, _) => forall|i: int| 0 <= i < bs.len() ==> p(#[trigger] bs[i].0),
        TermVal::Forall(vs, _) => forall|i: int| 0 <= i < vs.len() ==> p(#[trigger] vs[i].0),
        TermVal::Exists(vs, _) => forall|i: int| 0 <= i < vs.len() ==> p(#[trigger] vs[i].0),
        TermVal::Match(_, cases) => forall|i: int, j: int|
            0 <= i < cases.len() && 0 <= j < cases[i].0.len() ==> p(#[trigger] cases[i].0[j]),
        TermVal::Attrs(_, attrs) => forall|i: int|
            0 <= i < attrs.len() && (#[trigger] attrs[i]).1 is Symbol ==> p(attrs[i].1->Symbol_0),
    }
}

/// `p` holds of every symbol of the term.
pub open spec fn all_symbols(t: TermVal, p: spec_fn(Seq<char>) -> bool) -> bool {
    everywhere(t, |n: TermVal| syms_all(n, p))
}

/// Rewriting the symbols of a term: a property of the rewritten symbols holds of
/// the result's symbols.
pub proof fn lemma_renamed_symbols<R: SymbolMap>(
    r: &R,
    t: TermVal,
    p: spec_fn(Seq<char>) -> bool,
)
    requires
        all_symbols(t, |s: Seq<char>| p(r.rewrite_spec(s))),
    ensures
        all_symbols(renamed(r, t), p),
    decreases t,
{
    let pin = |n: TermVal| syms_all(n, |s: Seq<char>| p(r.rewrite_spec(s)));
    let pout = |n: TermVal| syms_all(n, p);
    let rt = renamed(r, t);
    assert(pin(t));
    match t {
        TermVal::Constant(_) => {},
        TermVal::Ident(q) => {},
        TermVal::App(q, args) => {
            lemma_all_everywhere(args, pin);
            assert forall|i: int| 0 <= i < rt->App_1.len() implies everywhere(#[trigger] rt->App_1[i], pout) by {
                lemma_renamed_symbols(r, args[i], p);
            }
            lemma_all_everywhere(rt->App_1, pout);
        },
        TermVal::Let(bs, body) => {
            lemma_bindings_everywhere(bs, pin);
            assert forall|i: int| 0 <= i < rt->Let_0.len() implies everywhere(#[trigger] rt->Let_0[i].1, pout) by {
                lemma_renamed_symbols(r, bs[i].1, p);
            }
            lemma_bindings_everywhere(rt->Let_0, pout);
            lemma_renamed_symbols(r, *body, p);
            assert(pout(rt));
        },
        TermVal::Forall(vs, body) => {
            lemma_renamed_symbols(r, *body, p);
            assert(pout(rt));
        },
        TermVal::Exists(vs, body) => {
            lemma_renamed_symbols(r, *body, p);
            assert(pout(rt));
        },
        TermVal::Match(sc, cases) => {
            lemma_cases_everywhere(cases, pin);
            assert forall|i: int| 0 <= i < rt->Match_1.len() implies everywhere(#[trigger] rt->Match_1[i].1, pout) by {
                lemma_renamed_symbols(r, cases[i].1, p);
            }
            lemma_cases_everywhere(rt->Match_1, pout);
            lemma_renamed_symbols(r, *sc, p);
            assert forall|i: int, j: int|
                0 <= i < rt->Match_1.len() && 0 <= j < rt->Match_1[i].0.len() implies p(#[trigger] rt->Match_1[i].0[j]) by {
                assert(rt->Match_1[i].0[j] == r.rewrite_spec(cases[i].0[j]));
            }
            assert(pout(rt));
        },
        TermVal::Attrs(body, attrs) => {
            lemma_renamed_symbols(r, *body, p);
            assert forall|i: int|
                0 <= i < rt->Attrs_1.len() && (#[trigger] rt->Attrs_1[i]).1 is Symbol implies p(rt->Attrs_1[i].1->Symbol_0) by {
                assert(attrs[i].1 is Symbol);
            }
            assert(pout(rt));
        },
    }
}

/// A property of symbols that follows from another holds wherever the other does.
pub proof fn lemma_symbols_mono(t: TermVal, p: spec_fn(Seq<char>) -> bool, q: spec_fn(Seq<char>) -> bool)
    requires
        all_symbols(t, p),
        forall|s: Seq<char>| #[trigger] p(s) ==> q(s),
    ensures
        all_symbols(t, q),
    decreases t,
{
    let pin = |n: TermVal| syms_all(n, p);
    let pout = |n: TermVal| syms_all(n, q);
    assert(pin(t));
    match t {
        TermVal::Constant(_) => {},
        TermVal::Ident(_) => {},
        TermVal::App(_, args) => {
            lemma_all_everywhere(args, pin);
            assert forall|i: int| 0 <= i < args.len() implies everywhere(#[trigger] args[i], pout) by {
                lemma_symbols_mono(args[i], p, q);
            }
            lemma_all_everywhere(args, pout);
        },
        TermVal::Let(bs, body) => {
            lemma_bindings_everywhere(bs, pin);
            assert forall|i: int| 0 <= i < bs.len() implies everywhere(#[trigger] bs[i].1, pout) by {
                lemma_symbols_mono(bs[i].1, p, q);
            }
            lemma_bindings_everywhere(bs, pout);
            lemma_symbols_mono(*body, p, q);
        },
        TermVal::Forall(_, body) => {
            lemma_symbols_mono(*body, p, q);
        },
        TermVal::Exists(_, body) => {
            lemma_symbols_mono(*body, p, q);
        },
        TermVal::Match(sc, cases) => {
            lemma_cases_everywhere(cases, pin);
            assert forall|i: int| 0 <= i < cases.len() implies everywhere(#[trigger] cases[i].1, pout) by {
                lemma_symbols_mono(cases[i].1, p, q);
            }
            lemma_cases_everywhere(cases, pout);
            lemma_symbols_mono(*sc, p, q);
        },
        TermVal::Attrs(body, _) => {
            lemma_symbols_mono(*body, p, q);
        },
    }
}

} // verus!
