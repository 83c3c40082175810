//! Collects the applications of a term whose function is not a Boolean or
//! comparison connective or an array operator.
use crate::concrete::{QualIdentifier, Term, TermVal};
use crate::props::qid_symbol;
use crate::smt::terms_view;
use vstd::prelude::*;

verus! {

/// The functions whose applications are not collected.
pub open spec fn dont_care(name: Seq<char>) -> bool {
    name == "Read-Int-Int"@ || name == "Write-Int-Int"@ || name == "and"@ || name == "or"@ || name == "=>"@
        || name == "="@ || name == "not"@ || name == "<"@ || name == ">"@ || name == ">="@ || name == "<="@
}

/// The collected applications of a term, children before parents, in order.
pub open spec fn extracted(t: TermVal) -> Seq<TermVal>
    decreases t,
{
    match t {
        TermVal::App(q, args) => extracted_list(args) + if dont_care(qid_symbol(q)) {
            Seq::empty()
        } else {
            seq![t]
        },
        TermVal::Let(bs, body) => extracted_bindings(bs) + extracted(*body),
        TermVal::Forall(_, body) => extracted(*body),
        TermVal::Exists(_, body) => extracted(*body),
        TermVal::Match(s, cases) => extracted(*s) + extracted_cases(cases),
        TermVal::Attrs(body, _) => extracted(*body),
        _ => Seq::empty(),
    }
}

pub open spec fn extracted_list(s: Seq<TermVal>) -> Seq<TermVal>
    decreases s,
{
    if s.len() == 0 {
        Seq::empty()
    } else {
        extracted_list(s.subrange(0, s.len() - 1)) + extracted(s[s.len() - 1])
    }
}

pub open spec fn extracted_bindings(s: Seq<(Seq<char>, TermVal)>) -> Seq<TermVal>
    decreases s,
{
    if s.len() == 0 {
        Seq::empty()
    } else {
        extracted_bindings(s.subrange(0, s.len() - 1)) + extracted(s[s.len() - 1].1)
    }
}

pub open spec fn extracted_cases(s: Seq<(Seq<Seq<char>>, TermVal)>) -> Seq<TermVal>
    decreases s,
{
    if s.len() == 0 {
        Seq::empty()
    } else {
        extracted_cases(s.subrange(0, s.len() - 1)) + extracted(s[s.len() - 1].1)
    }
}

fn is_dont_care(q: &QualIdentifier) -> (r: bool)
    ensures
        r == dont_care(qid_symbol(q@)),
{
    let name = match q {
        QualIdentifier::Simple { identifier } => identifier,
        QualIdentifier::Sorted { identifier, .. } => identifier,
    };
    *name == String::from_str("Read-Int-Int") || *name == String::from_str("Write-Int-Int") || *name
        == String::from_str("and") || *name == String::from_str("or") || *name == String::from_str("=>")
        || *name == String::from_str("=") || *name == String::from_str("not") || *name == String::from_str("<")
        || *name == String::from_str(">") || *name == String::from_str(">=") || *name == String::from_str("<=")
}

/// Collects applications; `terms` holds what was collected so far.
pub struct TermExtractor {
    pub current_to_next_variables: Vec<(String, String)>,
    pub terms: Vec<Term>,
}

proof fn lemma_terms_view_push(s: Seq<Term>, x: Term)
    ensures
        terms_view(s.push(x)) == terms_view(s).push(x@),
{
    assert(terms_view(s.push(x)) =~= terms_view(s).push(x@));
}

impl TermExtractor {
    pub fn new() -> (r: TermExtractor)
        ensures
            r.terms@.len() == 0,
            r.current_to_next_variables@.len() == 0,
    {
        TermExtractor { current_to_next_variables: Vec::new(), terms: Vec::new() }
    }

    /// Collects the applications of `t`.
    pub fn visit(&mut self, t: &Term)
        ensures
            terms_view(final(self).terms@) == terms_view(old(self).terms@) + extracted(t@),
            final(self).current_to_next_variables == old(self).current_to_next_variables,
        decreases t,
    {
        proof {
            broadcast use vstd::std_specs::vec::axiom_vec_index_decreases;
        }
        let ghost start = terms_view(self.terms@);
        match t {
            Term::Application { qual_identifier, arguments } => {
                let ghost args = t@->App_1;
                let mut i: usize = 0;
                while i < arguments.len()
                    invariant
                        i <= arguments@.len(),
                        *t == (Term::Application { qual_identifier: *qual_identifier, arguments: *arguments }),
                        args == t@->App_1,
                        self.current_to_next_variables == old(self).current_to_next_variables,
                        terms_view(self.terms@) == start + extracted_list(args.subrange(0, i as int)),
                    decreases arguments@.len() - i,
                {
                    proof {
                        assert(decreases_to!(*t => t->arguments));
                        assert(decreases_to!(t->arguments => t->arguments[i as int]));
                        let sub = args.subrange(0, i + 1);
                        assert(sub.subrange(0, i as int) =~= args.subrange(0, i as int));
                    }
                    self.visit(&arguments[i]);
                    assert(start + extracted_list(args.subrange(0, i + 1)) =~= start + extracted_list(args.subrange(0, i as int)) + extracted(args[i as int]));
                    i = i + 1;
                }
                assert(args.subrange(0, args.len() as int) =~= args);
                if !is_dont_care(qual_identifier) {
                    let ghost before = self.terms@;
                    let c = t.copy();
                    self.terms.push(c);
                    proof {
                        lemma_terms_view_push(before, c);
                    }
                    assert(terms_view(self.terms@) =~= start + extracted(t@));
                } else {
                    assert(terms_view(self.terms@) =~= start + extracted(t@));
                }
            },
            Term::Let { var_bindings, term } => {
                let ghost bs = t@->Let_0;
                let mut i: usize = 0;
                while i < var_bindings.len()
                    invariant
                        i <= var_bindings@.len(),
                        *t == (Term::Let { var_bindings: *var_bindings, term: *term }),
                        bs == t@->Let_0,
                        self.current_to_next_variables == old(self).current_to_next_variables,
                        terms_view(self.terms@) == start + extracted_bindings(bs.subrange(0, i as int)),
                    decreases var_bindings@.len() - i,
                {
                    proof {
                        assert(decreases_to!(*t => t->var_bindings));
                        assert(decreases_to!(t->var_bindings => t->var_bindings[i as int]));
                        assert(decreases_to!(t->var_bindings[i as int] => t->var_bindings[i as int].1));
                        let sub = bs.subrange(0, i + 1);
                        assert(sub.subrange(0, i as int) =~= bs.subrange(0, i as int));
                    }
                    self.visit(&var_bindings[i].1);
                    assert(start + extracted_bindings(bs.subrange(0, i + 1)) =~= start + extracted_bindings(bs.subrange(0, i as int)) + extracted(bs[i as int].1));
                    i = i + 1;
                }
                assert(bs.subrange(0, bs.len() as int) =~= bs);
                self.visit(term);
                assert(terms_view(self.terms@) =~= start + extracted(t@));
            },
            Term::Forall { term, .. } => {
                self.visit(term);
            },
            Term::Exists { term, .. } => {
                self.visit(term);
            },
            Term::Match { term, cases } => {
                self.visit(term);
                let ghost cs = t@->Match_1;
                let ghost mid = terms_view(self.terms@);
                let mut i: usize = 0;
                while i < cases.len()
                    invariant
                        i <= cases@.len(),
                        *t == (Term::Match { term: *term, cases: *cases }),
                        cs == t@->Match_1,
                        self.current_to_next_variables == old(self).current_to_next_variables,
                        terms_view(self.terms@) == mid + extracted_cases(cs.subrange(0, i as int)),
                    decreases cases@.len() - i,
                {
                    proof {
                        assert(decreases_to!(*t => t->cases));
                        assert(decreases_to!(t->cases => t->cases[i as int]));
                        assert(decreases_to!(t->cases[i as int] => t->cases[i as int].1));
                        let sub = cs.subrange(0, i + 1);
                        assert(sub.subrange(0, i as int) =~= cs.subrange(0, i as int));
                    }
                    self.visit(&cases[i].1);
                    assert(mid + extracted_cases(cs.subrange(0, i + 1)) =~= mid + extracted_cases(cs.subrange(0, i as int)) + extracted(cs[i as int].1));
                    i = i + 1;
                }
                assert(cs.subrange(0, cs.len() as int) =~= cs);
                assert(terms_view(self.terms@) =~= start + extracted(t@));
            },
            Term::Attributes { term, .. } => {
                self.visit(term);
            },
            _ => {
                assert(terms_view(self.terms@) =~= start + extracted(t@));
            },
        }
    }
}

} // verus!
