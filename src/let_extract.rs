//! Inlining of `let` bindings.
use crate::concrete::{QidVal, QualIdentifier, SortVal, Term, TermVal, term_view, strings_view};
use crate::concrete::{copy_attributes, copy_sorted_vars, copy_strings, sorted_vars_view};
use vstd::prelude::*;

verus! {

/// A scope: a stack of names, each bound to a term or, under a binder that
/// rebinds it, to nothing. The latest entry for a name decides.
pub type ScopeVal = Seq<(Seq<char>, Option<TermVal>)>;

/// The latest entry for `name` in the scope, if any.
pub open spec fn scope_entry(scope: ScopeVal, name: Seq<char>) -> Option<Option<TermVal>>
    decreases scope.len(),
{
    if scope.len() == 0 {
        None
    } else if scope.last().0 == name {
        Some(scope.last().1)
    } else {
        scope_entry(scope.drop_last(), name)
    }
}

/// The term that `name` stands for in the scope, if it stands for one.
pub open spec fn bound_value(scope: ScopeVal, name: Seq<char>) -> Option<TermVal> {
    match scope_entry(scope, name) {
        Some(Some(v)) => Some(v),
        _ => None,
    }
}

/// The scope with each of `names` rebound to nothing.
pub open spec fn shadow(scope: ScopeVal, names: Seq<Seq<char>>) -> ScopeVal {
    scope + Seq::new(names.len(), |i: int| (names[i], None::<TermVal>))
}

pub open spec fn var_names(vars: Seq<(Seq<char>, SortVal)>) -> Seq<Seq<char>> {
    Seq::new(vars.len(), |i: int| vars[i].0)
}

/// The scope after the bindings of one `let`, taken in order: each bound term is
/// flattened in the scope that the bindings before it have made.
pub open spec fn let_scope(bs: Seq<(Seq<char>, TermVal)>, scope: ScopeVal) -> ScopeVal
    decreases bs,
{
    if bs.len() == 0 {
        scope
    } else {
        let s = let_scope(bs.subrange(0, bs.len() - 1), scope);
        s.push((bs[bs.len() - 1].0, Some(flatten_term(bs[bs.len() - 1].1, s))))
    }
}

/// The term with every `let` inlined: each identifier (with or without a sort)
/// bound in the scope is replaced by its term, and a binder hides the outer binding of the names it binds.
pub open spec fn flatten_term(t: TermVal, scope: ScopeVal) -> TermVal
    decreases t,
{
    match t {
        TermVal::Constant(_) => t,
        TermVal::Ident(q) => match q {
            QidVal::Simple(n) => match bound_value(scope, n) {
                Some(v) => v,
                None => t,
            },
            QidVal::Sorted(n, _) => match bound_value(scope, n) {
                Some(v) => v,
                None => t,
            },
        },
        TermVal::App(q, args) => TermVal::App(
            q,
            Seq::new(
                args.len(),
                |i: int|
                    if 0 <= i < args.len() {
                        flatten_term(args[i], scope)
                    } else {
                        t
                    },
            ),
        ),
        TermVal::Let(bs, body) => flatten_term(*body, let_scope(bs, scope)),
        TermVal::Forall(vars, body) => TermVal::Forall(
            vars,
            Box::new(flatten_term(*body, shadow(scope, var_names(vars)))),
        ),
        TermVal::Exists(vars, body) => TermVal::Exists(
            vars,
            Box::new(flatten_term(*body, shadow(scope, var_names(vars)))),
        ),
        TermVal::Match(s, cases) => TermVal::Match(
            Box::new(flatten_term(*s, scope)),
            Seq::new(
                cases.len(),
                |i: int|
                    if 0 <= i < cases.len() {
                        (cases[i].0, flatten_term(cases[i].1, shadow(scope, cases[i].0)))
                    } else {
                        (Seq::empty(), t)
                    },
            ),
        ),
        TermVal::Attrs(body, attrs) => TermVal::Attrs(Box::new(flatten_term(*body, scope)), attrs),
    }
}

/// The term with every `let` inlined, starting from an empty scope.
pub open spec fn flatten(t: TermVal) -> TermVal {
    flatten_term(t, Seq::empty())
}

pub open spec fn scope_view(scope: Seq<(String, Option<Term>)>) -> ScopeVal {
    Seq::new(
        scope.len(),
        |i: int|
            (
                scope[i].0@,
                match scope[i].1 {
                    Some(t) => Some(t@),
                    None => None,
                },
            ),
    )
}

proof fn lemma_scope_view_push(s: Seq<(String, Option<Term>)>, x: (String, Option<Term>))
    ensures
        scope_view(s.push(x)) == scope_view(s).push(
            (
                x.0@,
                match x.1 {
                    Some(t) => Some(t@),
                    None => None,
                },
            ),
        ),
{
    assert(scope_view(s.push(x)) =~= scope_view(s).push(
        (
            x.0@,
            match x.1 {
                Some(t) => Some(t@),
                None => None,
            },
        ),
    ));
}

proof fn lemma_let_scope_extend(bs: Seq<(Seq<char>, TermVal)>, scope: ScopeVal, i: int)
    requires
        0 <= i < bs.len(),
    ensures
        let_scope(bs.subrange(0, i + 1), scope) == let_scope(bs.subrange(0, i), scope).push(
            (bs[i].0, Some(flatten_term(bs[i].1, let_scope(bs.subrange(0, i), scope)))),
        ),
{
    let p = bs.subrange(0, i + 1);
    assert(p.subrange(0, p.len() - 1) =~= bs.subrange(0, i));
}

/// The let-flattener: a stack of active bindings, pushed on entering a binder and
/// popped on leaving it.
pub struct LetExtract {
    pub scope: Vec<(String, Option<Term>)>,
}

impl LetExtract {
    /// A flattener with an empty scope.
    pub fn new() -> (r: LetExtract)
        ensures
            r.scope@.len() == 0,
    {
        LetExtract { scope: Vec::new() }
    }

    /// The position of the latest entry for `name`, if there is one.
    fn lookup(&self, name: &String) -> (r: Option<usize>)
        ensures
            match r {
                Some(k) => k < self.scope@.len() && scope_entry(scope_view(self.scope@), name@)
                    == Some(scope_view(self.scope@)[k as int].1),
                None => scope_entry(scope_view(self.scope@), name@) is None,
            },
    {
        let ghost sv = scope_view(self.scope@);
        let mut i: usize = self.scope.len();
        assert(sv.subrange(0, i as int) =~= sv);
        while i > 0
            invariant
                i <= self.scope@.len(),
                sv == scope_view(self.scope@),
                scope_entry(sv, name@) == scope_entry(sv.subrange(0, i as int), name@),
            decreases i,
        {
            let ghost sub = sv.subrange(0, i as int);
            assert(sub.drop_last() =~= sv.subrange(0, i - 1));
            if self.scope[i - 1].0 == *name {
                return Some(i - 1);
            }
            i = i - 1;
        }
        None
    }

    /// Pushes each name, bound to nothing.
    fn push_shadows(&mut self, names: &Vec<String>)
        ensures
            final(self).scope@.subrange(0, old(self).scope@.len() as int) == old(self).scope@,
            final(self).scope@.len() == old(self).scope@.len() + names@.len(),
            scope_view(final(self).scope@) == shadow(scope_view(old(self).scope@), strings_view(names@)),
    {
        let ghost start = scope_view(self.scope@);
        let ghost ns = strings_view(names@);
        let mut i: usize = 0;
        while i < names.len()
            invariant
                i <= names@.len(),
                ns == strings_view(names@),
                self.scope@.len() == old(self).scope@.len() + i,
                self.scope@.subrange(0, old(self).scope@.len() as int) == old(self).scope@,
                scope_view(self.scope@) == shadow(start, ns.subrange(0, i as int)),
                start == scope_view(old(self).scope@),
            decreases names@.len() - i,
        {
            let ghost prev = self.scope@;
            proof {
                lemma_scope_view_push(prev, (names@[i as int], None));
            }
            self.scope.push((names[i].clone(), None));
            assert(self.scope@.subrange(0, old(self).scope@.len() as int) =~= prev.subrange(0, old(self).scope@.len() as int));
            assert(shadow(start, ns.subrange(0, i + 1)) =~= shadow(start, ns.subrange(0, i as int)).push((ns[i as int], None)));
            i = i + 1;
        }
        assert(ns.subrange(0, names@.len() as int) =~= ns);
    }

    /// The term with every `let` inlined, in this flattener's scope, which is left as it was.
    pub fn flatten(&mut self, t: &Term) -> (r: Term)
        ensures
            r@ == flatten_term(t@, scope_view(old(self).scope@)),
            final(self).scope@ == old(self).scope@,
        decreases t,
    {
        proof {
            broadcast use vstd::std_specs::vec::axiom_vec_index_decreases;
        }
        let ghost sv = scope_view(self.scope@);
        match t {
            Term::Constant(c) => Term::Constant(c.copy()),
            Term::QualIdentifier(q) => {
                let identifier = match q {
                    QualIdentifier::Simple { identifier } => identifier,
                    QualIdentifier::Sorted { identifier, .. } => identifier,
                };
                match self.lookup(identifier) {
                    Some(k) => {
                        match &self.scope[k].1 {
                            Some(v) => v.copy(),
                            None => t.copy(),
                        }
                    },
                    None => t.copy(),
                }
            },
            Term::Application { qual_identifier, arguments } => {
                let ghost args = t@->App_1;
                let mut out: Vec<Term> = Vec::new();
                let mut i: usize = 0;
                while i < arguments.len()
                    invariant
                        i <= arguments@.len(),
                        *t == (Term::Application { qual_identifier: *qual_identifier, arguments: *arguments }),
                        args == t@->App_1,
                        self.scope@ == old(self).scope@,
                        sv == scope_view(old(self).scope@),
                        out@.len() == i,
                        forall|j: int| 0 <= j < i ==> term_view(#[trigger] out@[j]) == flatten_term(args[j], sv),
                    decreases arguments@.len() - i,
                {
                    proof {
                        assert(decreases_to!(*t => t->arguments));
                        assert(decreases_to!(t->arguments => t->arguments[i as int]));
                    }
                    let x = self.flatten(&arguments[i]);
                    out.push(x);
                    i = i + 1;
                }
                let r = Term::Application { qual_identifier: qual_identifier.copy(), arguments: out };
                assert(r@->App_1 =~= flatten_term(t@, sv)->App_1);
                r
            },
            Term::Let { var_bindings, term } => {
                let ghost bs = t@->Let_0;
                let n0 = self.scope.len();
                let mut i: usize = 0;
                while i < var_bindings.len()
                    invariant
                        i <= var_bindings@.len(),
                        *t == (Term::Let { var_bindings: *var_bindings, term: *term }),
                        bs == t@->Let_0,
                        n0 == old(self).scope@.len(),
                        sv == scope_view(old(self).scope@),
                        self.scope@.len() == n0 + i,
                        self.scope@.subrange(0, n0 as int) == old(self).scope@,
                        scope_view(self.scope@) == let_scope(bs.subrange(0, i as int), sv),
                    decreases var_bindings@.len() - i,
                {
                    proof {
                        assert(decreases_to!(*t => t->var_bindings));
                        assert(decreases_to!(t->var_bindings => t->var_bindings[i as int]));
                        assert(decreases_to!(t->var_bindings[i as int] => t->var_bindings[i as int].1));
                    }
                    let v = self.flatten(&var_bindings[i].1);
                    let ghost prev = self.scope@;
                    let entry = (var_bindings[i].0.clone(), Some(v));
                    proof {
                        lemma_scope_view_push(prev, entry);
                        lemma_let_scope_extend(bs, sv, i as int);
                    }
                    self.scope.push(entry);
                    assert(self.scope@.subrange(0, n0 as int) =~= prev.subrange(0, n0 as int));
                    i = i + 1;
                }
                assert(bs.subrange(0, var_bindings@.len() as int) =~= bs);
                let r = self.flatten(term);
                self.scope.truncate(n0);
                r
            },
            Term::Forall { vars, term } => {
                let n0 = self.scope.len();
                let names = binder_names(vars);
                self.push_shadows(&names);
                let body = self.flatten(term);
                self.scope.truncate(n0);
                Term::Forall { vars: copy_sorted_vars(vars), term: Box::new(body) }
            },
            Term::Exists { vars, term } => {
                let n0 = self.scope.len();
                let names = binder_names(vars);
                self.push_shadows(&names);
                let body = self.flatten(term);
                self.scope.truncate(n0);
                Term::Exists { vars: copy_sorted_vars(vars), term: Box::new(body) }
            },
            Term::Match { term, cases } => {
                let ghost cs = t@->Match_1;
                let scrutinee = self.flatten(term);
                let mut out: Vec<(Vec<String>, Term)> = Vec::new();
                let mut i: usize = 0;
                while i < cases.len()
                    invariant
                        i <= cases@.len(),
                        *t == (Term::Match { term: *term, cases: *cases }),
                        cs == t@->Match_1,
                        self.scope@ == old(self).scope@,
                        sv == scope_view(old(self).scope@),
                        out@.len() == i,
                        forall|j: int| 0 <= j < i ==> strings_view((#[trigger] out@[j]).0@) == cs[j].0
                            && term_view(out@[j].1) == flatten_term(cs[j].1, shadow(sv, cs[j].0)),
                    decreases cases@.len() - i,
                {
                    proof {
                        assert(decreases_to!(*t => t->cases));
                        assert(decreases_to!(t->cases => t->cases[i as int]));
                        assert(decreases_to!(t->cases[i as int] => t->cases[i as int].1));
                    }
                    let n0 = self.scope.len();
                    self.push_shadows(&cases[i].0);
                    let body = self.flatten(&cases[i].1);
                    self.scope.truncate(n0);
                    out.push((copy_strings(&cases[i].0), body));
                    i = i + 1;
                }
                let r = Term::Match { term: Box::new(scrutinee), cases: out };
                assert(r@->Match_1 =~= flatten_term(t@, sv)->Match_1);
                r
            },
            Term::Attributes { term, attributes } => {
                let body = self.flatten(term);
                Term::Attributes { term: Box::new(body), attributes: copy_attributes(attributes) }
            },
        }
    }
}

/// The names bound by a list of sorted variables.
fn binder_names(vars: &Vec<(String, crate::concrete::Sort)>) -> (r: Vec<String>)
    ensures
        strings_view(r@) == var_names(sorted_vars_view(vars@)),
{
    let mut out: Vec<String> = Vec::new();
    let mut i: usize = 0;
    while i < vars.len()
        invariant
            i <= vars@.len(),
            out@.len() == i,
            forall|j: int| 0 <= j < i ==> (#[trigger] out@[j])@ == vars@[j].0@,
        decreases vars@.len() - i,
    {
        out.push(vars[i].0.clone());
        i = i + 1;
    }
    assert(strings_view(out@) =~= var_names(sorted_vars_view(vars@)));
    out
}

/// The term with every `let` inlined.
pub fn flatten_lets(t: &Term) -> (r: Term)
    ensures
        r@ == flatten(t@),
{
    let mut le = LetExtract::new();
    proof {
        assert(scope_view(le.scope@) =~= Seq::empty());
    }
    le.flatten(t)
}

/// The term holds no `let`.
pub open spec fn let_free(t: TermVal) -> bool
    decreases t,
{
    match t {
        TermVal::Constant(_) => true,
        TermVal::Ident(_) => true,
        TermVal::App(_, args) => all_let_free(args),
        TermVal::Let(_, _) => false,
        TermVal::Forall(_, body) => let_free(*body),
        TermVal::Exists(_, body) => let_free(*body),
        TermVal::Match(s, cases) => let_free(*s) && cases_let_free(cases),
        TermVal::Attrs(body, _) => let_free(*body),
    }
}

pub open spec fn all_let_free(s: Seq<TermVal>) -> bool
    decreases s,
{
    if s.len() == 0 {
        true
    } else {
        all_let_free(s.subrange(0, s.len() - 1)) && let_free(s[s.len() - 1])
    }
}

pub open spec fn cases_let_free(s: Seq<(Seq<Seq<char>>, TermVal)>) -> bool
    decreases s,
{
    if s.len() == 0 {
        true
    } else {
        cases_let_free(s.subrange(0, s.len() - 1)) && let_free(s[s.len() - 1].1)
    }
}

pub proof fn lemma_all_let_free_seq(s: Seq<TermVal>)
    ensures
        all_let_free(s) <==> forall|i: int| 0 <= i < s.len() ==> let_free(#[trigger] s[i]),
    decreases s.len(),
{
    if s.len() > 0 {
        let p = s.subrange(0, s.len() - 1);
        lemma_all_let_free_seq(p);
        if forall|i: int| 0 <= i < s.len() ==> let_free(#[trigger] s[i]) {
            assert forall|i: int| 0 <= i < p.len() implies let_free(#[trigger] p[i]) by {
                assert(p[i] == s[i]);
            }
        }
        if all_let_free(s) {
            assert forall|i: int| 0 <= i < s.len() implies let_free(#[trigger] s[i]) by {
                if i < p.len() {
                    assert(p[i] == s[i]);
                }
            }
        }
    }
}

proof fn lemma_cases_let_free(s: Seq<(Seq<Seq<char>>, TermVal)>)
    ensures
        cases_let_free(s) <==> forall|i: int| 0 <= i < s.len() ==> let_free(#[trigger] s[i].1),
    decreases s.len(),
{
    if s.len() > 0 {
        let p = s.subrange(0, s.len() - 1);
        lemma_cases_let_free(p);
        if forall|i: int| 0 <= i < s.len() ==> let_free(#[trigger] s[i].1) {
            assert forall|i: int| 0 <= i < p.len() implies let_free(#[trigger] p[i].1) by {
                assert(p[i] == s[i]);
            }
        }
        if cases_let_free(s) {
            assert forall|i: int| 0 <= i < s.len() implies let_free(#[trigger] s[i].1) by {
                if i < p.len() {
                    assert(p[i] == s[i]);
                }
            }
        }
    }
}

pub open spec fn values_let_free(scope: ScopeVal) -> bool {
    forall|i: int| 0 <= i < scope.len() && (#[trigger] scope[i]).1 is Some ==> let_free(scope[i].1->0)
}

pub open spec fn all_unbound(scope: ScopeVal) -> bool {
    forall|i: int| 0 <= i < scope.len() ==> (#[trigger] scope[i]).1 is None
}

proof fn lemma_entry_in_scope(scope: ScopeVal, name: Seq<char>)
    ensures
        scope_entry(scope, name) is Some ==> exists|i: int|
            0 <= i < scope.len() && (#[trigger] scope[i]).1 == scope_entry(scope, name)->0,
    decreases scope.len(),
{
    if scope.len() > 0 && scope.last().0 != name {
        lemma_entry_in_scope(scope.drop_last(), name);
        if scope_entry(scope, name) is Some {
            let i = choose|i: int|
                0 <= i < scope.drop_last().len() && (#[trigger] scope.drop_last()[i]).1 == scope_entry(
                    scope.drop_last(),
                    name,
                )->0;
            assert(scope[i] == scope.drop_last()[i]);
        }
    } else if scope.len() > 0 {
        assert(scope[scope.len() - 1] == scope.last());
    }
}

proof fn lemma_let_scope_let_free(bs: Seq<(Seq<char>, TermVal)>, scope: ScopeVal)
    requires
        values_let_free(scope),
    ensures
        values_let_free(let_scope(bs, scope)),
    decreases bs,
{
    if bs.len() > 0 {
        let s = let_scope(bs.subrange(0, bs.len() - 1), scope);
        lemma_let_scope_let_free(bs.subrange(0, bs.len() - 1), scope);
        lemma_flatten_let_free(bs[bs.len() - 1].1, s);
        let n = s.push((bs[bs.len() - 1].0, Some(flatten_term(bs[bs.len() - 1].1, s))));
        assert forall|i: int| 0 <= i < n.len() && (#[trigger] n[i]).1 is Some implies let_free(n[i].1->0) by {
            if i < s.len() {
                assert(n[i] == s[i]);
            }
        }
    }
}

proof fn lemma_shadow_let_free(scope: ScopeVal, names: Seq<Seq<char>>)
    requires
        values_let_free(scope),
    ensures
        values_let_free(shadow(scope, names)),
{
    let n = shadow(scope, names);
    assert forall|i: int| 0 <= i < n.len() && (#[trigger] n[i]).1 is Some implies let_free(n[i].1->0) by {
        if i < scope.len() {
            assert(n[i] == scope[i]);
        }
    }
}

/// Flattening in a scope whose terms hold no `let` leaves no `let`.
pub proof fn lemma_flatten_let_free(t: TermVal, scope: ScopeVal)
    requires
        values_let_free(scope),
    ensures
        let_free(flatten_term(t, scope)),
    decreases t,
{
    match t {
        TermVal::Constant(_) => {},
        TermVal::Ident(q) => {
            match q {
                QidVal::Simple(n) => lemma_entry_in_scope(scope, n),
                QidVal::Sorted(n, _) => lemma_entry_in_scope(scope, n),
            }
        },
        TermVal::App(q, args) => {
            let r = flatten_term(t, scope);
            assert forall|i: int| 0 <= i < args.len() implies let_free(#[trigger] r->App_1[i]) by {
                lemma_flatten_let_free(args[i], scope);
            }
            lemma_all_let_free_seq(r->App_1);
        },
        TermVal::Let(bs, body) => {
            lemma_let_scope_let_free(bs, scope);
            lemma_flatten_let_free(*body, let_scope(bs, scope));
        },
        TermVal::Forall(vars, body) => {
            lemma_shadow_let_free(scope, var_names(vars));
            lemma_flatten_let_free(*body, shadow(scope, var_names(vars)));
        },
        TermVal::Exists(vars, body) => {
            lemma_shadow_let_free(scope, var_names(vars));
            lemma_flatten_let_free(*body, shadow(scope, var_names(vars)));
        },
        TermVal::Match(sc, cases) => {
            lemma_flatten_let_free(*sc, scope);
            let r = flatten_term(t, scope);
            assert forall|i: int| 0 <= i < cases.len() implies let_free(#[trigger] r->Match_1[i].1) by {
                lemma_shadow_let_free(scope, cases[i].0);
                lemma_flatten_let_free(cases[i].1, shadow(scope, cases[i].0));
            }
            lemma_cases_let_free(r->Match_1);
        },
        TermVal::Attrs(body, _) => {
            lemma_flatten_let_free(*body, scope);
        },
    }
}

proof fn lemma_unbound_entry(scope: ScopeVal, name: Seq<char>)
    requires
        all_unbound(scope),
    ensures
        bound_value(scope, name) is None,
{
    lemma_entry_in_scope(scope, name);
}

/// In a scope that binds no name to a term, flattening leaves a term without
/// `let` as it is.
pub proof fn lemma_flatten_identity(t: TermVal, scope: ScopeVal)
    requires
        all_unbound(scope),
        let_free(t),
    ensures
        flatten_term(t, scope) == t,
    decreases t,
{
    match t {
        TermVal::Constant(_) => {},
        TermVal::Ident(q) => {
            match q {
                QidVal::Simple(n) => lemma_unbound_entry(scope, n),
                QidVal::Sorted(n, _) => lemma_unbound_entry(scope, n),
            }
        },
        TermVal::App(q, args) => {
            let r = flatten_term(t, scope);
            lemma_all_let_free_seq(args);
            assert forall|i: int| 0 <= i < args.len() implies #[trigger] r->App_1[i] == args[i] by {
                assert(let_free(args[i]));
                lemma_flatten_identity(args[i], scope);
            }
            assert(r->App_1 =~= args);
        },
        TermVal::Let(_, _) => {},
        TermVal::Forall(vars, body) => {
            lemma_flatten_identity(*body, shadow(scope, var_names(vars)));
        },
        TermVal::Exists(vars, body) => {
            lemma_flatten_identity(*body, shadow(scope, var_names(vars)));
        },
        TermVal::Match(sc, cases) => {
            lemma_flatten_identity(*sc, scope);
            let r = flatten_term(t, scope);
            lemma_cases_let_free(cases);
            assert forall|i: int| 0 <= i < cases.len() implies #[trigger] r->Match_1[i] == cases[i] by {
                assert(let_free(cases[i].1));
                lemma_flatten_identity(cases[i].1, shadow(scope, cases[i].0));
            }
            assert(r->Match_1 =~= cases);
        },
        TermVal::Attrs(body, _) => {
            lemma_flatten_identity(*body, scope);
        },
    }
}

/// Flattening is idempotent: flattening a flattened term changes nothing.
pub proof fn lemma_flatten_idempotent(t: TermVal)
    ensures
        flatten(flatten(t)) == flatten(t),
{
    let e: ScopeVal = Seq::empty();
    lemma_flatten_let_free(t, e);
    lemma_flatten_identity(flatten(t), e);
}

} // verus!
