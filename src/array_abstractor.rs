//! Replaces the theory of arrays by uninterpreted sorts and functions.
use crate::concrete::{
    Command, CommandVal, FunctionDec, QidVal, QualIdentifier, Sort, SortVal, Term, TermVal,
    copy_attributes, copy_strings, sorted_vars_view, sorts_view, strings_view, term_view,
};
use crate::props::{everywhere, lemma_all_everywhere, lemma_bindings_everywhere, lemma_cases_everywhere};
use crate::rewriter::{SymbolMap, renamed, renamed_qid, renamed_vars};
use vstd::prelude::*;

verus! {

/// The sort that stands for `(Array Int Int)`.
pub open spec fn array_sort_name() -> Seq<char> {
    "Array-Int-Int"@
}

/// A sort with every `Array` sort replaced by the uninterpreted array sort.
pub open spec fn abstract_sort(s: SortVal) -> SortVal
    decreases s,
{
    match s {
        SortVal::Simple(_) => s,
        SortVal::Param(id, ps) => if id == "Array"@ {
            SortVal::Simple(array_sort_name())
        } else {
            SortVal::Param(
                id,
                Seq::new(
                    ps.len(),
                    |i: int|
                        if 0 <= i < ps.len() {
                            abstract_sort(ps[i])
                        } else {
                            s
                        },
                ),
            )
        },
    }
}

/// The array operators become the uninterpreted functions that stand for them.
pub open spec fn abstract_qid(q: QidVal) -> QidVal {
    match q {
        QidVal::Simple(n) => if n == "select"@ {
            QidVal::Simple("Read-Int-Int"@)
        } else if n == "store"@ {
            QidVal::Simple("Write-Int-Int"@)
        } else {
            q
        },
        QidVal::Sorted(n, s) => if n == "const"@ {
            QidVal::Simple("ConstArr-Int-Int"@)
        } else {
            QidVal::Sorted(n, abstract_sort(s))
        },
    }
}

pub open spec fn abstract_vars(vars: Seq<(Seq<char>, SortVal)>) -> Seq<(Seq<char>, SortVal)> {
    Seq::new(vars.len(), |i: int| (vars[i].0, abstract_sort(vars[i].1)))
}

/// A term over the uninterpreted array signature.
pub open spec fn abstract_term(t: TermVal) -> TermVal
    decreases t,
{
    match t {
        TermVal::Constant(_) => t,
        TermVal::Ident(q) => TermVal::Ident(abstract_qid(q)),
        TermVal::App(q, args) => TermVal::App(
            abstract_qid(q),
            Seq::new(
                args.len(),
                |i: int|
                    if 0 <= i < args.len() {
                        abstract_term(args[i])
                    } else {
                        t
                    },
            ),
        ),
        TermVal::Let(bs, body) => TermVal::Let(
            Seq::new(
                bs.len(),
                |i: int|
                    if 0 <= i < bs.len() {
                        (bs[i].0, abstract_term(bs[i].1))
                    } else {
                        (Seq::empty(), t)
                    },
            ),
            Box::new(abstract_term(*body)),
        ),
        TermVal::Forall(vars, body) => TermVal::Forall(abstract_vars(vars), Box::new(abstract_term(*body))),
        TermVal::Exists(vars, body) => TermVal::Exists(abstract_vars(vars), Box::new(abstract_term(*body))),
        TermVal::Match(s, cases) => TermVal::Match(
            Box::new(abstract_term(*s)),
            Seq::new(
                cases.len(),
                |i: int|
                    if 0 <= i < cases.len() {
                        (cases[i].0, abstract_term(cases[i].1))
                    } else {
                        (Seq::empty(), t)
                    },
            ),
        ),
        TermVal::Attrs(body, attrs) => TermVal::Attrs(Box::new(abstract_term(*body)), attrs),
    }
}

pub open spec fn abstract_command(c: CommandVal) -> CommandVal {
    match c {
        CommandVal::Assert(t) => CommandVal::Assert(abstract_term(t)),
        CommandVal::DeclareFun(s, ps, r) => CommandVal::DeclareFun(
            s,
            Seq::new(ps.len(), |i: int| abstract_sort(ps[i])),
            abstract_sort(r),
        ),
        CommandVal::DeclareSort(s, a) => c,
        CommandVal::DefineFun(n, ps, r, body) => CommandVal::DefineFun(
            n,
            abstract_vars(ps),
            abstract_sort(r),
            abstract_term(body),
        ),
    }
}

/// Rewrites commands to use uninterpreted functions instead of arrays. Only
/// arrays from `Int` to `Int` are emitted; `array_types` lists the index and
/// value sorts whose declarations are made.
pub struct ArrayAbstractor {
    pub array_types: Vec<(String, String)>,
}

fn text(s: &str) -> (r: String)
    ensures
        r@ == s@,
{
    String::from_str(s)
}

fn joined3(a: &str, b: &String, c: &String) -> (r: String)
    ensures
        r@ == a@ + b@ + "-"@ + c@,
{
    let mut r = String::from_str(a);
    r.append(b.as_str());
    r.append("-");
    r.append(c.as_str());
    r
}

fn simple_sort(s: &String) -> (r: Sort)
    ensures
        r@ == SortVal::Simple(s@),
{
    Sort::Simple { identifier: s.clone() }
}

/// The declarations that stand for the arrays of one index and value sort, in order:
/// the sort, then `ConstArr`, `Read` and `Write`.
pub open spec fn array_type_definitions(index: Seq<char>, value: Seq<char>) -> Seq<CommandVal> {
    let arr = SortVal::Simple("Array-"@ + index + "-"@ + value);
    let idx = SortVal::Simple(index);
    let val = SortVal::Simple(value);
    seq![
        CommandVal::DeclareSort("Array-"@ + index + "-"@ + value, "0"@),
        CommandVal::DeclareFun("ConstArr-"@ + index + "-"@ + value, seq![val], arr),
        CommandVal::DeclareFun("Read-"@ + index + "-"@ + value, seq![arr, idx], val),
        CommandVal::DeclareFun("Write-"@ + index + "-"@ + value, seq![arr, idx, val], arr),
    ]
}

pub open spec fn commands_view(v: Seq<Command>) -> Seq<CommandVal> {
    Seq::new(v.len(), |i: int| v[i]@)
}

impl ArrayAbstractor {
    /// The abstractor for arrays from `Int` to `Int`.
    pub fn new() -> (r: ArrayAbstractor)
        ensures
            r.array_types@.len() == 1,
            r.array_types@[0].0@ == "Int"@,
            r.array_types@[0].1@ == "Int"@,
    {
        let mut array_types: Vec<(String, String)> = Vec::new();
        array_types.push((text("Int"), text("Int")));
        ArrayAbstractor { array_types }
    }

    /// The declarations of the uninterpreted sorts and functions, four for each pair
    /// of `array_types`, in its order.
    pub fn get_array_type_definitions(&self) -> (r: Vec<Command>)
        ensures
            r@.len() == 4 * self.array_types@.len(),
            forall|k: int, j: int| 0 <= k < self.array_types@.len() && 0 <= j < 4 ==>
                #[trigger] r@[4 * k + j]@ == array_type_definitions(self.array_types@[k].0@, self.array_types@[k].1@)[j],
    {
        let mut commands: Vec<Command> = Vec::new();
        let mut k: usize = 0;
        while k < self.array_types.len()
            invariant
                k <= self.array_types@.len(),
                commands@.len() == 4 * k,
                forall|m: int, j: int| 0 <= m < k && 0 <= j < 4 ==>
                    #[trigger] commands@[4 * m + j]@ == array_type_definitions(self.array_types@[m].0@, self.array_types@[m].1@)[j],
            decreases self.array_types@.len() - k,
        {
            let index = &self.array_types[k].0;
            let value = &self.array_types[k].1;
            let ghost defs = array_type_definitions(index@, value@);
            let arr_name = joined3("Array-", index, value);
            let sort_definition = Command::DeclareSort { symbol: arr_name.clone(), arity: text("0") };
            let mut cps: Vec<Sort> = Vec::new();
            cps.push(simple_sort(value));
            let constarr_definition = Command::DeclareFun {
                symbol: joined3("ConstArr-", index, value),
                parameters: cps,
                sort: simple_sort(&arr_name),
            };
            let mut rps: Vec<Sort> = Vec::new();
            rps.push(simple_sort(&arr_name));
            rps.push(simple_sort(index));
            let read_definition = Command::DeclareFun {
                symbol: joined3("Read-", index, value),
                parameters: rps,
                sort: simple_sort(value),
            };
            let mut wps: Vec<Sort> = Vec::new();
            wps.push(simple_sort(&arr_name));
            wps.push(simple_sort(index));
            wps.push(simple_sort(value));
            let write_definition = Command::DeclareFun {
                symbol: joined3("Write-", index, value),
                parameters: wps,
                sort: simple_sort(&arr_name),
            };
            proof {
                assert(sort_definition@ == defs[0]);
                assert(sorts_view(cps@) =~= seq![SortVal::Simple(value@)]);
                assert(constarr_definition@ == defs[1]);
                assert(sorts_view(rps@) =~= seq![SortVal::Simple(arr_name@), SortVal::Simple(index@)]);
                assert(read_definition@ == defs[2]);
                assert(sorts_view(wps@) =~= seq![SortVal::Simple(arr_name@), SortVal::Simple(index@), SortVal::Simple(value@)]);
                assert(write_definition@ == defs[3]);
            }
            let ghost before = commands@;
            commands.push(sort_definition);
            commands.push(constarr_definition);
            commands.push(read_definition);
            commands.push(write_definition);
            assert forall|m: int, j: int| 0 <= m < k + 1 && 0 <= j < 4 implies
                #[trigger] commands@[4 * m + j]@ == array_type_definitions(self.array_types@[m].0@, self.array_types@[m].1@)[j] by {
                if m < k {
                    assert(commands@[4 * m + j] == before[4 * m + j]);
                }
            }
            k = k + 1;
        }
        commands
    }
}

fn is_text(s: &String, lit: &str) -> (r: bool)
    ensures
        r == (s@ == lit@),
{
    let t = String::from_str(lit);
    *s == t
}

fn rewrite_sort(s: &Sort) -> (r: Sort)
    ensures
        r@ == abstract_sort(s@),
    decreases s,
{
    match s {
        Sort::Simple { .. } => s.copy(),
        Sort::Parameterized { identifier, parameters } => {
            if is_text(identifier, "Array") {
                Sort::Simple { identifier: text("Array-Int-Int") }
            } else {
                let ghost ps = s@->Param_1;
                let mut out: Vec<Sort> = Vec::new();
                let mut i: usize = 0;
                while i < parameters.len()
                    invariant
                        i <= parameters@.len(),
                        *s == (Sort::Parameterized { identifier: *identifier, parameters: *parameters }),
                        ps == s@->Param_1,
                        out@.len() == i,
                        forall|j: int| 0 <= j < i ==> (#[trigger] out@[j])@ == abstract_sort(ps[j]),
                    decreases parameters@.len() - i,
                {
                    proof {
                        broadcast use vstd::std_specs::vec::axiom_vec_index_decreases;

                        assert(decreases_to!(*s => s->parameters));
                        assert(decreases_to!(s->parameters => s->parameters[i as int]));
                    }
                    out.push(rewrite_sort(&parameters[i]));
                    i = i + 1;
                }
                let r = Sort::Parameterized { identifier: identifier.clone(), parameters: out };
                assert(r@->Param_1 =~= abstract_sort(s@)->Param_1);
                r
            }
        },
    }
}

/// The simple identifier `name`.
pub fn simple_identifier_with_name(name: &str) -> (r: QualIdentifier)
    ensures
        r@ == QidVal::Simple(name@),
{
    QualIdentifier::Simple { identifier: text(name) }
}

fn rewrite_qid(q: &QualIdentifier) -> (r: QualIdentifier)
    ensures
        r@ == abstract_qid(q@),
{
    match q {
        QualIdentifier::Simple { identifier } => {
            if is_text(identifier, "select") {
                simple_identifier_with_name("Read-Int-Int")
            } else if is_text(identifier, "store") {
                simple_identifier_with_name("Write-Int-Int")
            } else {
                q.copy()
            }
        },
        QualIdentifier::Sorted { identifier, sort } => {
            if is_text(identifier, "const") {
                simple_identifier_with_name("ConstArr-Int-Int")
            } else {
                QualIdentifier::Sorted { identifier: identifier.clone(), sort: rewrite_sort(sort) }
            }
        },
    }
}

fn rewrite_vars(vars: &Vec<(String, Sort)>) -> (r: Vec<(String, Sort)>)
    ensures
        sorted_vars_view(r@) == abstract_vars(sorted_vars_view(vars@)),
{
    let mut out: Vec<(String, Sort)> = Vec::new();
    let mut i: usize = 0;
    while i < vars.len()
        invariant
            i <= vars@.len(),
            out@.len() == i,
            forall|j: int| 0 <= j < i ==> (#[trigger] out@[j]).0@ == vars@[j].0@ && out@[j].1@
                == abstract_sort(vars@[j].1@),
        decreases vars@.len() - i,
    {
        out.push((vars[i].0.clone(), rewrite_sort(&vars[i].1)));
        i = i + 1;
    }
    assert(sorted_vars_view(out@) =~= abstract_vars(sorted_vars_view(vars@)));
    out
}

impl ArrayAbstractor {
    /// The term over the uninterpreted array signature.
    pub fn abstract_term(&self, t: &Term) -> (out: Term)
        ensures
            out@ == abstract_term(t@),
        decreases t,
    {
        proof {
            broadcast use vstd::std_specs::vec::axiom_vec_index_decreases;
        }
        match t {
            Term::Constant(c) => Term::Constant(c.copy()),
            Term::QualIdentifier(q) => Term::QualIdentifier(rewrite_qid(q)),
            Term::Application { qual_identifier, arguments } => {
                let ghost args = t@->App_1;
                let mut out: Vec<Term> = Vec::new();
                let mut i: usize = 0;
                while i < arguments.len()
                    invariant
                        i <= arguments@.len(),
                        *t == (Term::Application { qual_identifier: *qual_identifier, arguments: *arguments }),
                        args == t@->App_1,
                        out@.len() == i,
                        forall|j: int| 0 <= j < i ==> term_view(#[trigger] out@[j]) == abstract_term(args[j]),
                    decreases arguments@.len() - i,
                {
                    proof {
                        assert(decreases_to!(*t => t->arguments));
                        assert(decreases_to!(t->arguments => t->arguments[i as int]));
                    }
                    out.push(self.abstract_term(&arguments[i]));
                    i = i + 1;
                }
                let res = Term::Application { qual_identifier: rewrite_qid(qual_identifier), arguments: out };
                assert(res@->App_1 =~= abstract_term(t@)->App_1);
                res
            },
            Term::Let { var_bindings, term } => {
                let ghost bs = t@->Let_0;
                let mut out: Vec<(String, Term)> = Vec::new();
                let mut i: usize = 0;
                while i < var_bindings.len()
                    invariant
                        i <= var_bindings@.len(),
                        *t == (Term::Let { var_bindings: *var_bindings, term: *term }),
                        bs == t@->Let_0,
                        out@.len() == i,
                        forall|j: int| 0 <= j < i ==> (#[trigger] out@[j]).0@ == bs[j].0
                            && term_view(out@[j].1) == abstract_term(bs[j].1),
                    decreases var_bindings@.len() - i,
                {
                    proof {
                        assert(decreases_to!(*t => t->var_bindings));
                        assert(decreases_to!(t->var_bindings => t->var_bindings[i as int]));
                        assert(decreases_to!(t->var_bindings[i as int] => t->var_bindings[i as int].1));
                    }
                    let v = self.abstract_term(&var_bindings[i].1);
                    out.push((var_bindings[i].0.clone(), v));
                    i = i + 1;
                }
                let body = self.abstract_term(term);
                let res = Term::Let { var_bindings: out, term: Box::new(body) };
                assert(res@->Let_0 =~= abstract_term(t@)->Let_0);
                res
            },
            Term::Forall { vars, term } => {
                let body = self.abstract_term(term);
                Term::Forall { vars: rewrite_vars(vars), term: Box::new(body) }
            },
            Term::Exists { vars, term } => {
                let body = self.abstract_term(term);
                Term::Exists { vars: rewrite_vars(vars), term: Box::new(body) }
            },
            Term::Match { term, cases } => {
                let ghost cs = t@->Match_1;
                let scrutinee = self.abstract_term(term);
                let mut out: Vec<(Vec<String>, Term)> = Vec::new();
                let mut i: usize = 0;
                while i < cases.len()
                    invariant
                        i <= cases@.len(),
                        *t == (Term::Match { term: *term, cases: *cases }),
                        cs == t@->Match_1,
                        out@.len() == i,
                        forall|j: int| 0 <= j < i ==> strings_view((#[trigger] out@[j]).0@) == cs[j].0
                            && term_view(out@[j].1) == abstract_term(cs[j].1),
                    decreases cases@.len() - i,
                {
                    proof {
                        assert(decreases_to!(*t => t->cases));
                        assert(decreases_to!(t->cases => t->cases[i as int]));
                        assert(decreases_to!(t->cases[i as int] => t->cases[i as int].1));
                    }
                    let body = self.abstract_term(&cases[i].1);
                    out.push((copy_strings(&cases[i].0), body));
                    i = i + 1;
                }
                let res = Term::Match { term: Box::new(scrutinee), cases: out };
                assert(res@->Match_1 =~= abstract_term(t@)->Match_1);
                res
            },
            Term::Attributes { term, attributes } => {
                let body = self.abstract_term(term);
                Term::Attributes { term: Box::new(body), attributes: copy_attributes(attributes) }
            },
        }
    }

    /// The command over the uninterpreted array signature.
    pub fn abstract_command(&self, c: &Command) -> (r: Command)
        ensures
            r@ == abstract_command(c@),
    {
        match c {
            Command::Assert { term } => Command::Assert { term: self.abstract_term(term) },
            Command::DeclareFun { symbol, parameters, sort } => {
                let mut out: Vec<Sort> = Vec::new();
                let mut i: usize = 0;
                while i < parameters.len()
                    invariant
                        i <= parameters@.len(),
                        out@.len() == i,
                        forall|j: int| 0 <= j < i ==> (#[trigger] out@[j])@ == abstract_sort(parameters@[j]@),
                    decreases parameters@.len() - i,
                {
                    out.push(rewrite_sort(&parameters[i]));
                    i = i + 1;
                }
                let r = Command::DeclareFun { symbol: symbol.clone(), parameters: out, sort: rewrite_sort(sort) };
                assert(sorts_view(out@) =~= abstract_command(c@)->DeclareFun_1);
                r
            },
            Command::DeclareSort { .. } => c.copy(),
            Command::DefineFun { sig, term } => Command::DefineFun {
                sig: FunctionDec {
                    name: sig.name.clone(),
                    parameters: rewrite_vars(&sig.parameters),
                    result: rewrite_sort(&sig.result),
                },
                term: self.abstract_term(term),
            },
        }
    }
}

/// No sort in it is an `Array` sort.
pub open spec fn sort_array_free(s: SortVal) -> bool
    decreases s,
{
    match s {
        SortVal::Simple(_) => true,
        SortVal::Param(id, ps) => id != "Array"@ && sorts_array_free(ps),
    }
}

pub open spec fn sorts_array_free(ps: Seq<SortVal>) -> bool
    decreases ps,
{
    if ps.len() == 0 {
        true
    } else {
        sorts_array_free(ps.subrange(0, ps.len() - 1)) && sort_array_free(ps[ps.len() - 1])
    }
}

proof fn lemma_sorts_array_free(ps: Seq<SortVal>)
    ensures
        sorts_array_free(ps) <==> forall|i: int| 0 <= i < ps.len() ==> sort_array_free(#[trigger] ps[i]),
    decreases ps.len(),
{
    if ps.len() > 0 {
        let q = ps.subrange(0, ps.len() - 1);
        lemma_sorts_array_free(q);
        if forall|i: int| 0 <= i < ps.len() ==> sort_array_free(#[trigger] ps[i]) {
            assert forall|i: int| 0 <= i < q.len() implies sort_array_free(#[trigger] q[i]) by {
                assert(q[i] == ps[i]);
            }
        }
        if sorts_array_free(ps) {
            assert forall|i: int| 0 <= i < ps.len() implies sort_array_free(#[trigger] ps[i]) by {
                if i < q.len() {
                    assert(q[i] == ps[i]);
                }
            }
        }
    }
}

/// The identifier is none of the array operators.
pub open spec fn qid_array_free(q: QidVal) -> bool {
    match q {
        QidVal::Simple(n) => n != "select"@ && n != "store"@,
        QidVal::Sorted(n, s) => n != "const"@ && sort_array_free(s),
    }
}

/// No array operator or `Array` sort occurs at this node.
pub open spec fn node_array_free(n: TermVal) -> bool {
    match n {
        TermVal::Ident(q) => qid_array_free(q),
        TermVal::App(q, _) => qid_array_free(q),
        TermVal::Forall(vs, _) => forall|i: int| 0 <= i < vs.len() ==> sort_array_free(#[trigger] vs[i].1),
        TermVal::Exists(vs, _) => forall|i: int| 0 <= i < vs.len() ==> sort_array_free(#[trigger] vs[i].1),
        _ => true,
    }
}

pub open spec fn array_free_pred() -> spec_fn(TermVal) -> bool {
    |n: TermVal| node_array_free(n)
}

/// No array operator or `Array` sort occurs in the command.
pub open spec fn command_array_free(c: CommandVal) -> bool {
    match c {
        CommandVal::Assert(t) => everywhere(t, array_free_pred()),
        CommandVal::DeclareFun(_, ps, r) => (forall|i: int| 0 <= i < ps.len() ==> sort_array_free(#[trigger] ps[i]))
            && sort_array_free(r),
        CommandVal::DeclareSort(_, _) => true,
        CommandVal::DefineFun(_, ps, r, body) => (forall|i: int| 0 <= i < ps.len() ==> sort_array_free(#[trigger] ps[i].1))
            && sort_array_free(r) && everywhere(body, array_free_pred()),
    }
}

proof fn lemma_abstract_sort_free(s: SortVal)
    ensures
        sort_array_free(abstract_sort(s)),
    decreases s,
{
    match s {
        SortVal::Simple(_) => {},
        SortVal::Param(id, ps) => {
            if id != "Array"@ {
                let m = abstract_sort(s)->Param_1;
                assert forall|i: int| 0 <= i < m.len() implies sort_array_free(#[trigger] m[i]) by {
                    lemma_abstract_sort_free(ps[i]);
                }
                lemma_sorts_array_free(m);
            }
        },
    }
}

proof fn lemma_abstract_qid_free(q: QidVal)
    ensures
        qid_array_free(abstract_qid(q)),
{
    reveal_strlit("select");
    reveal_strlit("store");
    reveal_strlit("const");
    reveal_strlit("Read-Int-Int");
    reveal_strlit("Write-Int-Int");
    reveal_strlit("ConstArr-Int-Int");
    assert("Read-Int-Int"@.len() != "select"@.len() && "Read-Int-Int"@.len() != "store"@.len());
    assert("Write-Int-Int"@.len() != "select"@.len() && "Write-Int-Int"@.len() != "store"@.len());
    assert("ConstArr-Int-Int"@.len() != "select"@.len() && "ConstArr-Int-Int"@.len() != "store"@.len());
    if let QidVal::Sorted(n, s) = q {
        lemma_abstract_sort_free(s);
    }
}

proof fn lemma_abstract_term_free(t: TermVal)
    ensures
        everywhere(abstract_term(t), array_free_pred()),
    decreases t,
{
    let p = array_free_pred();
    let r = abstract_term(t);
    match t {
        TermVal::Constant(_) => {},
        TermVal::Ident(q) => {
            lemma_abstract_qid_free(q);
        },
        TermVal::App(q, args) => {
            lemma_abstract_qid_free(q);
            assert forall|i: int| 0 <= i < r->App_1.len() implies everywhere(#[trigger] r->App_1[i], p) by {
                lemma_abstract_term_free(args[i]);
            }
            lemma_all_everywhere(r->App_1, p);
        },
        TermVal::Let(bs, body) => {
            assert forall|i: int| 0 <= i < r->Let_0.len() implies everywhere(#[trigger] r->Let_0[i].1, p) by {
                lemma_abstract_term_free(bs[i].1);
            }
            lemma_bindings_everywhere(r->Let_0, p);
            lemma_abstract_term_free(*body);
        },
        TermVal::Forall(vars, body) => {
            assert forall|i: int| 0 <= i < r->Forall_0.len() implies sort_array_free(#[trigger] r->Forall_0[i].1) by {
                lemma_abstract_sort_free(vars[i].1);
            }
            lemma_abstract_term_free(*body);
        },
        TermVal::Exists(vars, body) => {
            assert forall|i: int| 0 <= i < r->Exists_0.len() implies sort_array_free(#[trigger] r->Exists_0[i].1) by {
                lemma_abstract_sort_free(vars[i].1);
            }
            lemma_abstract_term_free(*body);
        },
        TermVal::Match(sc, cases) => {
            assert forall|i: int| 0 <= i < r->Match_1.len() implies everywhere(#[trigger] r->Match_1[i].1, p) by {
                lemma_abstract_term_free(cases[i].1);
            }
            lemma_cases_everywhere(r->Match_1, p);
            lemma_abstract_term_free(*sc);
        },
        TermVal::Attrs(body, _) => {
            lemma_abstract_term_free(*body);
        },
    }
}

/// After abstraction no `Array` sort and no `select`, `store` or `const` occurs in a command.
pub proof fn lemma_abstract_command_free(c: CommandVal)
    ensures
        command_array_free(abstract_command(c)),
{
    match c {
        CommandVal::Assert(t) => {
            lemma_abstract_term_free(t);
        },
        CommandVal::DeclareFun(s, ps, r) => {
            let m = abstract_command(c)->DeclareFun_1;
            assert forall|i: int| 0 <= i < m.len() implies sort_array_free(#[trigger] m[i]) by {
                lemma_abstract_sort_free(ps[i]);
            }
            lemma_abstract_sort_free(r);
        },
        CommandVal::DeclareSort(_, _) => {},
        CommandVal::DefineFun(n, ps, r, body) => {
            let m = abstract_command(c)->DefineFun_1;
            assert forall|i: int| 0 <= i < m.len() implies sort_array_free(#[trigger] m[i].1) by {
                lemma_abstract_sort_free(ps[i].1);
            }
            lemma_abstract_sort_free(r);
            lemma_abstract_term_free(body);
        },
    }
}

/// A name of the array signature, interpreted or uninterpreted.
pub open spec fn array_name(s: Seq<char>) -> bool {
    s == "select"@ || s == "store"@ || s == "const"@ || s == "Read-Int-Int"@ || s == "Write-Int-Int"@
        || s == "ConstArr-Int-Int"@
}

/// The renaming keeps every name of the array signature and makes no other name into one.
pub open spec fn avoids_array_names<R: SymbolMap>(r: &R) -> bool {
    &&& forall|s: Seq<char>| array_name(s) ==> #[trigger] r.rewrite_spec(s) == s
    &&& forall|s: Seq<char>| array_name(#[trigger] r.rewrite_spec(s)) ==> s == r.rewrite_spec(s)
}

proof fn lemma_qid_commutes<R: SymbolMap>(r: &R, q: QidVal)
    requires
        avoids_array_names(r),
    ensures
        abstract_qid(renamed_qid(r, q)) == renamed_qid(r, abstract_qid(q)),
{
    reveal_strlit("select");
    reveal_strlit("store");
    reveal_strlit("const");
    reveal_strlit("Read-Int-Int");
    reveal_strlit("Write-Int-Int");
    reveal_strlit("ConstArr-Int-Int");
    match q {
        QidVal::Simple(n) => {
            if array_name(r.rewrite_spec(n)) {
                assert(n == r.rewrite_spec(n));
            }
            assert(array_name("Read-Int-Int"@));
            assert(array_name("Write-Int-Int"@));
        },
        QidVal::Sorted(n, _) => {
            if array_name(r.rewrite_spec(n)) {
                assert(n == r.rewrite_spec(n));
            }
            assert(array_name("ConstArr-Int-Int"@));
        },
    }
}

/// Renaming symbols commutes with abstraction when the renaming leaves the
/// names of the array signature alone: unrolling an abstracted system gives the
/// abstraction of the unrolled system.
pub proof fn lemma_abstraction_commutes<R: SymbolMap>(r: &R, t: TermVal)
    requires
        avoids_array_names(r),
    ensures
        abstract_term(renamed(r, t)) == renamed(r, abstract_term(t)),
    decreases t,
{
    let a = abstract_term(renamed(r, t));
    let b = renamed(r, abstract_term(t));
    match t {
        TermVal::Constant(_) => {},
        TermVal::Ident(q) => {
            lemma_qid_commutes(r, q);
        },
        TermVal::App(q, args) => {
            lemma_qid_commutes(r, q);
            assert forall|i: int| 0 <= i < args.len() implies #[trigger] a->App_1[i] == b->App_1[i] by {
                lemma_abstraction_commutes(r, args[i]);
            }
            assert(a->App_1 =~= b->App_1);
        },
        TermVal::Let(bs, body) => {
            assert forall|i: int| 0 <= i < bs.len() implies #[trigger] a->Let_0[i] == b->Let_0[i] by {
                lemma_abstraction_commutes(r, bs[i].1);
            }
            assert(a->Let_0 =~= b->Let_0);
            lemma_abstraction_commutes(r, *body);
        },
        TermVal::Forall(vars, body) => {
            assert(a->Forall_0 =~= b->Forall_0);
            lemma_abstraction_commutes(r, *body);
        },
        TermVal::Exists(vars, body) => {
            assert(a->Exists_0 =~= b->Exists_0);
            lemma_abstraction_commutes(r, *body);
        },
        TermVal::Match(sc, cases) => {
            assert forall|i: int| 0 <= i < cases.len() implies #[trigger] a->Match_1[i] == b->Match_1[i] by {
                lemma_abstraction_commutes(r, cases[i].1);
            }
            assert(a->Match_1 =~= b->Match_1);
            lemma_abstraction_commutes(r, *sc);
        },
        TermVal::Attrs(body, attrs) => {
            lemma_abstraction_commutes(r, *body);
        },
    }
}

} // verus!
