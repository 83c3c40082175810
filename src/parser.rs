//! Reading terms and commands from text.
use crate::concrete::{
    AttrVal, AttributeValue, Command, CommandVal, Constant, FunctionDec, QidVal, QualIdentifier,
    Sort, SortVal, Term, TermVal, attribute_sx, attributes_sx, command_sx, constant_text,
    pattern_sx, qid_sx, sort_sx, sorted_vars_sx, strings_view, term_sx, attributes_view,
    sorted_vars_view, sorts_view,
};
use crate::concrete::ConstVal;
use crate::sexpr::{SExpr, Sx, sexpr_view, sx_seq};
use crate::text::{chars_of, string_of};
use crate::vmt::VMTError;
use vstd::prelude::*;

verus! {

pub open spec fn is_layout(c: char) -> bool {
    c == ' ' || c == '\t' || c == '\n' || c == '\r'
}

pub fn slice_string(cs: &Vec<char>, from: usize, to: usize) -> (r: String)
    requires
        from <= to <= cs@.len(),
    ensures
        r@ == cs@.subrange(from as int, to as int),
{
    let mut out: Vec<char> = Vec::new();
    let mut i = from;
    while i < to
        invariant
            from <= i <= to,
            to <= cs@.len(),
            out@ == cs@.subrange(from as int, i as int),
        decreases to - i,
    {
        out.push(cs[i]);
        assert(cs@.subrange(from as int, i + 1) =~= cs@.subrange(from as int, i as int).push(cs@[i as int]));
        i = i + 1;
    }
    string_of(&out)
}

/// A token: a parenthesis or an atom's text.
pub enum Tok {
    Open,
    Close,
    Atom(Seq<char>),
}

/// A token of the text.
#[derive(Debug)]
pub enum Token {
    Open,
    Close,
    Atom(String),
}

impl View for Token {
    type V = Tok;

    open spec fn view(&self) -> Tok {
        match self {
            Token::Open => Tok::Open,
            Token::Close => Tok::Close,
            Token::Atom(s) => Tok::Atom(s@),
        }
    }
}

pub open spec fn tokens_view(v: Seq<Token>) -> Seq<Tok> {
    Seq::new(v.len(), |i: int| v[i]@)
}

/// A character that ends a bare atom.
pub open spec fn is_stop(c: char) -> bool {
    is_layout(c) || c == '(' || c == ')' || c == ';'
}

/// The end of the comment that starts before `i`: the next newline, or the end.
pub open spec fn comment_end(cs: Seq<char>, i: int) -> int
    decreases cs.len() - i,
{
    if i >= cs.len() || i < 0 {
        cs.len() as int
    } else if cs[i] == '\n' {
        i
    } else {
        comment_end(cs, i + 1)
    }
}

/// The end of a bare atom that goes on at `i`: the next stop character, or the end.
pub open spec fn atom_end(cs: Seq<char>, i: int) -> int
    decreases cs.len() - i,
{
    if i >= cs.len() || i < 0 {
        cs.len() as int
    } else if is_stop(cs[i]) {
        i
    } else {
        atom_end(cs, i + 1)
    }
}

/// The position of the next `d` from `i` on, or the end.
pub open spec fn quote_end(cs: Seq<char>, i: int, d: char) -> int
    decreases cs.len() - i,
{
    if i >= cs.len() || i < 0 {
        cs.len() as int
    } else if cs[i] == d {
        i
    } else {
        quote_end(cs, i + 1, d)
    }
}

/// The tokens of the text from `pos` on: layout and `;` comments separate
/// tokens; an atom between bars or double quotes runs to the closing delimiter
/// and keeps both delimiters; an unclosed one is an error.
pub open spec fn lex_from(cs: Seq<char>, pos: int) -> Option<Seq<Tok>>
    decreases cs.len() - pos,
{
    if pos < 0 || pos >= cs.len() {
        Some(Seq::empty())
    } else {
        let c = cs[pos];
        if is_layout(c) {
            lex_from(cs, pos + 1)
        } else if c == ';' {
            let e = comment_end(cs, pos + 1);
            if e <= pos || e > cs.len() { None } else { lex_from(cs, e) }
        } else if c == '(' || c == ')' {
            match lex_from(cs, pos + 1) {
                Some(rest) => Some(seq![if c == '(' { Tok::Open } else { Tok::Close }] + rest),
                None => None,
            }
        } else if c == '|' || c == '"' {
            let q = quote_end(cs, pos + 1, c);
            if q >= cs.len() || q <= pos {
                None
            } else {
                match lex_from(cs, q + 1) {
                    Some(rest) => Some(seq![Tok::Atom(cs.subrange(pos, q + 1))] + rest),
                    None => None,
                }
            }
        } else {
            let q = atom_end(cs, pos + 1);
            if q <= pos || q > cs.len() {
                None
            } else {
                match lex_from(cs, q) {
                    Some(rest) => Some(seq![Tok::Atom(cs.subrange(pos, q))] + rest),
                    None => None,
                }
            }
        }
    }
}

proof fn lemma_comment_end(cs: Seq<char>, i: int)
    requires
        0 <= i,
    ensures
        i <= comment_end(cs, i) <= cs.len() || (i > cs.len() && comment_end(cs, i) == cs.len()),
    decreases cs.len() - i,
{
    if i < cs.len() && cs[i] != '\n' {
        lemma_comment_end(cs, i + 1);
    }
}

proof fn lemma_atom_end(cs: Seq<char>, i: int)
    requires
        0 <= i,
    ensures
        i <= atom_end(cs, i) <= cs.len() || (i > cs.len() && atom_end(cs, i) == cs.len()),
    decreases cs.len() - i,
{
    if i < cs.len() && !is_stop(cs[i]) {
        lemma_atom_end(cs, i + 1);
    }
}

proof fn lemma_quote_end(cs: Seq<char>, i: int, d: char)
    requires
        0 <= i,
    ensures
        i <= quote_end(cs, i, d) <= cs.len() || (i > cs.len() && quote_end(cs, i, d) == cs.len()),
    decreases cs.len() - i,
{
    if i < cs.len() && cs[i] != d {
        lemma_quote_end(cs, i + 1, d);
    }
}

pub open spec fn prepend(pre: Seq<Tok>, o: Option<Seq<Tok>>) -> Option<Seq<Tok>> {
    match o {
        Some(s) => Some(pre + s),
        None => None,
    }
}

/// The tokens of a text.
pub fn tokenize(text: &str) -> (r: Option<Vec<Token>>)
    ensures
        match r {
            Some(v) => lex_from(text@, 0) == Some(tokens_view(v@)),
            None => lex_from(text@, 0) is None,
        },
{
    let cs = chars_of(text);
    let n = cs.len();
    let mut toks: Vec<Token> = Vec::new();
    let mut p: usize = 0;
    while p < n
        invariant
            p <= n,
            n == cs@.len(),
            cs@ == text@,
            lex_from(text@, 0) == prepend(tokens_view(toks@), lex_from(text@, p as int)),
        decreases n - p,
    {
        let c = cs[p];
        let ghost before = tokens_view(toks@);
        if c == ' ' || c == '\t' || c == '\n' || c == '\r' {
            p = p + 1;
        } else if c == ';' {
            let mut q = p + 1;
            proof {
                lemma_comment_end(cs@, p + 1);
            }
            while q < n && cs[q] != '\n'
                invariant
                    p < q <= n,
                    n == cs@.len(),
                    comment_end(cs@, q as int) == comment_end(cs@, p + 1),
                decreases n - q,
            {
                q = q + 1;
            }
            p = q;
        } else if c == '(' || c == ')' {
            let t = if c == '(' { Token::Open } else { Token::Close };
            toks.push(t);
            proof {
                assert(tokens_view(toks@) =~= before.push(t@));
                match lex_from(text@, p + 1) {
                    Some(rest) => {
                        assert(before + (seq![t@] + rest) =~= before.push(t@) + rest);
                    },
                    None => {},
                }
            }
            p = p + 1;
        } else if c == '|' || c == '"' {
            let mut q = p + 1;
            proof {
                lemma_quote_end(cs@, p + 1, c);
            }
            while q < n && cs[q] != c
                invariant
                    p < q <= n,
                    n == cs@.len(),
                    quote_end(cs@, q as int, c) == quote_end(cs@, p + 1, c),
                decreases n - q,
            {
                q = q + 1;
            }
            if q >= n {
                return None;
            }
            let t = Token::Atom(slice_string(&cs, p, q + 1));
            toks.push(t);
            proof {
                assert(tokens_view(toks@) =~= before.push(t@));
                match lex_from(text@, q + 1) {
                    Some(rest) => {
                        assert(before + (seq![t@] + rest) =~= before.push(t@) + rest);
                    },
                    None => {},
                }
            }
            p = q + 1;
        } else {
            let mut q = p + 1;
            proof {
                lemma_atom_end(cs@, p + 1);
            }
            while q < n && !(cs[q] == ' ' || cs[q] == '\t' || cs[q] == '\n' || cs[q] == '\r' || cs[q] == '('
                || cs[q] == ')' || cs[q] == ';')
                invariant
                    p < q <= n,
                    n == cs@.len(),
                    atom_end(cs@, q as int) == atom_end(cs@, p + 1),
                decreases n - q,
            {
                q = q + 1;
            }
            let t = Token::Atom(slice_string(&cs, p, q));
            toks.push(t);
            proof {
                assert(tokens_view(toks@) =~= before.push(t@));
                match lex_from(text@, q as int) {
                    Some(rest) => {
                        assert(before + (seq![t@] + rest) =~= before.push(t@) + rest);
                    },
                    None => {},
                }
            }
            p = q;
        }
    }
    assert(tokens_view(toks@) + Seq::<Tok>::empty() =~= tokens_view(toks@));
    Some(toks)
}

/// The tokens of an S-expression.
pub open spec fn sx_tokens(e: Sx) -> Seq<Tok>
    decreases e,
{
    match e {
        Sx::Atom(a) => seq![Tok::Atom(a)],
        Sx::List(items) => seq![Tok::Open] + sxs_tokens(items) + seq![Tok::Close],
    }
}

/// The tokens of a sequence of S-expressions, one after the other.
pub open spec fn sxs_tokens(s: Seq<Sx>) -> Seq<Tok>
    decreases s,
{
    if s.len() == 0 {
        Seq::empty()
    } else {
        sxs_tokens(s.subrange(0, s.len() - 1)) + sx_tokens(s[s.len() - 1])
    }
}

proof fn lemma_sxs_tokens_push(s: Seq<Sx>, x: Sx)
    ensures
        sxs_tokens(s.push(x)) == sxs_tokens(s) + sx_tokens(x),
{
    let t = s.push(x);
    assert(t.subrange(0, t.len() - 1) =~= s);
}

/// The S-expression whose tokens start at `pos`, and the position after them.
pub open spec fn tree_at(toks: Seq<Tok>, pos: int) -> Option<(Sx, int)>
    decreases toks.len() - pos, 0int,
{
    if pos < 0 || pos >= toks.len() {
        None
    } else {
        match toks[pos] {
            Tok::Atom(a) => Some((Sx::Atom(a), pos + 1)),
            Tok::Close => None,
            Tok::Open => match items_from(toks, pos + 1) {
                Some((xs, p)) => Some((Sx::List(xs), p)),
                None => None,
            },
        }
    }
}

/// The items of a list whose first item starts at `q`, and the position after its
/// closing parenthesis.
pub open spec fn items_from(toks: Seq<Tok>, q: int) -> Option<(Seq<Sx>, int)>
    decreases toks.len() - q, 1int,
{
    if q < 0 || q >= toks.len() {
        None
    } else if toks[q] is Close {
        Some((Seq::empty(), q + 1))
    } else {
        match tree_at(toks, q) {
            Some((x, q2)) => if q < q2 <= toks.len() {
                match items_from(toks, q2) {
                    Some((xs, p)) => Some((seq![x] + xs, p)),
                    None => None,
                }
            } else {
                None
            },
            None => None,
        }
    }
}

/// The S-expressions whose tokens run from `p` to the end, in order.
pub open spec fn forest_from(toks: Seq<Tok>, p: int) -> Option<Seq<Sx>>
    decreases toks.len() - p,
{
    if p < 0 || p >= toks.len() {
        Some(Seq::empty())
    } else {
        match tree_at(toks, p) {
            Some((x, q)) => if p < q <= toks.len() {
                match forest_from(toks, q) {
                    Some(xs) => Some(seq![x] + xs),
                    None => None,
                }
            } else {
                None
            },
            None => None,
        }
    }
}

/// The S-expressions that a text writes.
pub open spec fn read_text(text: Seq<char>) -> Option<Seq<Sx>> {
    match lex_from(text, 0) {
        Some(toks) => forest_from(toks, 0),
        None => None,
    }
}

pub open spec fn join_items(pre: Seq<Sx>, o: Option<(Seq<Sx>, int)>) -> Option<(Seq<Sx>, int)> {
    match o {
        Some((xs, p)) => Some((pre + xs, p)),
        None => None,
    }
}

pub open spec fn join_forest(pre: Seq<Sx>, o: Option<Seq<Sx>>) -> Option<Seq<Sx>> {
    match o {
        Some(xs) => Some(pre + xs),
        None => None,
    }
}

/// Builds the S-expression whose tokens start at `pos`; gives it and the position after them.
fn build_at(toks: &Vec<Token>, pos: usize) -> (r: Result<(SExpr, usize), String>)
    requires
        pos < toks@.len(),
    ensures
        r matches Ok((e, p)) ==> pos < p <= toks@.len() && tokens_view(toks@).subrange(pos as int, p as int)
            == sx_tokens(e@),
        match r {
            Ok((e, p)) => tree_at(tokens_view(toks@), pos as int) == Some((e@, p as int)),
            Err(_) => tree_at(tokens_view(toks@), pos as int) is None,
        },
    decreases toks@.len() - pos,
{
    let n = toks.len();
    match &toks[pos] {
        Token::Atom(a) => {
            let e = SExpr::Atom(a.clone());
            assert(tokens_view(toks@).subrange(pos as int, pos + 1) =~= seq![toks@[pos as int]@]);
            Ok((e, pos + 1))
        },
        Token::Close => Err(String::from_str("unexpected closing parenthesis")),
        Token::Open => {
            let mut items: Vec<SExpr> = Vec::new();
            let mut q = pos + 1;
            loop
                invariant
                    pos < q <= n,
                    n == toks@.len(),
                    toks@[pos as int]@ == Tok::Open,
                    tokens_view(toks@).subrange(pos + 1, q as int) == sxs_tokens(sx_seq(items@)),
                    items_from(tokens_view(toks@), pos + 1) == join_items(sx_seq(items@), items_from(tokens_view(toks@), q as int)),
                decreases n - q,
            {
                if q >= n {
                    return Err(String::from_str("unbalanced parenthesis"));
                }
                match &toks[q] {
                    Token::Close => {
                        let e = SExpr::List(items);
                        proof {
                            let tv = tokens_view(toks@);
                            assert(tv.subrange(pos as int, q + 1) =~= seq![Tok::Open] + tv.subrange(pos + 1, q as int) + seq![Tok::Close]);
                            assert(tv[q as int] == toks@[q as int]@);
                            assert(sx_seq(items@) + Seq::<Sx>::empty() =~= sx_seq(items@));
                        }
                        return Ok((e, q + 1));
                    },
                    _ => {},
                }
                match build_at(toks, q) {
                    Ok((e, q2)) => {
                        let ghost before = items@;
                        items.push(e);
                        proof {
                            crate::sexpr::lemma_sx_seq_push(before, e);
                            lemma_sxs_tokens_push(sx_seq(before), e@);
                            let tv = tokens_view(toks@);
                            assert(tv.subrange(pos + 1, q2 as int) =~= tv.subrange(pos + 1, q as int) + tv.subrange(q as int, q2 as int));
                            assert(!(tv[q as int] is Close));
                            match items_from(tv, q2 as int) {
                                Some((xs, p)) => {
                                    assert(sx_seq(before) + (seq![e@] + xs) =~= sx_seq(items@) + xs);
                                },
                                None => {},
                            }
                        }
                        q = q2;
                    },
                    Err(m) => {
                        proof {
                            let tv = tokens_view(toks@);
                            assert(!(tv[q as int] is Close));
                        }
                        return Err(m);
                    },
                }
            }
        },
    }
}

/// Reads every S-expression of the text, in order: their tokens, one after the
/// other, are the tokens of the text.
pub fn read_sexprs(text: &str) -> (r: Result<Vec<SExpr>, String>)
    ensures
        r matches Ok(es) ==> lex_from(text@, 0) == Some(sxs_tokens(sx_seq(es@))),
        match r {
            Ok(es) => read_text(text@) == Some(sx_seq(es@)),
            Err(_) => read_text(text@) is None,
        },
{
    let toks = match tokenize(text) {
        Some(t) => t,
        None => {
            return Err(String::from_str("unterminated quoted atom"));
        },
    };
    let n = toks.len();
    let mut out: Vec<SExpr> = Vec::new();
    let mut p: usize = 0;
    assert(sx_seq(out@) =~= Seq::<Sx>::empty());
    assert(Seq::<Sx>::empty() + forest_from(tokens_view(toks@), 0)->0 =~= forest_from(tokens_view(toks@), 0)->0);
    while p < n
        invariant
            p <= n,
            n == toks@.len(),
            tokens_view(toks@).subrange(0, p as int) == sxs_tokens(sx_seq(out@)),
            lex_from(text@, 0) == Some(tokens_view(toks@)),
            forest_from(tokens_view(toks@), 0) == join_forest(sx_seq(out@), forest_from(tokens_view(toks@), p as int)),
        decreases n - p,
    {
        match build_at(&toks, p) {
            Ok((e, q)) => {
                let ghost before = out@;
                out.push(e);
                proof {
                    crate::sexpr::lemma_sx_seq_push(before, e);
                    lemma_sxs_tokens_push(sx_seq(before), e@);
                    let tv = tokens_view(toks@);
                    assert(tv.subrange(0, q as int) =~= tv.subrange(0, p as int) + tv.subrange(p as int, q as int));
                    match forest_from(tv, q as int) {
                        Some(xs) => {
                            assert(sx_seq(before) + (seq![e@] + xs) =~= sx_seq(out@) + xs);
                        },
                        None => {},
                    }
                }
                p = q;
            },
            Err(m) => {
                return Err(m);
            },
        }
    }
    assert(tokens_view(toks@).subrange(0, n as int) =~= tokens_view(toks@));
    assert(sx_seq(out@) + Seq::<Sx>::empty() =~= sx_seq(out@));
    Ok(out)
}

// ---------------------------------------------------------------------------
// The grammar of terms, sorts and commands over S-expressions.

pub open spec fn all_some<A>(s: Seq<Option<A>>) -> bool {
    forall|i: int| 0 <= i < s.len() ==> (#[trigger] s[i]) is Some
}

pub open spec fn unwrap_all<A>(s: Seq<Option<A>>) -> Seq<A> {
    Seq::new(s.len(), |i: int| s[i]->0)
}

pub open spec fn starts_with(a: Seq<char>, c: char) -> bool {
    a.len() > 0 && a[0] == c
}

/// An atom in term position: a numeral, a string literal or an identifier.
pub open spec fn atom_term_spec(a: Seq<char>) -> TermVal {
    if a.len() > 0 && '0' <= a[0] <= '9' {
        TermVal::Constant(ConstVal::Numeral(a))
    } else if a.len() >= 2 && a[0] == '"' && a[a.len() - 1] == '"' {
        TermVal::Constant(ConstVal::Str(a.subrange(1, a.len() - 1)))
    } else {
        TermVal::Ident(QidVal::Simple(a))
    }
}

/// The sort that an S-expression writes.
pub open spec fn sort_spec(x: Sx) -> Option<SortVal>
    decreases x,
{
    match x {
        Sx::Atom(a) => Some(SortVal::Simple(a)),
        Sx::List(items) => if items.len() < 2 {
            None
        } else {
            match items[0] {
                Sx::Atom(id) => if all_some(sort_args(items)) {
                    Some(SortVal::Param(id, unwrap_all(sort_args(items))))
                } else {
                    None
                },
                Sx::List(_) => None,
            }
        },
    }
}

/// The sorts that the items after the first write.
pub open spec fn sort_args(items: Seq<Sx>) -> Seq<Option<SortVal>>
    decreases items,
{
    Seq::new(
        (items.len() - 1) as nat,
        |i: int|
            if 0 <= i < items.len() - 1 {
                sort_spec(items[i + 1])
            } else {
                None
            },
    )
}

pub open spec fn sorted_var_spec(x: Sx) -> Option<(Seq<char>, SortVal)> {
    match x {
        Sx::List(pair) => if pair.len() == 2 {
            match (pair[0], sort_spec(pair[1])) {
                (Sx::Atom(name), Some(s)) => Some((name, s)),
                _ => None,
            }
        } else {
            None
        },
        Sx::Atom(_) => None,
    }
}

pub open spec fn sorted_var_list(items: Seq<Sx>) -> Seq<Option<(Seq<char>, SortVal)>> {
    Seq::new(items.len(), |i: int| sorted_var_spec(items[i]))
}

pub open spec fn sorted_vars_spec(x: Sx) -> Option<Seq<(Seq<char>, SortVal)>> {
    match x {
        Sx::List(items) => if all_some(sorted_var_list(items)) {
            Some(unwrap_all(sorted_var_list(items)))
        } else {
            None
        },
        Sx::Atom(_) => None,
    }
}

pub open spec fn pattern_names(items: Seq<Sx>) -> Seq<Option<Seq<char>>> {
    Seq::new(
        items.len(),
        |i: int|
            match items[i] {
                Sx::Atom(a) => Some(a),
                Sx::List(_) => None,
            },
    )
}

pub open spec fn pattern_spec(x: Sx) -> Option<Seq<Seq<char>>> {
    match x {
        Sx::Atom(a) => Some(seq![a]),
        Sx::List(items) => if items.len() == 1 {
            None
        } else if all_some(pattern_names(items)) {
            Some(unwrap_all(pattern_names(items)))
        } else {
            None
        },
    }
}

pub open spec fn sorted_qid_spec(x: Sx) -> Option<QidVal> {
    match x {
        Sx::List(items) => if items.len() == 3 && items[0] == Sx::Atom("as"@) {
            match (items[1], sort_spec(items[2])) {
                (Sx::Atom(id), Some(s)) => Some(QidVal::Sorted(id, s)),
                _ => None,
            }
        } else {
            None
        },
        Sx::Atom(_) => None,
    }
}

pub open spec fn prepend_attrs(
    pre: Seq<(Seq<char>, AttrVal)>,
    o: Option<Seq<(Seq<char>, AttrVal)>>,
) -> Option<Seq<(Seq<char>, AttrVal)>> {
    match o {
        Some(s) => Some(pre + s),
        None => None,
    }
}

pub open spec fn attr_value_spec(a: Seq<char>) -> AttrVal {
    match atom_term_spec(a) {
        TermVal::Constant(c) => AttrVal::Constant(c),
        _ => AttrVal::Symbol(a),
    }
}

/// The attributes written from item `i` on: keywords, each followed by a value
/// unless the next item is a keyword or there is none.
pub open spec fn attrs_from(items: Seq<Sx>, i: int) -> Option<Seq<(Seq<char>, AttrVal)>>
    decreases items.len() - i,
{
    if i < 0 || i >= items.len() {
        Some(Seq::empty())
    } else {
        match items[i] {
            Sx::Atom(kw) => if !starts_with(kw, ':') {
                None
            } else {
                let name = kw.subrange(1, kw.len() as int);
                if i + 1 < items.len() {
                    match items[i + 1] {
                        Sx::Atom(v) => if !starts_with(v, ':') {
                            match attrs_from(items, i + 2) {
                                Some(rest) => Some(seq![(name, attr_value_spec(v))] + rest),
                                None => None,
                            }
                        } else {
                            match attrs_from(items, i + 1) {
                                Some(rest) => Some(seq![(name, AttrVal::Empty)] + rest),
                                None => None,
                            }
                        },
                        Sx::List(_) => None,
                    }
                } else {
                    Some(seq![(name, AttrVal::Empty)])
                }
            },
            Sx::List(_) => None,
        }
    }
}

/// The terms that the items after the first write.
pub open spec fn term_args(items: Seq<Sx>) -> Seq<Option<TermVal>>
    decreases items,
{
    Seq::new(
        (items.len() - 1) as nat,
        |i: int|
            if 0 <= i < items.len() - 1 {
                sx_term(items[i + 1])
            } else {
                None
            },
    )
}

/// The bindings that the items of a `let` write.
pub open spec fn let_bindings(bl: Seq<Sx>) -> Seq<Option<(Seq<char>, TermVal)>>
    decreases bl,
{
    Seq::new(
        bl.len(),
        |i: int|
            if 0 <= i < bl.len() {
                match bl[i] {
                    Sx::List(pair) => if pair.len() == 2 {
                        match pair[0] {
                            Sx::Atom(name) => match sx_term(pair[1]) {
                                Some(t) => Some((name, t)),
                                None => None,
                            },
                            Sx::List(_) => None,
                        }
                    } else {
                        None
                    },
                    Sx::Atom(_) => None,
                }
            } else {
                None
            },
    )
}

/// The cases that the items of a `match` write.
pub open spec fn match_cases(cl: Seq<Sx>) -> Seq<Option<(Seq<Seq<char>>, TermVal)>>
    decreases cl,
{
    Seq::new(
        cl.len(),
        |i: int|
            if 0 <= i < cl.len() {
                match cl[i] {
                    Sx::List(pair) => if pair.len() == 2 {
                        match (pattern_spec(pair[0]), sx_term(pair[1])) {
                            (Some(p), Some(t)) => Some((p, t)),
                            _ => None,
                        }
                    } else {
                        None
                    },
                    Sx::Atom(_) => None,
                }
            } else {
                None
            },
    )
}

/// The term that an S-expression writes, if it writes one.
pub open spec fn sx_term(x: Sx) -> Option<TermVal>
    decreases x,
{
    match x {
        Sx::Atom(a) => if starts_with(a, ':') {
            None
        } else {
            Some(atom_term_spec(a))
        },
        Sx::List(items) => if items.len() < 2 {
            None
        } else if items[0] == Sx::Atom("let"@) || items[0] == Sx::Atom("forall"@) || items[0] == Sx::Atom("exists"@) {
            if items.len() != 3 {
                None
            } else {
                match sx_term(items[2]) {
                    None => None,
                    Some(body) => if items[0] == Sx::Atom("let"@) {
                        match items[1] {
                            Sx::List(bl) => if all_some(let_bindings(bl)) {
                                Some(TermVal::Let(unwrap_all(let_bindings(bl)), Box::new(body)))
                            } else {
                                None
                            },
                            Sx::Atom(_) => None,
                        }
                    } else {
                        match sorted_vars_spec(items[1]) {
                            Some(vs) => if items[0] == Sx::Atom("forall"@) {
                                Some(TermVal::Forall(vs, Box::new(body)))
                            } else {
                                Some(TermVal::Exists(vs, Box::new(body)))
                            },
                            None => None,
                        }
                    },
                }
            }
        } else if items[0] == Sx::Atom("match"@) {
            if items.len() != 3 {
                None
            } else {
                match (sx_term(items[1]), items[2]) {
                    (Some(sc), Sx::List(cl)) => if all_some(match_cases(cl)) {
                        Some(TermVal::Match(Box::new(sc), unwrap_all(match_cases(cl))))
                    } else {
                        None
                    },
                    _ => None,
                }
            }
        } else if items[0] == Sx::Atom("!"@) {
            match (sx_term(items[1]), attrs_from(items, 2)) {
                (Some(b), Some(attrs)) => Some(TermVal::Attrs(Box::new(b), attrs)),
                _ => None,
            }
        } else if items[0] == Sx::Atom("as"@) {
            match sorted_qid_spec(x) {
                Some(q) => Some(TermVal::Ident(q)),
                None => None,
            }
        } else {
            let head = match items[0] {
                Sx::Atom(a) => if starts_with(a, ':') {
                    None
                } else {
                    Some(QidVal::Simple(a))
                },
                Sx::List(_) => sorted_qid_spec(items[0]),
            };
            match head {
                Some(q) => if all_some(term_args(items)) {
                    Some(TermVal::App(q, unwrap_all(term_args(items))))
                } else {
                    None
                },
                None => None,
            }
        },
    }
}

fn atom_is(e: &SExpr, lit: &str) -> (r: bool)
    ensures
        r == (e@ == Sx::Atom(lit@)),
{
    match e {
        SExpr::Atom(a) => {
            let t = String::from_str(lit);
            *a == t
        },
        SExpr::List(_) => false,
    }
}

fn first_char_is(a: &String, c: char) -> (r: bool)
    ensures
        r == (a@.len() > 0 && a@[0] == c),
{
    let cs = chars_of(a.as_str());
    cs.len() > 0 && cs[0] == c
}

/// An atom in term position: a numeral, a string literal or an identifier.
fn atom_term(a: &String) -> (r: Term)
    ensures
        term_sx(r@) == Sx::Atom(a@),
        r@ == atom_term_spec(a@),
{
    let cs = chars_of(a.as_str());
    let n = cs.len();
    if n > 0 && '0' <= cs[0] && cs[0] <= '9' {
        Term::Constant(Constant::Numeral(a.clone()))
    } else if n >= 2 && cs[0] == '"' && cs[n - 1] == '"' {
        let inner = slice_string(&cs, 1, n - 1);
        proof {
            reveal_strlit("\"");
            assert(a@ =~= "\""@ + inner@ + "\""@);
        }
        assert(cs@ == a@);
        Term::Constant(Constant::Str(inner))
    } else {
        Term::QualIdentifier(QualIdentifier::Simple { identifier: a.clone() })
    }
}

/// The sort that an S-expression writes.
pub fn sort_of(e: &SExpr) -> (r: Result<Sort, String>)
    ensures
        r matches Ok(s) ==> sort_sx(s@) == e@,
        match r {
            Ok(s) => sort_spec(e@) == Some(s@),
            Err(_) => sort_spec(e@) is None,
        },
    decreases e,
{
    match e {
        SExpr::Atom(a) => Ok(Sort::Simple { identifier: a.clone() }),
        SExpr::List(items) => {
            if items.len() < 2 {
                return Err(String::from_str("ill-formed sort"));
            }
            assert(sx_seq(items@)[0] == items@[0]@);
            let id = match &items[0] {
                SExpr::Atom(a) => a.clone(),
                SExpr::List(_) => {
                    return Err(String::from_str("ill-formed sort"));
                },
            };
            let ghost iv = sx_seq(items@);
            let ghost sp = sort_args(iv);
            assert(e@ == Sx::List(iv));
            let mut ps: Vec<Sort> = Vec::new();
            let mut i: usize = 1;
            while i < items.len()
                invariant
                    1 <= i <= items@.len(),
                    *e == SExpr::List(*items),
                    iv == sx_seq(items@),
                    e@ == Sx::List(iv),
                    sp == sort_args(iv),
                    ps@.len() == i - 1,
                    forall|j: int| 0 <= j < ps@.len() ==> sort_sx((#[trigger] ps@[j])@) == iv[j + 1],
                    forall|j: int| 0 <= j < ps@.len() ==> sp[j] == Some((#[trigger] ps@[j])@),
                decreases items@.len() - i,
            {
                proof {
                    broadcast use vstd::std_specs::vec::axiom_vec_index_decreases;

                    assert(decreases_to!(*e => e->List_0));
                    assert(decreases_to!(e->List_0 => e->List_0[i as int]));
                }
                assert(sp[i - 1] == sort_spec(iv[i as int]));
                match sort_of(&items[i]) {
                    Ok(s) => {
                        ps.push(s);
                    },
                    Err(m) => {
                        assert(!all_some(sp));
                        return Err(m);
                    },
                }
                i = i + 1;
            }
            let r = Sort::Parameterized { identifier: id, parameters: ps };
            assert(sort_sx(r@)->List_0 =~= iv);
            assert(all_some(sp));
            assert(r@->Param_1 =~= unwrap_all(sp));
            Ok(r)
        },
    }
}

fn sorted_vars_of(e: &SExpr) -> (r: Result<Vec<(String, Sort)>, String>)
    ensures
        r matches Ok(v) ==> sorted_vars_sx(sorted_vars_view(v@)) == e@,
        match r {
            Ok(v) => sorted_vars_spec(e@) == Some(sorted_vars_view(v@)),
            Err(_) => sorted_vars_spec(e@) is None,
        },
{
    match e {
        SExpr::Atom(_) => Err(String::from_str("expected a list of sorted variables")),
        SExpr::List(items) => {
            let ghost iv = sx_seq(items@);
            assert(e@ == Sx::List(iv));
            let mut out: Vec<(String, Sort)> = Vec::new();
            let mut i: usize = 0;
            while i < items.len()
                invariant
                    i <= items@.len(),
                    iv == sx_seq(items@),
                    out@.len() == i,
                    forall|j: int| 0 <= j < i ==> Sx::List(seq![Sx::Atom((#[trigger] out@[j]).0@), sort_sx(out@[j].1@)]) == iv[j],
                    forall|j: int| 0 <= j < i ==> sorted_var_list(iv)[j] == Some(((#[trigger] out@[j]).0@, out@[j].1@)),
                    e@ == Sx::List(iv),
                decreases items@.len() - i,
            {
                assert(iv[i as int] == items@[i as int]@);
                match &items[i] {
                    SExpr::List(pair) => {
                        if pair.len() != 2 {
                            assert(iv[i as int] == Sx::List(sx_seq(pair@)));
                            assert(sorted_var_list(iv)[i as int] is None);
                            return Err(String::from_str("ill-formed sorted variable"));
                        }
                        assert(sx_seq(pair@)[0] == pair@[0]@ && sx_seq(pair@)[1] == pair@[1]@);
                        match &pair[0] {
                            SExpr::Atom(name) => {
                                match sort_of(&pair[1]) {
                                    Ok(s) => {
                                        assert(sx_seq(pair@) =~= seq![Sx::Atom(name@), sort_sx(s@)]);
                                        out.push((name.clone(), s));
                                    },
                                    Err(m) => {
                                        assert(iv[i as int] == Sx::List(sx_seq(pair@)));
                                        assert(sorted_var_list(iv)[i as int] is None);
                                        return Err(m);
                                    },
                                }
                            },
                            SExpr::List(_) => {
                                assert(iv[i as int] == Sx::List(sx_seq(pair@)));
                                assert(sorted_var_list(iv)[i as int] is None);
                                return Err(String::from_str("ill-formed sorted variable"));
                            },
                        }
                    },
                    SExpr::Atom(_) => {
                        assert(sorted_var_list(iv)[i as int] is None);
                        return Err(String::from_str("ill-formed sorted variable"));
                    },
                }
                i = i + 1;
            }
            assert(sorted_vars_sx(sorted_vars_view(out@))->List_0 =~= iv);
            assert(sorted_vars_view(out@) =~= unwrap_all(sorted_var_list(iv)));
            Ok(out)
        },
    }
}

fn pattern_of(e: &SExpr) -> (r: Result<Vec<String>, String>)
    ensures
        r matches Ok(v) ==> pattern_sx(strings_view(v@)) == e@,
        match r {
            Ok(v) => pattern_spec(e@) == Some(strings_view(v@)),
            Err(_) => pattern_spec(e@) is None,
        },
{
    match e {
        SExpr::Atom(a) => {
            let mut v: Vec<String> = Vec::new();
            v.push(a.clone());
            assert(strings_view(v@) =~= seq![a@]);
            Ok(v)
        },
        SExpr::List(items) => {
            if items.len() == 1 {
                return Err(String::from_str("ill-formed pattern"));
            }
            let ghost iv = sx_seq(items@);
            assert(e@ == Sx::List(iv));
            let mut out: Vec<String> = Vec::new();
            let mut i: usize = 0;
            while i < items.len()
                invariant
                    i <= items@.len(),
                    items@.len() != 1,
                    iv == sx_seq(items@),
                    out@.len() == i,
                    forall|j: int| 0 <= j < i ==> Sx::Atom((#[trigger] out@[j])@) == iv[j],
                    forall|j: int| 0 <= j < i ==> pattern_names(iv)[j] == Some((#[trigger] out@[j])@),
                    e@ == Sx::List(iv),
                decreases items@.len() - i,
            {
                assert(iv[i as int] == items@[i as int]@);
                match &items[i] {
                    SExpr::Atom(a) => {
                        out.push(a.clone());
                    },
                    SExpr::List(_) => {
                        assert(pattern_names(iv)[i as int] is None);
                        return Err(String::from_str("ill-formed pattern"));
                    },
                }
                i = i + 1;
            }
            assert(pattern_sx(strings_view(out@))->List_0 =~= iv);
            assert(strings_view(out@) =~= unwrap_all(pattern_names(iv)));
            Ok(out)
        },
    }
}

/// The qualified identifier `(as id sort)`.
fn sorted_qid_of(e: &SExpr) -> (r: Result<QualIdentifier, String>)
    ensures
        r matches Ok(q) ==> qid_sx(q@) == e@,
        match r {
            Ok(q) => sorted_qid_spec(e@) == Some(q@),
            Err(_) => sorted_qid_spec(e@) is None,
        },
{
    match e {
        SExpr::List(items) => {
            assert(e@ == Sx::List(sx_seq(items@)));
            if items.len() == 3 {
                assert(sx_seq(items@)[0] == items@[0]@ && sx_seq(items@)[1] == items@[1]@ && sx_seq(items@)[2] == items@[2]@);
            }
            if items.len() == 3 && atom_is(&items[0], "as") {
                match &items[1] {
                    SExpr::Atom(id) => {
                        match sort_of(&items[2]) {
                            Ok(s) => {
                                let q = QualIdentifier::Sorted { identifier: id.clone(), sort: s };
                                assert(qid_sx(q@)->List_0 =~= sx_seq(items@));
                                Ok(q)
                            },
                            Err(m) => Err(m),
                        }
                    },
                    SExpr::List(_) => Err(String::from_str("ill-formed identifier")),
                }
            } else {
                Err(String::from_str("ill-formed identifier"))
            }
        },
        SExpr::Atom(_) => Err(String::from_str("ill-formed identifier")),
    }
}

/// The value of an attribute, written as an atom.
fn attribute_value_of(a: &String) -> (r: AttributeValue)
    ensures
        attribute_sx((Seq::<char>::empty(), r@)) == seq![Sx::Atom(":"@), Sx::Atom(a@)],
        r@ == attr_value_spec(a@),
{
    match atom_term(a) {
        Term::Constant(c) => AttributeValue::Constant(c),
        Term::QualIdentifier(_) => AttributeValue::Symbol(a.clone()),
        _ => vstd::pervasive::unreached(),
    }
}

fn is_reserved_head(e: &SExpr) -> (r: bool)
    ensures
        r == (e@ == Sx::Atom("let"@) || e@ == Sx::Atom("forall"@) || e@ == Sx::Atom("exists"@) || e@
            == Sx::Atom("match"@) || e@ == Sx::Atom("!"@) || e@ == Sx::Atom("as"@)),
{
    atom_is(e, "let") || atom_is(e, "forall") || atom_is(e, "exists") || atom_is(e, "match")
        || atom_is(e, "!") || atom_is(e, "as")
}

/// The term that an S-expression writes: it prints back as that S-expression.
#[verifier::rlimit(100)]
pub fn term_of(e: &SExpr) -> (r: Result<Term, String>)
    ensures
        r matches Ok(t) ==> term_sx(t@) == e@,
        match r {
            Ok(t) => sx_term(e@) == Some(t@),
            Err(_) => sx_term(e@) is None,
        },
    decreases e,
{
    proof {
        broadcast use vstd::std_specs::vec::axiom_vec_index_decreases;
    }
    match e {
        SExpr::Atom(a) => {
            if first_char_is(a, ':') {
                return Err(String::from_str("keyword in term position"));
            }
            Ok(atom_term(a))
        },
        SExpr::List(items) => {
            let ghost iv = sx_seq(items@);
            assert(e@ == Sx::List(iv));
            assert(forall|k: int| 0 <= k < items@.len() ==> #[trigger] iv[k] == items@[k]@);
            if items.len() < 2 {
                return Err(String::from_str("ill-formed term"));
            }
            if atom_is(&items[0], "let") || atom_is(&items[0], "forall") || atom_is(&items[0], "exists") {
                if items.len() != 3 {
                    return Err(String::from_str("ill-formed binder"));
                }
                proof {
                    assert(decreases_to!(*e => e->List_0));
                    assert(decreases_to!(e->List_0 => e->List_0[2]));
                }
                let body = match term_of(&items[2]) {
                    Ok(b) => b,
                    Err(m) => {
                        return Err(m);
                    },
                };
                if atom_is(&items[0], "let") {
                    let bl = match &items[1] {
                        SExpr::List(bl) => bl,
                        SExpr::Atom(_) => {
                            return Err(String::from_str("ill-formed let"));
                        },
                    };
                    let ghost bv = sx_seq(bl@);
                    assert(iv[1] == Sx::List(bv));
                    assert(sx_term(e@) == if all_some(let_bindings(bv)) {
                        Some(TermVal::Let(unwrap_all(let_bindings(bv)), Box::new(body@)))
                    } else {
                        None
                    });
                    let mut out: Vec<(String, Term)> = Vec::new();
                    let mut i: usize = 0;
                    while i < bl.len()
                        invariant
                            i <= bl@.len(),
                            *e == SExpr::List(*items),
                            items@.len() == 3,
                            items@[1] == SExpr::List(*bl),
                            bv == sx_seq(bl@),
                            out@.len() == i,
                            forall|j: int| 0 <= j < i ==> Sx::List(seq![Sx::Atom((#[trigger] out@[j]).0@), term_sx(out@[j].1@)]) == bv[j],
                            forall|j: int| 0 <= j < i ==> let_bindings(bv)[j] == Some(((#[trigger] out@[j]).0@, out@[j].1@)),
                            sx_term(e@) == if all_some(let_bindings(bv)) {
                                Some(TermVal::Let(unwrap_all(let_bindings(bv)), Box::new(body@)))
                            } else {
                                None
                            },
                        decreases bl@.len() - i,
                    {
                        assert(bv[i as int] == bl@[i as int]@);
                        match &bl[i] {
                            SExpr::List(pair) => {
                                assert(bv[i as int] == Sx::List(sx_seq(pair@)));
                                if pair.len() != 2 {
                                    assert(let_bindings(bv)[i as int] is None);
                                    return Err(String::from_str("ill-formed binding"));
                                }
                                assert(sx_seq(pair@)[0] == pair@[0]@ && sx_seq(pair@)[1] == pair@[1]@);
                                proof {
                                    assert(decreases_to!(*e => e->List_0));
                                    assert(decreases_to!(e->List_0 => e->List_0[1]));
                                    assert(decreases_to!(e->List_0[1] => e->List_0[1]->List_0));
                                    assert(decreases_to!(e->List_0[1]->List_0 => e->List_0[1]->List_0[i as int]));
                                    assert(decreases_to!(e->List_0[1]->List_0[i as int] => e->List_0[1]->List_0[i as int]->List_0));
                                    assert(decreases_to!(e->List_0[1]->List_0[i as int]->List_0 => e->List_0[1]->List_0[i as int]->List_0[1]));
                                }
                                match &pair[0] {
                                    SExpr::Atom(name) => {
                                        match term_of(&pair[1]) {
                                            Ok(t) => {
                                                assert(sx_seq(pair@) =~= seq![Sx::Atom(name@), term_sx(t@)]);
                                                out.push((name.clone(), t));
                                            },
                                            Err(m) => {
                                                assert(let_bindings(bv)[i as int] is None);
                                                return Err(m);
                                            },
                                        }
                                    },
                                    SExpr::List(_) => {
                                        assert(let_bindings(bv)[i as int] is None);
                                        return Err(String::from_str("ill-formed binding"));
                                    },
                                }
                            },
                            SExpr::Atom(_) => {
                                assert(let_bindings(bv)[i as int] is None);
                                return Err(String::from_str("ill-formed binding"));
                            },
                        }
                        i = i + 1;
                    }
                    let r = Term::Let { var_bindings: out, term: Box::new(body) };
                    assert(term_sx(r@)->List_0[1]->List_0 =~= bv);
                    assert(term_sx(r@)->List_0 =~= iv);
                    assert(r@->Let_0 =~= unwrap_all(let_bindings(bv)));
                    Ok(r)
                } else {
                    let vars = match sorted_vars_of(&items[1]) {
                        Ok(v) => v,
                        Err(m) => {
                            return Err(m);
                        },
                    };
                    let r = if atom_is(&items[0], "forall") {
                        Term::Forall { vars, term: Box::new(body) }
                    } else {
                        Term::Exists { vars, term: Box::new(body) }
                    };
                    assert(term_sx(r@)->List_0 =~= iv);
                    Ok(r)
                }
            } else if atom_is(&items[0], "match") {
                if items.len() != 3 {
                    return Err(String::from_str("ill-formed match"));
                }
                proof {
                    assert(decreases_to!(*e => e->List_0));
                    assert(decreases_to!(e->List_0 => e->List_0[1]));
                }
                let scrutinee = match term_of(&items[1]) {
                    Ok(t) => t,
                    Err(m) => {
                        return Err(m);
                    },
                };
                let cl = match &items[2] {
                    SExpr::List(cl) => cl,
                    SExpr::Atom(_) => {
                        return Err(String::from_str("ill-formed match"));
                    },
                };
                let ghost cv = sx_seq(cl@);
                assert(iv[2] == Sx::List(cv));
                assert(sx_term(e@) == if all_some(match_cases(cv)) {
                    Some(TermVal::Match(Box::new(scrutinee@), unwrap_all(match_cases(cv))))
                } else {
                    None
                });
                let mut out: Vec<(Vec<String>, Term)> = Vec::new();
                let mut i: usize = 0;
                while i < cl.len()
                    invariant
                        i <= cl@.len(),
                        *e == SExpr::List(*items),
                        items@.len() == 3,
                        items@[2] == SExpr::List(*cl),
                        cv == sx_seq(cl@),
                        out@.len() == i,
                        forall|j: int| 0 <= j < i ==> Sx::List(seq![pattern_sx(strings_view((#[trigger] out@[j]).0@)), term_sx(out@[j].1@)]) == cv[j],
                        forall|j: int| 0 <= j < i ==> match_cases(cv)[j] == Some((strings_view((#[trigger] out@[j]).0@), out@[j].1@)),
                        sx_term(e@) == if all_some(match_cases(cv)) {
                            Some(TermVal::Match(Box::new(scrutinee@), unwrap_all(match_cases(cv))))
                        } else {
                            None
                        },
                    decreases cl@.len() - i,
                {
                    assert(cv[i as int] == cl@[i as int]@);
                    match &cl[i] {
                        SExpr::List(pair) => {
                            assert(cv[i as int] == Sx::List(sx_seq(pair@)));
                            if pair.len() != 2 {
                                assert(match_cases(cv)[i as int] is None);
                                return Err(String::from_str("ill-formed match case"));
                            }
                            assert(sx_seq(pair@)[0] == pair@[0]@ && sx_seq(pair@)[1] == pair@[1]@);
                            proof {
                                assert(decreases_to!(*e => e->List_0));
                                assert(decreases_to!(e->List_0 => e->List_0[2]));
                                assert(decreases_to!(e->List_0[2] => e->List_0[2]->List_0));
                                assert(decreases_to!(e->List_0[2]->List_0 => e->List_0[2]->List_0[i as int]));
                                assert(decreases_to!(e->List_0[2]->List_0[i as int] => e->List_0[2]->List_0[i as int]->List_0));
                                assert(decreases_to!(e->List_0[2]->List_0[i as int]->List_0 => e->List_0[2]->List_0[i as int]->List_0[1]));
                            }
                            let pat = match pattern_of(&pair[0]) {
                                Ok(p) => p,
                                Err(m) => {
                                    assert(match_cases(cv)[i as int] is None);
                                    return Err(m);
                                },
                            };
                            match term_of(&pair[1]) {
                                Ok(t) => {
                                    assert(sx_seq(pair@) =~= seq![pattern_sx(strings_view(pat@)), term_sx(t@)]);
                                    out.push((pat, t));
                                },
                                Err(m) => {
                                    assert(match_cases(cv)[i as int] is None);
                                    return Err(m);
                                },
                            }
                        },
                        SExpr::Atom(_) => {
                            assert(match_cases(cv)[i as int] is None);
                            return Err(String::from_str("ill-formed match case"));
                        },
                    }
                    i = i + 1;
                }
                let r = Term::Match { term: Box::new(scrutinee), cases: out };
                assert(term_sx(r@)->List_0[2]->List_0 =~= cv);
                assert(term_sx(r@)->List_0 =~= iv);
                assert(r@->Match_1 =~= unwrap_all(match_cases(cv)));
                Ok(r)
            } else if atom_is(&items[0], "!") {
                proof {
                    assert(decreases_to!(*e => e->List_0));
                    assert(decreases_to!(e->List_0 => e->List_0[1]));
                }
                let body = match term_of(&items[1]) {
                    Ok(t) => t,
                    Err(m) => {
                        return Err(m);
                    },
                };
                assert(sx_term(e@) == match attrs_from(iv, 2) {
                    Some(a) => Some(TermVal::Attrs(Box::new(body@), a)),
                    None => None,
                });
                let mut attrs: Vec<(String, AttributeValue)> = Vec::new();
                let mut i: usize = 2;
                assert(attributes_view(attrs@) =~= Seq::<(Seq<char>, AttrVal)>::empty());
                assert(attrs_from(iv, 2) == prepend_attrs(Seq::empty(), attrs_from(iv, 2)) ) by {
                    match attrs_from(iv, 2) {
                        Some(x) => {
                            assert(Seq::<(Seq<char>, AttrVal)>::empty() + x =~= x);
                        },
                        None => {},
                    }
                }
                while i < items.len()
                    invariant
                        2 <= i <= items@.len(),
                        iv == sx_seq(items@),
                        seq![Sx::Atom("!"@), term_sx(body@)] + attributes_sx(attributes_view(attrs@)) == iv.subrange(0, i as int),
                        attrs_from(iv, 2) == prepend_attrs(attributes_view(attrs@), attrs_from(iv, i as int)),
                        sx_term(e@) == match attrs_from(iv, 2) {
                            Some(a) => Some(TermVal::Attrs(Box::new(body@), a)),
                            None => None,
                        },
                        forall|k: int| 0 <= k < items@.len() ==> #[trigger] iv[k] == items@[k]@,
                    decreases items@.len() - i,
                {
                    let kw = match &items[i] {
                        SExpr::Atom(a) => a,
                        SExpr::List(_) => {
                            return Err(String::from_str("ill-formed attribute"));
                        },
                    };
                    let kcs = chars_of(kw.as_str());
                    if kcs.len() == 0 || kcs[0] != ':' {
                        return Err(String::from_str("expected a keyword"));
                    }
                    assert(kcs@ == kw@);
                    let name = slice_string(&kcs, 1, kcs.len());
                    proof {
                        reveal_strlit(":");
                        assert(kw@ =~= ":"@ + name@);
                    }
                    let ghost before = attrs@;
                    let mut value = AttributeValue::Empty;
                    let mut next = i + 1;
                    if i + 1 < items.len() {
                        match &items[i + 1] {
                            SExpr::Atom(v) => {
                                if !first_char_is(v, ':') {
                                    value = attribute_value_of(v);
                                    next = i + 2;
                                }
                            },
                            SExpr::List(_) => {
                                return Err(String::from_str("ill-formed attribute value"));
                            },
                        }
                    }
                    let ghost pushed = (name@, value@);
                    proof {
                        if next == i + 2 {
                            match attrs_from(iv, i + 2) {
                                Some(rest) => {
                                    assert(attributes_view(before) + (seq![pushed] + rest) =~= attributes_view(before).push(pushed) + rest);
                                },
                                None => {},
                            }
                        } else if i + 1 < items.len() {
                            match attrs_from(iv, i + 1) {
                                Some(rest) => {
                                    assert(attributes_view(before) + (seq![pushed] + rest) =~= attributes_view(before).push(pushed) + rest);
                                },
                                None => {},
                            }
                        } else {
                            assert(attrs_from(iv, i + 1) == Some(Seq::<(Seq<char>, AttrVal)>::empty()));
                            assert(attributes_view(before) + seq![pushed] =~= attributes_view(before).push(pushed) + Seq::<(Seq<char>, AttrVal)>::empty());
                        }
                    }
                    attrs.push((name, value));
                    proof {
                        assert(attributes_view(attrs@) =~= attributes_view(before).push(pushed));
                        let av = attributes_view(attrs@);
                        assert(av.drop_last() =~= attributes_view(before));
                        assert(attributes_sx(av) == attributes_sx(attributes_view(before)) + attribute_sx(av.last()));
                        if next == i + 2 {
                            assert(attribute_sx(av.last()) =~= seq![iv[i as int], iv[i + 1]]);
                            assert(iv.subrange(0, next as int) =~= iv.subrange(0, i as int) + seq![iv[i as int], iv[i + 1]]);
                        } else {
                            assert(attribute_sx(av.last()) =~= seq![iv[i as int]]);
                            assert(iv.subrange(0, next as int) =~= iv.subrange(0, i as int) + seq![iv[i as int]]);
                        }
                    }
                    i = next;
                }
                let r = Term::Attributes { term: Box::new(body), attributes: attrs };
                assert(iv.subrange(0, items@.len() as int) =~= iv);
                assert(term_sx(r@)->List_0 =~= iv);
                assert(attributes_view(attrs@) + Seq::<(Seq<char>, AttrVal)>::empty() =~= attributes_view(attrs@));
                Ok(r)
            } else if atom_is(&items[0], "as") {
                match sorted_qid_of(e) {
                    Ok(q) => Ok(Term::QualIdentifier(q)),
                    Err(m) => Err(m),
                }
            } else {
                let head = match &items[0] {
                    SExpr::Atom(a) => {
                        if first_char_is(a, ':') {
                            return Err(String::from_str("keyword in function position"));
                        }
                        QualIdentifier::Simple { identifier: a.clone() }
                    },
                    SExpr::List(_) => match sorted_qid_of(&items[0]) {
                        Ok(q) => q,
                        Err(m) => {
                            return Err(m);
                        },
                    },
                };
                assert(sx_term(e@) == if all_some(term_args(iv)) {
                    Some(TermVal::App(head@, unwrap_all(term_args(iv))))
                } else {
                    None
                });
                let mut args: Vec<Term> = Vec::new();
                let mut i: usize = 1;
                while i < items.len()
                    invariant
                        1 <= i <= items@.len(),
                        *e == SExpr::List(*items),
                        iv == sx_seq(items@),
                        args@.len() == i - 1,
                        forall|j: int| 0 <= j < args@.len() ==> term_sx((#[trigger] args@[j])@) == iv[j + 1],
                        forall|j: int| 0 <= j < args@.len() ==> term_args(iv)[j] == Some((#[trigger] args@[j])@),
                        sx_term(e@) == if all_some(term_args(iv)) {
                            Some(TermVal::App(head@, unwrap_all(term_args(iv))))
                        } else {
                            None
                        },
                        forall|k: int| 0 <= k < items@.len() ==> #[trigger] iv[k] == items@[k]@,
                        e@ == Sx::List(iv),
                    decreases items@.len() - i,
                {
                    assert(term_args(iv)[i - 1] == sx_term(iv[i as int]));
                    proof {
                        assert(decreases_to!(*e => e->List_0));
                        assert(decreases_to!(e->List_0 => e->List_0[i as int]));
                    }
                    match term_of(&items[i]) {
                        Ok(t) => {
                            args.push(t);
                        },
                        Err(m) => {
                            assert(term_args(iv)[i - 1] is None);
                            return Err(m);
                        },
                    }
                    i = i + 1;
                }
                let r = Term::Application { qual_identifier: head, arguments: args };
                assert(term_sx(r@)->List_0 =~= iv);
                assert(r@->App_1 =~= unwrap_all(term_args(iv)));
                Ok(r)
            }
        },
    }
}

/// The sorts that the items of a parameter list write.
pub open spec fn param_sorts(pl: Seq<Sx>) -> Seq<Option<SortVal>> {
    Seq::new(pl.len(), |i: int| sort_spec(pl[i]))
}

/// The command that an S-expression writes, if it writes one.
pub open spec fn sx_command(x: Sx) -> Option<CommandVal> {
    match x {
        Sx::Atom(_) => None,
        Sx::List(items) => if items.len() == 0 {
            None
        } else if items[0] == Sx::Atom("assert"@) && items.len() == 2 {
            match sx_term(items[1]) {
                Some(t) => Some(CommandVal::Assert(t)),
                None => None,
            }
        } else if items[0] == Sx::Atom("declare-fun"@) && items.len() == 4 {
            match (items[1], items[2], sort_spec(items[3])) {
                (Sx::Atom(name), Sx::List(pl), Some(sort)) => if all_some(param_sorts(pl)) {
                    Some(CommandVal::DeclareFun(name, unwrap_all(param_sorts(pl)), sort))
                } else {
                    None
                },
                _ => None,
            }
        } else if items[0] == Sx::Atom("declare-sort"@) && items.len() == 3 {
            match (items[1], items[2]) {
                (Sx::Atom(name), Sx::Atom(arity)) => Some(CommandVal::DeclareSort(name, arity)),
                _ => None,
            }
        } else if items[0] == Sx::Atom("define-fun"@) && items.len() == 5 {
            match (items[1], sorted_vars_spec(items[2]), sort_spec(items[3]), sx_term(items[4])) {
                (Sx::Atom(name), Some(ps), Some(res), Some(t)) => Some(CommandVal::DefineFun(name, ps, res, t)),
                _ => None,
            }
        } else {
            None
        },
    }
}

/// The command that an S-expression writes: it prints back as that S-expression.
#[verifier::rlimit(100)]
pub fn command_of(e: &SExpr) -> (r: Result<Command, VMTError>)
    ensures
        r matches Ok(c) ==> command_sx(c@) == e@,
        match r {
            Ok(c) => sx_command(e@) == Some(c@),
            Err(_) => sx_command(e@) is None,
        },
{
    let items = match e {
        SExpr::List(items) => items,
        SExpr::Atom(_) => {
            return Err(VMTError::ParseError(String::from_str("expected a command")));
        },
    };
    let ghost iv = sx_seq(items@);
    assert(e@ == Sx::List(iv));
    assert(forall|k: int| 0 <= k < items@.len() ==> #[trigger] iv[k] == items@[k]@);
    if items.len() == 0 {
        return Err(VMTError::ParseError(String::from_str("empty command")));
    }
    if atom_is(&items[0], "assert") && items.len() == 2 {
        match term_of(&items[1]) {
            Ok(t) => {
                let c = Command::Assert { term: t };
                assert(command_sx(c@)->List_0 =~= iv);
                Ok(c)
            },
            Err(m) => Err(VMTError::ParseError(m)),
        }
    } else if atom_is(&items[0], "declare-fun") && items.len() == 4 {
        let name = match &items[1] {
            SExpr::Atom(a) => a.clone(),
            SExpr::List(_) => {
                return Err(VMTError::ParseError(String::from_str("ill-formed declare-fun")));
            },
        };
        let pl = match &items[2] {
            SExpr::List(pl) => pl,
            SExpr::Atom(_) => {
                return Err(VMTError::ParseError(String::from_str("ill-formed declare-fun")));
            },
        };
        let ghost pv = sx_seq(pl@);
        assert(iv[2] == Sx::List(pv));
        let mut ps: Vec<Sort> = Vec::new();
        let mut i: usize = 0;
        while i < pl.len()
            invariant
                i <= pl@.len(),
                pv == sx_seq(pl@),
                ps@.len() == i,
                forall|j: int| 0 <= j < i ==> sort_sx((#[trigger] ps@[j])@) == pv[j],
                forall|j: int| 0 <= j < i ==> param_sorts(pv)[j] == Some((#[trigger] ps@[j])@),
                sx_command(e@) == match (iv[1], iv[2], sort_spec(iv[3])) {
                    (Sx::Atom(name), Sx::List(pl), Some(sort)) => if all_some(param_sorts(pl)) {
                        Some(CommandVal::DeclareFun(name, unwrap_all(param_sorts(pl)), sort))
                    } else {
                        None
                    },
                    _ => None,
                },
                iv[2] == Sx::List(pv),
            decreases pl@.len() - i,
        {
            assert(pv[i as int] == pl@[i as int]@);
            match sort_of(&pl[i]) {
                Ok(s) => {
                    ps.push(s);
                },
                Err(m) => {
                    assert(param_sorts(pv)[i as int] is None);
                    return Err(VMTError::ParseError(m));
                },
            }
            i = i + 1;
        }
        match sort_of(&items[3]) {
            Ok(sort) => {
                let c = Command::DeclareFun { symbol: name, parameters: ps, sort };
                assert(command_sx(c@)->List_0[2]->List_0 =~= pv);
                assert(command_sx(c@)->List_0 =~= iv);
                assert(sorts_view(ps@) =~= unwrap_all(param_sorts(pv)));
                Ok(c)
            },
            Err(m) => Err(VMTError::ParseError(m)),
        }
    } else if atom_is(&items[0], "declare-sort") && items.len() == 3 {
        match (&items[1], &items[2]) {
            (SExpr::Atom(name), SExpr::Atom(arity)) => {
                let c = Command::DeclareSort { symbol: name.clone(), arity: arity.clone() };
                assert(command_sx(c@)->List_0 =~= iv);
                Ok(c)
            },
            _ => Err(VMTError::ParseError(String::from_str("ill-formed declare-sort"))),
        }
    } else if atom_is(&items[0], "define-fun") && items.len() == 5 {
        let name = match &items[1] {
            SExpr::Atom(a) => a.clone(),
            SExpr::List(_) => {
                return Err(VMTError::ParseError(String::from_str("ill-formed define-fun")));
            },
        };
        let params = match sorted_vars_of(&items[2]) {
            Ok(v) => v,
            Err(m) => {
                return Err(VMTError::ParseError(m));
            },
        };
        let result = match sort_of(&items[3]) {
            Ok(s) => s,
            Err(m) => {
                return Err(VMTError::ParseError(m));
            },
        };
        match term_of(&items[4]) {
            Ok(t) => {
                let c = Command::DefineFun { sig: FunctionDec { name, parameters: params, result }, term: t };
                assert(command_sx(c@)->List_0 =~= iv);
                Ok(c)
            },
            Err(m) => Err(VMTError::ParseError(m)),
        }
    } else {
        Err(VMTError::UnknownCommand(e.to_text()))
    }
}

/// The commands of a text, in order.
pub open spec fn sx_commands(xs: Seq<Sx>) -> Seq<Option<CommandVal>> {
    Seq::new(xs.len(), |i: int| sx_command(xs[i]))
}

/// The commands that a text writes, if it writes only commands.
pub open spec fn read_commands(text: Seq<char>) -> Option<Seq<CommandVal>> {
    match read_text(text) {
        Some(xs) => if all_some(sx_commands(xs)) {
            Some(unwrap_all(sx_commands(xs)))
        } else {
            None
        },
        None => None,
    }
}

/// The term that a text writes, if it writes exactly one.
pub open spec fn read_term(text: Seq<char>) -> Option<TermVal> {
    match read_text(text) {
        Some(xs) => if xs.len() == 1 {
            sx_term(xs[0])
        } else {
            None
        },
        None => None,
    }
}

pub fn parse_commands(text: &str) -> (r: Result<Vec<Command>, VMTError>)
    ensures
        r matches Ok(cs) ==> lex_from(text@, 0) == Some(
            sxs_tokens(Seq::new(cs@.len(), |i: int| command_sx(cs@[i]@))),
        ),
        match r {
            Ok(cs) => read_commands(text@) == Some(crate::utils::commands_view(cs@)),
            Err(_) => read_commands(text@) is None,
        },
{
    let es = match read_sexprs(text) {
        Ok(es) => es,
        Err(m) => {
            return Err(VMTError::ParseError(m));
        },
    };
    let mut out: Vec<Command> = Vec::new();
    let mut i: usize = 0;
    while i < es.len()
        invariant
            i <= es@.len(),
            out@.len() == i,
            forall|j: int| 0 <= j < i ==> command_sx((#[trigger] out@[j])@) == es@[j]@,
            forall|j: int| 0 <= j < i ==> sx_commands(sx_seq(es@))[j] == Some((#[trigger] out@[j])@),
            read_text(text@) == Some(sx_seq(es@)),
        decreases es@.len() - i,
    {
        assert(sx_seq(es@)[i as int] == es@[i as int]@);
        match command_of(&es[i]) {
            Ok(c) => {
                out.push(c);
            },
            Err(err) => {
                assert(sx_commands(sx_seq(es@))[i as int] is None);
                return Err(err);
            },
        }
        i = i + 1;
    }
    assert(Seq::new(out@.len(), |i: int| command_sx(out@[i]@)) =~= sx_seq(es@));
    assert(crate::utils::commands_view(out@) =~= unwrap_all(sx_commands(sx_seq(es@))));
    Ok(out)
}

/// The term of the single `(assert t)` command that the text holds.
pub fn get_term_from_assert_command_string(text: &str) -> (r: Result<Term, VMTError>)
    ensures
        r matches Ok(t) ==> lex_from(text@, 0) == Some(sx_tokens(command_sx(CommandVal::Assert(t@)))),
        match r {
            Ok(t) => read_commands(text@) == Some(seq![CommandVal::Assert(t@)]),
            Err(_) => !(read_commands(text@) matches Some(cs) && cs.len() == 1 && cs[0] is Assert),
        },
{
    let mut cs = match parse_commands(text) {
        Ok(cs) => cs,
        Err(err) => {
            return Err(err);
        },
    };
    if cs.len() != 1 {
        return Err(VMTError::ParseError(String::from_str("expected exactly one command")));
    }
    let ghost all = Seq::new(cs@.len(), |i: int| command_sx(cs@[i]@));
    let c = cs.pop().unwrap();
    proof {
        assert(all.subrange(0, 0) =~= Seq::<Sx>::empty());
        assert(sxs_tokens(all) == sxs_tokens(all.subrange(0, 0)) + sx_tokens(all[0]));
        assert(sxs_tokens(all) =~= sx_tokens(command_sx(c@)));
    }
    assert(crate::utils::commands_view(cs@.push(c)) =~= seq![c@]);
    match c {
        Command::Assert { term } => Ok(term),
        _ => Err(VMTError::ParseError(String::from_str("expected an assert command"))),
    }
}

/// The term that the text writes.
pub fn parse_term(text: &str) -> (r: Result<Term, VMTError>)
    ensures
        r matches Ok(t) ==> lex_from(text@, 0) == Some(sx_tokens(term_sx(t@))),
        match r {
            Ok(t) => read_term(text@) == Some(t@),
            Err(_) => read_term(text@) is None,
        },
{
    let es = match read_sexprs(text) {
        Ok(es) => es,
        Err(m) => {
            return Err(VMTError::ParseError(m));
        },
    };
    if es.len() != 1 {
        return Err(VMTError::ParseError(String::from_str("expected exactly one term")));
    }
    proof {
        let all = sx_seq(es@);
        assert(all.len() == 1);
        assert(all.subrange(0, 0) =~= Seq::<Sx>::empty());
        assert(sxs_tokens(all) == sxs_tokens(all.subrange(0, 0)) + sx_tokens(all[0]));
        assert(sxs_tokens(all) =~= sx_tokens(all[0]));
        assert(all[0] == es@[0]@);
    }
    match term_of(&es[0]) {
        Ok(t) => Ok(t),
        Err(m) => Err(VMTError::ParseError(m)),
    }
}

} // verus!
