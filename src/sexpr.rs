//! S-expressions: the textual layer under terms and commands.
use vstd::prelude::*;

verus! {

/// The mathematical form of an S-expression: an atom's characters, or a list.
pub enum Sx {
    Atom(Seq<char>),
    List(Seq<Sx>),
}

/// An S-expression: an atom (its text as written) or a parenthesised list.
#[derive(Debug)]
pub enum SExpr {
    Atom(String),
    List(Vec<SExpr>),
}

/// The abstract form of each item of a sequence of S-expressions.
pub open spec fn sx_seq(items: Seq<SExpr>) -> Seq<Sx>
    decreases items,
{
    Seq::new(
        items.len(),
        |i: int|
            if 0 <= i < items.len() {
                sexpr_view(items[i])
            } else {
                Sx::Atom(Seq::empty())
            },
    )
}

/// The abstract form of an S-expression.
pub open spec fn sexpr_view(e: SExpr) -> Sx
    decreases e,
{
    match e {
        SExpr::Atom(s) => Sx::Atom(s@),
        SExpr::List(items) => Sx::List(sx_seq(items@)),
    }
}

impl View for SExpr {
    type V = Sx;

    open spec fn view(&self) -> Sx {
        sexpr_view(*self)
    }
}

/// The text of an S-expression: atoms as written, list items separated by one space.
pub open spec fn sx_text(e: Sx) -> Seq<char>
    decreases e,
{
    match e {
        Sx::Atom(s) => s,
        Sx::List(items) => seq!['('] + items_text(items) + seq![')'],
    }
}

/// The texts of a sequence of S-expressions, separated by single spaces.
pub open spec fn items_text(s: Seq<Sx>) -> Seq<char>
    decreases s,
{
    if s.len() == 0 {
        Seq::empty()
    } else if s.len() == 1 {
        sx_text(s[0])
    } else {
        items_text(s.subrange(0, s.len() - 1)) + seq![' '] + sx_text(s[s.len() - 1])
    }
}

/// Extending a prefix of a sequence by one item adds a separator (but before the
/// first item) and that item's text.
pub proof fn lemma_items_text_extend(s: Seq<Sx>, i: int)
    requires
        0 <= i < s.len(),
    ensures
        items_text(s.subrange(0, i + 1)) == items_text(s.subrange(0, i)) + (if i > 0 {
            seq![' ']
        } else {
            Seq::empty()
        }) + sx_text(s[i]),
{
    let p = s.subrange(0, i + 1);
    assert(p.subrange(0, p.len() - 1) =~= s.subrange(0, i));
    assert(p[p.len() - 1] == s[i]);
    if i == 0 {
        assert(s.subrange(0, 0) =~= Seq::<Sx>::empty());
        assert(items_text(p) == sx_text(s[i]));
        assert(Seq::<char>::empty() + Seq::<char>::empty() + sx_text(s[i]) =~= sx_text(s[i]));
    }
}

impl SExpr {
    /// Renders the expression as text.
    pub fn to_text(&self) -> (r: String)
        ensures
            r@ == sx_text(self@),
        decreases self,
    {
        match self {
            SExpr::Atom(s) => s.clone(),
            SExpr::List(items) => {
                let mut acc = String::from_str("(");
                proof {
                    reveal_strlit("(");
                }
                let ghost v = sx_seq(items@);
                let mut i: usize = 0;
                while i < items.len()
                    invariant
                        i <= items@.len(),
                        *self == SExpr::List(*items),
                        v == sx_seq(items@),
                        acc@ == seq!['('] + items_text(v.subrange(0, i as int)),
                    decreases items@.len() - i,
                {
                    proof {
                        broadcast use vstd::std_specs::vec::axiom_vec_index_decreases;

                        assert(decreases_to!(*self => self->List_0));
                        assert(decreases_to!(self->List_0 => self->List_0[i as int]));
                    }
                    let t = items[i].to_text();
                    let ghost prev = acc@;
                    proof {
                        reveal_strlit(" ");
                    }
                    if i > 0 {
                        acc.append(" ");
                    }
                    acc.append(t.as_str());
                    proof {
                        lemma_items_text_extend(v, i as int);
                        let sep = if i > 0 {
                            seq![' ']
                        } else {
                            Seq::<char>::empty()
                        };
                        assert(acc@ =~= prev + sep + t@);
                        assert(acc@ =~= seq!['('] + (items_text(v.subrange(0, i as int)) + sep
                            + sx_text(v[i as int])));
                    }
                    i = i + 1;
                }
                assert(v.subrange(0, items@.len() as int) =~= v);
                proof {
                    reveal_strlit(")");
                }
                acc.append(")");
                acc
            },
        }
    }
}

/// Pushing an S-expression pushes its abstract form.
pub proof fn lemma_sx_seq_push(s: Seq<SExpr>, x: SExpr)
    ensures
        sx_seq(s.push(x)) == sx_seq(s).push(sexpr_view(x)),
{
    assert(sx_seq(s.push(x)) =~= sx_seq(s).push(sexpr_view(x)));
}

/// An atom holding the given text.
pub fn atom(s: &str) -> (r: SExpr)
    ensures
        r@ == Sx::Atom(s@),
{
    SExpr::Atom(String::from_str(s))
}

/// Appends an S-expression to a list under construction.
pub fn push_sx(out: &mut Vec<SExpr>, x: SExpr)
    ensures
        sx_seq(final(out)@) == sx_seq(old(out)@).push(x@),
{
    proof {
        lemma_sx_seq_push(old(out)@, x);
    }
    out.push(x);
}

} // verus!
