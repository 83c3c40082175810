//! The frame renamer that unrolls a transition system.
use crate::rewriter::{SymbolMap, SymbolRewriter};
use crate::concrete::strings_view;
use crate::text::{
    assoc, contains_name, framed, framed_symbol, is_immutable, lookup_pair, name_is_immutable,
    pairs_view,
};
use vstd::prelude::*;

verus! {

/// Renames the variables of one transition step: a current variable `x` becomes
/// `x@step` and a next variable of `x` becomes `x@(step+1)`; an immutable
/// variable keeps its bare name.
pub struct BMCBuilder {
    /// The mutable state variables and the actions.
    pub current_variables: Vec<String>,
    /// Pairs of a next name and the current name it belongs to.
    pub next_variables: Vec<(String, String)>,
    pub step: u8,
}

/// What the unroller makes of one symbol at step `step`.
pub open spec fn bmc_symbol(
    current: Seq<Seq<char>>,
    next_to_current: Seq<(Seq<char>, Seq<char>)>,
    step: nat,
    s: Seq<char>,
) -> Seq<char> {
    if current.contains(s) {
        framed(s, step)
    } else {
        match assoc(next_to_current, s) {
            Some(c) => if is_immutable(c) {
                c
            } else {
                framed(c, step + 1)
            },
            None => s,
        }
    }
}

impl BMCBuilder {
    /// Moves on to the next step.
    pub fn add_step(&mut self)
        requires
            old(self).step < 255,
        ensures
            final(self).step == old(self).step + 1,
            final(self).current_variables@ == old(self).current_variables@,
            final(self).next_variables@ == old(self).next_variables@,
    {
        self.step = self.step + 1;
    }
}

impl SymbolMap for BMCBuilder {
    open spec fn rewrite_spec(&self, s: Seq<char>) -> Seq<char> {
        bmc_symbol(
            strings_view(self.current_variables@),
            pairs_view(self.next_variables@),
            self.step as nat,
            s,
        )
    }
}

impl SymbolRewriter for BMCBuilder {
    fn process_symbol(&self, s: &String) -> (r: String) {
        if contains_name(&self.current_variables, s) {
            framed_symbol(s, self.step as u64)
        } else {
            match lookup_pair(&self.next_variables, s) {
                Some(c) => {
                    if name_is_immutable(&c) {
                        c
                    } else {
                        framed_symbol(&c, self.step as u64 + 1)
                    }
                },
                None => s.clone(),
            }
        }
    }
}

/// The renaming of one step, as a mathematical object.
pub struct FrameRenaming {
    pub current: Seq<Seq<char>>,
    pub next_to_current: Seq<(Seq<char>, Seq<char>)>,
    pub step: nat,
}

impl SymbolMap for FrameRenaming {
    open spec fn rewrite_spec(&self, s: Seq<char>) -> Seq<char> {
        bmc_symbol(self.current, self.next_to_current, self.step, s)
    }
}

impl BMCBuilder {
    /// The renaming that this builder performs.
    pub open spec fn renaming(&self) -> FrameRenaming {
        FrameRenaming {
            current: strings_view(self.current_variables@),
            next_to_current: pairs_view(self.next_variables@),
            step: self.step as nat,
        }
    }
}

/// A step's renaming leaves the names of the array signature alone when no
/// variable is named like them; with `lemma_abstraction_commutes`, unrolling the
/// abstracted system is then the abstraction of unrolling the system.
pub proof fn lemma_frame_renaming_avoids_array_names(fr: FrameRenaming)
    requires
        forall|i: int| 0 <= i < fr.current.len() ==> !crate::array_abstractor::array_name(#[trigger] fr.current[i]),
        forall|i: int| 0 <= i < fr.next_to_current.len() ==> !crate::array_abstractor::array_name(
            #[trigger] fr.next_to_current[i].0,
        ) && !crate::array_abstractor::array_name(fr.next_to_current[i].1),
    ensures
        crate::array_abstractor::avoids_array_names(&fr),
{
    reveal_strlit("select");
    reveal_strlit("store");
    reveal_strlit("const");
    reveal_strlit("Read-Int-Int");
    reveal_strlit("Write-Int-Int");
    reveal_strlit("ConstArr-Int-Int");
    assert forall|s: Seq<char>| crate::array_abstractor::array_name(s) implies #[trigger] fr.rewrite_spec(s) == s by {
        assert(!fr.current.contains(s));
        lemma_assoc_key(fr.next_to_current, s);
    }
    assert forall|s: Seq<char>| crate::array_abstractor::array_name(#[trigger] fr.rewrite_spec(s)) implies s == fr.rewrite_spec(s) by {
        let r = fr.rewrite_spec(s);
        if fr.current.contains(s) {
            lemma_framed_has_delimiter(s, fr.step);
        } else {
            lemma_assoc_value(fr.next_to_current, s);
            match assoc(fr.next_to_current, s) {
                Some(c) => {
                    if !is_immutable(c) {
                        lemma_framed_has_delimiter(c, fr.step + 1);
                    }
                },
                None => {},
            }
        }
    }
}

proof fn lemma_framed_has_delimiter(name: Seq<char>, i: nat)
    ensures
        framed(name, i).contains('@'),
        !crate::array_abstractor::array_name(framed(name, i)),
{
    reveal_strlit("select");
    reveal_strlit("store");
    reveal_strlit("const");
    reveal_strlit("Read-Int-Int");
    reveal_strlit("Write-Int-Int");
    reveal_strlit("ConstArr-Int-Int");
    let f = framed(name, i);
    assert(f[name.len() as int] == '@');
    if crate::array_abstractor::array_name(f) {
        assert(!"select"@.contains('@'));
        assert(!"store"@.contains('@'));
        assert(!"const"@.contains('@'));
        assert(!"Read-Int-Int"@.contains('@'));
        assert(!"Write-Int-Int"@.contains('@'));
        assert(!"ConstArr-Int-Int"@.contains('@'));
    }
}

proof fn lemma_assoc_key(pairs: Seq<(Seq<char>, Seq<char>)>, k: Seq<char>)
    requires
        forall|i: int| 0 <= i < pairs.len() ==> (#[trigger] pairs[i]).0 != k,
    ensures
        assoc(pairs, k) is None,
    decreases pairs.len(),
{
    if pairs.len() > 0 {
        let p = pairs.drop_last();
        assert forall|i: int| 0 <= i < p.len() implies (#[trigger] p[i]).0 != k by {
            assert(p[i] == pairs[i]);
        }
        assert(pairs.last() == pairs[pairs.len() - 1]);
        lemma_assoc_key(p, k);
    }
}

proof fn lemma_assoc_value(pairs: Seq<(Seq<char>, Seq<char>)>, k: Seq<char>)
    ensures
        assoc(pairs, k) matches Some(v) ==> exists|i: int| 0 <= i < pairs.len() && (#[trigger] pairs[i]).1 == v,
    decreases pairs.len(),
{
    if pairs.len() > 0 {
        let p = pairs.drop_last();
        lemma_assoc_value(p, k);
        if pairs.last().0 == k {
            assert(pairs[pairs.len() - 1].1 == pairs.last().1);
        } else if let Some(v) = assoc(p, k) {
            let i = choose|i: int| 0 <= i < p.len() && (#[trigger] p[i]).1 == v;
            assert(pairs[i] == p[i]);
        }
    }
}

} // verus!
