//! Maps a frame-indexed instantiation back to current and next state variables.
use crate::rewriter::{SymbolMap, SymbolRewriter, renamed};
use crate::props::all_symbols;
use crate::concrete::TermVal;
use crate::text::{
    assoc, frame_parts, is_frame_indexed, is_immutable, lemma_frame_name_unframed, lookup_pair,
    name_is_immutable, pairs_view, split_frame,
};
use vstd::prelude::*;

verus! {

/// Rewrites `x@first` to `x` and `x@last` to the next name of `x`; immutable
/// variables lose their frame at any index.
pub struct Instantiator {
    /// Pairs of a current name and its next name.
    pub current_to_next_variables: Vec<(String, String)>,
    pub first_frame: u64,
    pub last_frame: u64,
}

/// What the instantiator makes of one symbol.
pub open spec fn instantiate_symbol(
    current_to_next: Seq<(Seq<char>, Seq<char>)>,
    first: nat,
    last: nat,
    s: Seq<char>,
) -> Seq<char> {
    match frame_parts(s) {
        None => s,
        Some((name, i)) => if is_immutable(name) {
            name
        } else if i == first {
            name
        } else if i == last {
            match assoc(current_to_next, name) {
                Some(n) => n,
                None => s,
            }
        } else {
            s
        },
    }
}

impl SymbolMap for Instantiator {
    open spec fn rewrite_spec(&self, s: Seq<char>) -> Seq<char> {
        instantiate_symbol(
            pairs_view(self.current_to_next_variables@),
            self.first_frame as nat,
            self.last_frame as nat,
            s,
        )
    }
}

impl SymbolRewriter for Instantiator {
    fn process_symbol(&self, s: &String) -> (r: String) {
        match split_frame(s) {
            None => s.clone(),
            Some((name, i)) => {
                if name_is_immutable(&name) {
                    name
                } else if i == self.first_frame {
                    name
                } else if i == self.last_frame {
                    match lookup_pair(&self.current_to_next_variables, &name) {
                        Some(n) => n,
                        None => s.clone(),
                    }
                } else {
                    s.clone()
                }
            },
        }
    }
}

/// A symbol is ready for instantiation between frames `first` and `last`: if it is a
/// mutable variable at some frame, that frame is one of the two, and at `last`
/// (when it differs from `first`) the variable has a next name that is unframed.
pub open spec fn instantiable(
    current_to_next: Seq<(Seq<char>, Seq<char>)>,
    first: nat,
    last: nat,
    s: Seq<char>,
) -> bool {
    match frame_parts(s) {
        None => true,
        Some((name, i)) => is_immutable(name) || i == first || (i == last && match assoc(
            current_to_next,
            name,
        ) {
            Some(n) => !is_frame_indexed(n),
            None => false,
        }),
    }
}

/// For a candidate that spans at most one transition, with a next name for each
/// variable that occurs at the later frame, instantiation leaves no frame-indexed
/// symbol.
pub proof fn lemma_instantiation_unframed(inst: &Instantiator, t: TermVal)
    requires
        inst.first_frame <= inst.last_frame <= inst.first_frame + 1,
        all_symbols(
            t,
            |s: Seq<char>|
                instantiable(
                    pairs_view(inst.current_to_next_variables@),
                    inst.first_frame as nat,
                    inst.last_frame as nat,
                    s,
                ),
        ),
    ensures
        all_symbols(renamed(inst, t), |s: Seq<char>| !is_frame_indexed(s)),
{
    let m = pairs_view(inst.current_to_next_variables@);
    let p = |s: Seq<char>| instantiable(m, inst.first_frame as nat, inst.last_frame as nat, s);
    let q = |s: Seq<char>| !is_frame_indexed(inst.rewrite_spec(s));
    assert forall|s: Seq<char>| #[trigger] p(s) implies q(s) by {
        if frame_parts(s) is Some {
            lemma_frame_name_unframed(s);
        }
    }
    crate::props::lemma_symbols_mono(t, p, q);
    let pout = |s: Seq<char>| !is_frame_indexed(s);
    assert(q =~= |s: Seq<char>| pout(inst.rewrite_spec(s)));
    crate::props::lemma_renamed_symbols(inst, t, pout);
    assert(pout =~= |s: Seq<char>| !is_frame_indexed(s));
}

/// The instantiation of one candidate, as a mathematical object.
pub struct InstantiationMap {
    pub current_to_next: Seq<(Seq<char>, Seq<char>)>,
    pub first: nat,
    pub last: nat,
}

impl SymbolMap for InstantiationMap {
    open spec fn rewrite_spec(&self, s: Seq<char>) -> Seq<char> {
        instantiate_symbol(self.current_to_next, self.first, self.last, s)
    }
}

impl Instantiator {
    pub open spec fn map(&self) -> InstantiationMap {
        InstantiationMap {
            current_to_next: pairs_view(self.current_to_next_variables@),
            first: self.first_frame as nat,
            last: self.last_frame as nat,
        }
    }
}

} // verus!
