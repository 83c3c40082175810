//! The inverse of the unroller at one step, for reading back interpolants.
use crate::rewriter::{SymbolMap, SymbolRewriter};
use crate::text::{chars_of, frame_parts, split_frame, string_of};
use vstd::prelude::*;

verus! {

/// Rewrites `x@step` to `x` and `x@(step+1)` to `x_next`; other symbols are kept.
pub struct NumberedToSymbolic {
    pub step: u64,
}

/// The suffix of next-state names made from frame-indexed ones.
pub open spec fn next_suffix() -> Seq<char> {
    seq!['_', 'n', 'e', 'x', 't']
}

pub open spec fn symbolic_symbol(step: nat, s: Seq<char>) -> Seq<char> {
    match frame_parts(s) {
        None => s,
        Some((name, i)) => if i == step {
            name
        } else if i == step + 1 {
            name + next_suffix()
        } else {
            s
        },
    }
}

impl NumberedToSymbolic {
    pub fn add_step(&mut self)
        requires
            old(self).step < u64::MAX,
        ensures
            final(self).step == old(self).step + 1,
    {
        self.step = self.step + 1;
    }
}

impl SymbolMap for NumberedToSymbolic {
    open spec fn rewrite_spec(&self, s: Seq<char>) -> Seq<char> {
        symbolic_symbol(self.step as nat, s)
    }
}

impl SymbolRewriter for NumberedToSymbolic {
    fn process_symbol(&self, s: &String) -> (r: String) {
        match split_frame(s) {
            None => s.clone(),
            Some((name, i)) => {
                if i == self.step {
                    name
                } else if self.step < u64::MAX && i == self.step + 1 {
                    let mut cs = chars_of(name.as_str());
                    cs.push('_');
                    cs.push('n');
                    cs.push('e');
                    cs.push('x');
                    cs.push('t');
                    assert(cs@ =~= name@ + next_suffix());
                    string_of(&cs)
                } else {
                    s.clone()
                }
            },
        }
    }
}

} // verus!
