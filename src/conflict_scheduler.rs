//! Records the axiom instantiations that would merge two e-classes.
use crate::concrete::strings_view;
use crate::cost::has_delimiter;
use vstd::prelude::*;

verus! {

/// `(= lhs rhs)`.
pub open spec fn equation_text(lhs: Seq<char>, rhs: Seq<char>) -> Seq<char> {
    "(= "@ + lhs + " "@ + rhs + ")"@
}

/// A scheduler that, instead of applying a rule, records the ground equation
/// that applying it would add: those with a frame-indexed program variable are
/// candidate instantiations, the others (constants only) are kept apart.
pub struct ConflictScheduler<S> {
    pub inner: S,
    pub instantiations: Vec<String>,
    pub const_instantiations: Vec<String>,
}

impl<S> ConflictScheduler<S> {
    /// A scheduler around `scheduler` that has recorded nothing.
    pub fn new(scheduler: S) -> (r: ConflictScheduler<S>)
        ensures
            r.inner == scheduler,
            r.instantiations@.len() == 0,
            r.const_instantiations@.len() == 0,
    {
        ConflictScheduler { inner: scheduler, instantiations: Vec::new(), const_instantiations: Vec::new() }
    }

    /// The instantiations over program variables, in the order they were found.
    pub fn instantiations(&self) -> (r: Vec<String>)
        ensures
            strings_view(r@) == strings_view(self.instantiations@),
    {
        crate::concrete::copy_strings(&self.instantiations)
    }

    /// The instantiations over constants only, in the order they were found.
    pub fn instantiations_w_constants(&self) -> (r: Vec<String>)
        ensures
            strings_view(r@) == strings_view(self.const_instantiations@),
    {
        crate::concrete::copy_strings(&self.const_instantiations)
    }

    /// Looks at one match of a rule: `lhs` is the matched term and `rhs` the term the
    /// rule would equate it with, both taken out of the e-graph. Unless the rule's
    /// result is already in the matched e-class, the equation is a conflict and
    /// is recorded; it goes with the candidates when it mentions a frame-indexed
    /// symbol. Gives whether it was a conflict.
    pub fn record(&mut self, lhs: &String, rhs: &String, same_class: bool) -> (r: bool)
        ensures
            r == !same_class,
            final(self).inner == old(self).inner,
            same_class ==> strings_view(final(self).instantiations@) == strings_view(old(self).instantiations@)
                && strings_view(final(self).const_instantiations@) == strings_view(old(self).const_instantiations@),
            !same_class && equation_text(lhs@, rhs@).contains('@') ==> strings_view(final(self).instantiations@)
                == strings_view(old(self).instantiations@).push(equation_text(lhs@, rhs@)) && strings_view(
                final(self).const_instantiations@,
            ) == strings_view(old(self).const_instantiations@),
            !same_class && !equation_text(lhs@, rhs@).contains('@') ==> strings_view(final(self).const_instantiations@)
                == strings_view(old(self).const_instantiations@).push(equation_text(lhs@, rhs@)) && strings_view(
                final(self).instantiations@,
            ) == strings_view(old(self).instantiations@),
    {
        if same_class {
            return false;
        }
        let mut text = String::from_str("(= ");
        text.append(lhs.as_str());
        text.append(" ");
        text.append(rhs.as_str());
        text.append(")");
        if has_delimiter(&text) {
            let ghost before = self.instantiations@;
            self.instantiations.push(text);
            assert(strings_view(self.instantiations@) =~= strings_view(before).push(text@));
        } else {
            let ghost before = self.const_instantiations@;
            self.const_instantiations.push(text);
            assert(strings_view(self.const_instantiations@) =~= strings_view(before).push(text@));
        }
        true
    }
}

} // verus!
