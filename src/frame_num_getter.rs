//! The frame-span analyzer: which frames a candidate instantiation mentions.
use crate::concrete::{QualIdentifier, Term, TermVal};
use crate::props::{
    everywhere, lemma_all_everywhere, lemma_bindings_everywhere, lemma_cases_everywhere, qid_symbol,
};
use crate::text::{frame_parts, is_immutable, name_is_immutable, split_frame};
use vstd::prelude::*;

verus! {

/// The symbol is a mutable variable at frame `f`.
pub open spec fn at_frame(s: Seq<char>, f: nat) -> bool {
    match frame_parts(s) {
        Some((name, i)) => i == f && !is_immutable(name),
        None => false,
    }
}

/// No identifier at this node is a mutable variable at frame `f`. (Names bound by
/// binders are not variables of the system and are not looked at.)
pub open spec fn node_pred(f: nat) -> spec_fn(TermVal) -> bool {
    |n: TermVal|
        match n {
            TermVal::Ident(q) => !at_frame(qid_symbol(q), f),
            TermVal::App(q, _) => !at_frame(qid_symbol(q), f),
            _ => true,
        }
}

/// Some identifier of the term is a mutable variable at frame `f`.
pub open spec fn has_frame(t: TermVal, f: nat) -> bool {
    !everywhere(t, node_pred(f))
}

/// The frames at which mutable variables occur in the term.
pub open spec fn frames_of(t: TermVal) -> Set<nat> {
    Set::new(|f: nat| has_frame(t, f))
}

/// The frames held in a list.
pub open spec fn frames_view(v: Seq<u64>) -> Set<nat> {
    Set::new(|f: nat| exists|i: int| 0 <= i < v.len() && v[i] as nat == f)
}

/// Collects the frames of the mutable variables that a term mentions.
pub struct FrameNumGetter {
    /// Each frame once.
    pub frame_nums: Vec<u64>,
}

impl FrameNumGetter {
    pub open spec fn wf(&self) -> bool {
        self.frame_nums@.no_duplicates()
    }

    pub open spec fn frames(&self) -> Set<nat> {
        frames_view(self.frame_nums@)
    }

    /// A getter that has seen no frame.
    pub fn new() -> (r: FrameNumGetter)
        ensures
            r.wf(),
            r.frames() == Set::<nat>::empty(),
    {
        let r = FrameNumGetter { frame_nums: Vec::new() };
        assert(r.frames() =~= Set::<nat>::empty());
        r
    }

    fn note(&mut self, f: u64)
        requires
            old(self).wf(),
        ensures
            final(self).wf(),
            final(self).frames() == old(self).frames().insert(f as nat),
    {
        let mut i: usize = 0;
        while i < self.frame_nums.len()
            invariant
                i <= self.frame_nums@.len(),
                self.frame_nums@ == old(self).frame_nums@,
                self.wf(),
                forall|j: int| 0 <= j < i ==> self.frame_nums@[j] != f,
            decreases self.frame_nums@.len() - i,
        {
            if self.frame_nums[i] == f {
                assert(self.frames() =~= old(self).frames().insert(f as nat));
                return;
            }
            i = i + 1;
        }
        self.frame_nums.push(f);
        assert(self.frame_nums@.no_duplicates()) by {
            assert forall|a: int, b: int| 0 <= a < b < self.frame_nums@.len() implies self.frame_nums@[a] != self.frame_nums@[b] by {
                if b < old(self).frame_nums@.len() {
                    assert(self.frame_nums@[a] == old(self).frame_nums@[a]);
                    assert(self.frame_nums@[b] == old(self).frame_nums@[b]);
                } else {
                    assert(self.frame_nums@[a] == old(self).frame_nums@[a]);
                }
            }
        }
        assert(self.frames() =~= old(self).frames().insert(f as nat)) by {
            assert forall|g: nat| #[trigger] self.frames().contains(g) == old(self).frames().insert(f as nat).contains(g) by {
                if old(self).frames().contains(g) {
                    let j = choose|j: int| 0 <= j < old(self).frame_nums@.len() && old(self).frame_nums@[j] as nat == g;
                    assert(self.frame_nums@[j] == old(self).frame_nums@[j]);
                }
                if g == f as nat {
                    assert(self.frame_nums@[self.frame_nums@.len() - 1] == f);
                }
                if self.frames().contains(g) {
                    let j = choose|j: int| 0 <= j < self.frame_nums@.len() && self.frame_nums@[j] as nat == g;
                    if j < old(self).frame_nums@.len() {
                        assert(self.frame_nums@[j] == old(self).frame_nums@[j]);
                    }
                }
            }
        }
    }

    /// Notes the frame of a symbol that is a mutable variable at some frame.
    fn note_symbol(&mut self, s: &String)
        requires
            old(self).wf(),
        ensures
            final(self).wf(),
            forall|f: nat| #[trigger] final(self).frames().contains(f) <==> (old(self).frames().contains(f) || at_frame(s@, f)),
    {
        match split_frame(s) {
            Some((name, i)) => {
                if !name_is_immutable(&name) {
                    self.note(i);
                }
            },
            None => {},
        }
    }

    /// Notes every frame at which a mutable variable occurs in the term.
    pub fn visit(&mut self, t: &Term)
        requires
            old(self).wf(),
        ensures
            final(self).wf(),
            final(self).frames() == old(self).frames() + frames_of(t@),
        decreases t,
    {
        proof {
            broadcast use vstd::std_specs::vec::axiom_vec_index_decreases;
        }
        let ghost tv = t@;
        match t {
            Term::Constant(_) => {
                assert forall|f: nat| !has_frame(tv, f) by {
                    assert(node_pred(f)(tv));
                }
                assert(frames_of(tv) =~= Set::<nat>::empty());
                assert(self.frames() =~= old(self).frames() + frames_of(tv));
            },
            Term::QualIdentifier(q) => {
                let name = match q {
                    QualIdentifier::Simple { identifier } => identifier,
                    QualIdentifier::Sorted { identifier, .. } => identifier,
                };
                self.note_symbol(name);
                assert(self.frames() =~= old(self).frames() + frames_of(tv));
            },
            Term::Application { qual_identifier, arguments } => {
                let name = match qual_identifier {
                    QualIdentifier::Simple { identifier } => identifier,
                    QualIdentifier::Sorted { identifier, .. } => identifier,
                };
                self.note_symbol(name);
                let ghost args = tv->App_1;
                let ghost mid = self.frames();
                let mut i: usize = 0;
                while i < arguments.len()
                    invariant
                        i <= arguments@.len(),
                        *t == (Term::Application { qual_identifier: *qual_identifier, arguments: *arguments }),
                        tv == t@,
                        args == tv->App_1,
                        self.wf(),
                        forall|f: nat| #[trigger] self.frames().contains(f) <==> (mid.contains(f) || exists|j: int| 0 <= j < i && has_frame(args[j], f)),
                    decreases arguments@.len() - i,
                {
                    proof {
                        assert(decreases_to!(*t => t->arguments));
                        assert(decreases_to!(t->arguments => t->arguments[i as int]));
                    }
                    let ghost before = self.frames();
                    self.visit(&arguments[i]);
                    assert forall|f: nat| #[trigger] self.frames().contains(f) <==> (mid.contains(f) || exists|j: int| 0 <= j < i + 1 && has_frame(args[j], f)) by {
                        if has_frame(args[i as int], f) {
                            assert(exists|j: int| 0 <= j < i + 1 && has_frame(args[j], f));
                        }
                        if exists|j: int| 0 <= j < i + 1 && has_frame(args[j], f) {
                            let j = choose|j: int| 0 <= j < i + 1 && has_frame(args[j], f);
                            if j < i {
                                assert(exists|j: int| 0 <= j < i && has_frame(args[j], f));
                            }
                        }
                    }
                    i = i + 1;
                }
                assert forall|f: nat| #[trigger] self.frames().contains(f) == (old(self).frames() + frames_of(tv)).contains(f) by {
                    lemma_all_everywhere(args, node_pred(f));
                }
                assert(self.frames() =~= old(self).frames() + frames_of(tv));
            },
            Term::Let { var_bindings, term } => {
                let ghost bs = tv->Let_0;
                let mut i: usize = 0;
                while i < var_bindings.len()
                    invariant
                        i <= var_bindings@.len(),
                        *t == (Term::Let { var_bindings: *var_bindings, term: *term }),
                        tv == t@,
                        bs == tv->Let_0,
                        self.wf(),
                        forall|f: nat| #[trigger] self.frames().contains(f) <==> (old(self).frames().contains(f)
                            || exists|j: int| 0 <= j < i && has_frame(bs[j].1, f)),
                    decreases var_bindings@.len() - i,
                {
                    proof {
                        assert(decreases_to!(*t => t->var_bindings));
                        assert(decreases_to!(t->var_bindings => t->var_bindings[i as int]));
                        assert(decreases_to!(t->var_bindings[i as int] => t->var_bindings[i as int].1));
                    }
                    self.visit(&var_bindings[i].1);
                    assert forall|f: nat| #[trigger] self.frames().contains(f) <==> (old(self).frames().contains(f)
                        || exists|j: int| 0 <= j < i + 1 && has_frame(bs[j].1, f)) by {
                        if has_frame(bs[i as int].1, f) {
                            assert(exists|j: int| 0 <= j < i + 1 && has_frame(bs[j].1, f));
                        }
                        if exists|j: int| 0 <= j < i + 1 && has_frame(bs[j].1, f) {
                            let j = choose|j: int| 0 <= j < i + 1 && has_frame(bs[j].1, f);
                            if j < i {
                                assert(exists|j: int| 0 <= j < i && has_frame(bs[j].1, f));
                            }
                        }
                    }
                    i = i + 1;
                }
                self.visit(term);
                assert forall|f: nat| #[trigger] self.frames().contains(f) == (old(self).frames() + frames_of(tv)).contains(f) by {
                    lemma_bindings_everywhere(bs, node_pred(f));
                }
                assert(self.frames() =~= old(self).frames() + frames_of(tv));
            },
            Term::Forall { term, .. } => {
                self.visit(term);
                assert(self.frames() =~= old(self).frames() + frames_of(tv));
            },
            Term::Exists { term, .. } => {
                self.visit(term);
                assert(self.frames() =~= old(self).frames() + frames_of(tv));
            },
            Term::Match { term, cases } => {
                self.visit(term);
                let ghost cs = tv->Match_1;
                let ghost mid = self.frames();
                let mut i: usize = 0;
                while i < cases.len()
                    invariant
                        i <= cases@.len(),
                        *t == (Term::Match { term: *term, cases: *cases }),
                        tv == t@,
                        cs == tv->Match_1,
                        self.wf(),
                        forall|f: nat| #[trigger] self.frames().contains(f) <==> (mid.contains(f)
                            || exists|j: int| 0 <= j < i && has_frame(cs[j].1, f)),
                    decreases cases@.len() - i,
                {
                    proof {
                        assert(decreases_to!(*t => t->cases));
                        assert(decreases_to!(t->cases => t->cases[i as int]));
                        assert(decreases_to!(t->cases[i as int] => t->cases[i as int].1));
                    }
                    self.visit(&cases[i].1);
                    assert forall|f: nat| #[trigger] self.frames().contains(f) <==> (mid.contains(f)
                        || exists|j: int| 0 <= j < i + 1 && has_frame(cs[j].1, f)) by {
                        if has_frame(cs[i as int].1, f) {
                            assert(exists|j: int| 0 <= j < i + 1 && has_frame(cs[j].1, f));
                        }
                        if exists|j: int| 0 <= j < i + 1 && has_frame(cs[j].1, f) {
                            let j = choose|j: int| 0 <= j < i + 1 && has_frame(cs[j].1, f);
                            if j < i {
                                assert(exists|j: int| 0 <= j < i && has_frame(cs[j].1, f));
                            }
                        }
                    }
                    i = i + 1;
                }
                assert forall|f: nat| #[trigger] self.frames().contains(f) == (old(self).frames() + frames_of(tv)).contains(f) by {
                    lemma_cases_everywhere(cs, node_pred(f));
                }
                assert(self.frames() =~= old(self).frames() + frames_of(tv));
            },
            Term::Attributes { term, .. } => {
                self.visit(term);
                assert(self.frames() =~= old(self).frames() + frames_of(tv));
            },
        }
    }
}

/// All frames lie within one step of each other: the candidate spans at most one transition.
pub open spec fn span_ok(f: Set<nat>) -> bool {
    forall|a: nat, b: nat| f.contains(a) && f.contains(b) ==> a <= b + 1
}

/// The least and greatest frame, or zero for both when there is none.
pub open spec fn frame_bounds(f: Set<nat>) -> (nat, nat) {
    if f =~= Set::<nat>::empty() {
        (0, 0)
    } else {
        (
            choose|lo: nat| f.contains(lo) && forall|b: nat| f.contains(b) ==> lo <= b,
            choose|hi: nat| f.contains(hi) && forall|b: nat| f.contains(b) ==> b <= hi,
        )
    }
}

/// The least and greatest frame of a set that has them.
pub proof fn lemma_frame_bounds(f: Set<nat>, lo: nat, hi: nat)
    requires
        f.contains(lo),
        f.contains(hi),
        forall|b: nat| f.contains(b) ==> lo <= b <= hi,
    ensures
        frame_bounds(f) == (lo, hi),
        span_ok(f) <==> hi <= lo + 1,
{
    assert(!(f =~= Set::<nat>::empty())) by {
        assert(f.contains(lo));
    }
    let clo = choose|x: nat| f.contains(x) && forall|b: nat| f.contains(b) ==> x <= b;
    let chi = choose|x: nat| f.contains(x) && forall|b: nat| f.contains(b) ==> b <= x;
    assert(f.contains(lo) && forall|b: nat| f.contains(b) ==> lo <= b);
    assert(f.contains(hi) && forall|b: nat| f.contains(b) ==> b <= hi);
    assert(clo <= lo && lo <= clo);
    assert(chi <= hi && hi <= chi);
    if hi <= lo + 1 {
        assert forall|a: nat, b: nat| f.contains(a) && f.contains(b) implies a <= b + 1 by {
            assert(a <= hi && lo <= b);
        }
    }
}

impl FrameNumGetter {
    /// The least and greatest frame seen, or zero for both when there is none.
    pub fn bounds(&self) -> (r: (u64, u64))
        requires
            self.wf(),
        ensures
            (r.0 as nat, r.1 as nat) == frame_bounds(self.frames()),
            self.frame_nums@.len() > 0 ==> self.frames().contains(r.0 as nat) && self.frames().contains(r.1 as nat)
                && forall|b: nat| self.frames().contains(b) ==> r.0 <= b <= r.1,
            self.frame_nums@.len() == 0 ==> self.frames() == Set::<nat>::empty(),
    {
        let n = self.frame_nums.len();
        if n == 0 {
            assert(self.frames() =~= Set::<nat>::empty());
            return (0, 0);
        }
        let mut lo = self.frame_nums[0];
        let mut hi = self.frame_nums[0];
        let mut i: usize = 1;
        while i < n
            invariant
                1 <= i <= n,
                n == self.frame_nums@.len(),
                exists|j: int| 0 <= j < i && self.frame_nums@[j] == lo,
                exists|j: int| 0 <= j < i && self.frame_nums@[j] == hi,
                forall|j: int| 0 <= j < i ==> lo <= #[trigger] self.frame_nums@[j] <= hi,
            decreases n - i,
        {
            let x = self.frame_nums[i];
            if x < lo {
                lo = x;
            }
            if x > hi {
                hi = x;
            }
            i = i + 1;
        }
        let ghost f = self.frames();
        assert(f.contains(lo as nat));
        assert(f.contains(hi as nat));
        assert forall|b: nat| f.contains(b) implies lo <= b && b <= hi by {
            let j = choose|j: int| 0 <= j < n && self.frame_nums@[j] as nat == b;
            assert(lo <= self.frame_nums@[j] <= hi);
        }
        proof {
            lemma_frame_bounds(f, lo as nat, hi as nat);
        }
        (lo, hi)
    }

    /// The distance between the least and the greatest frame seen (zero with fewer than two).
    pub fn max_min_difference(&self) -> (r: u64)
        requires
            self.wf(),
        ensures
            r as nat == frame_bounds(self.frames()).1 - frame_bounds(self.frames()).0,
    {
        let (lo, hi) = self.bounds();
        hi - lo
    }

    /// Whether all frames seen lie within one step of each other.
    pub fn spans_one_step(&self) -> (r: bool)
        requires
            self.wf(),
        ensures
            r == span_ok(self.frames()),
    {
        let (lo, hi) = self.bounds();
        if self.frame_nums.len() == 0 {
            return true;
        }
        proof {
            lemma_frame_bounds(self.frames(), lo as nat, hi as nat);
        }
        hi - lo <= 1
    }
}

} // verus!
