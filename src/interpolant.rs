//! Reading back the output of a sequent interpolation tool.
use crate::concrete::{Term, TermVal, strings_view};
use crate::let_extract::{flatten, flatten_lets};
use crate::numbered_to_symbolic::NumberedToSymbolic;
use crate::rewriter::{SymbolRewriter, renamed, rewrite_term};
use crate::text::{chars_of, index_of, lemma_index_of_first, lines, string_of};
use crate::vmt::VMTError;
use vstd::prelude::*;

verus! {

proof fn lemma_lines_push(s: Seq<Seq<char>>, x: Seq<char>)
    requires
        s.len() > 0,
    ensures
        lines(s.push(x)) == lines(s) + seq!['\n'] + x,
{
    assert(s.push(x).drop_last() =~= s);
}

proof fn lemma_lines_extend_last(s: Seq<Seq<char>>, c: char)
    requires
        s.len() > 0,
    ensures
        lines(s.drop_last().push(s.last().push(c))) == lines(s).push(c),
{
    let t = s.drop_last().push(s.last().push(c));
    if s.len() == 1 {
        assert(t.len() == 1);
    } else {
        assert(t.drop_last() =~= s.drop_last());
        assert(lines(s) == lines(s.drop_last()) + seq!['\n'] + s.last());
    }
}

/// The lines of a text: the pieces between newlines, in order.
pub fn split_lines(text: &str) -> (r: Vec<String>)
    ensures
        r@.len() > 0,
        lines(strings_view(r@)) == text@,
        forall|i: int| 0 <= i < r@.len() ==> !(#[trigger] r@[i])@.contains('\n'),
{
    let cs = chars_of(text);
    let mut done: Vec<String> = Vec::new();
    let mut current: Vec<char> = Vec::new();
    let mut i: usize = 0;
    while i < cs.len()
        invariant
            i <= cs@.len(),
            cs@ == text@,
            lines(strings_view(done@).push(current@)) == text@.subrange(0, i as int),
            forall|j: int| 0 <= j < done@.len() ==> !(#[trigger] done@[j])@.contains('\n'),
            !current@.contains('\n'),
        decreases cs@.len() - i,
    {
        let c = cs[i];
        let ghost before = strings_view(done@).push(current@);
        if c == '\n' {
            let line = string_of(&current);
            let ghost dprev = done@;
            done.push(line);
            assert forall|j: int| 0 <= j < done@.len() implies !(#[trigger] done@[j])@.contains('\n') by {
                if j < dprev.len() {
                    assert(done@[j] == dprev[j]);
                }
            }
            current = Vec::new();
            assert(!current@.contains('\n'));
            proof {
                assert(strings_view(done@) =~= before);
                lemma_lines_push(before, Seq::empty());
                assert(strings_view(done@).push(current@) =~= before.push(Seq::empty()));
            }
        } else {
            current.push(c);
            assert(!current@.contains('\n')) by {
                assert forall|k: int| 0 <= k < current@.len() implies current@[k] != '\n' by {
                    if k < current@.len() - 1 {
                        assert(!before.last().contains('\n'));
                        assert(current@[k] == before.last()[k]);
                    }
                }
            }
            proof {
                lemma_lines_extend_last(before, c);
                assert(strings_view(done@).push(current@) =~= before.drop_last().push(before.last().push(c)));
            }
        }
        assert(text@.subrange(0, i + 1) =~= text@.subrange(0, i as int).push(c));
        i = i + 1;
    }
    let last = string_of(&current);
    let ghost before = done@;
    done.push(last);
    assert forall|j: int| 0 <= j < done@.len() implies !(#[trigger] done@[j])@.contains('\n') by {
        if j < before.len() {
            assert(done@[j] == before[j]);
        }
    }
    assert(strings_view(done@) =~= strings_view(before).push(current@));
    assert(text@.subrange(0, cs@.len() as int) =~= text@);
    done
}

/// The first line of a text that has a newline.
pub open spec fn first_line(o: Seq<char>) -> Seq<char> {
    o.subrange(0, index_of(o, '\n'))
}

/// The second line of a text that has a newline: up to the next newline or the end.
pub open spec fn second_line(o: Seq<char>) -> Seq<char> {
    let a = o.subrange(index_of(o, '\n') + 1, o.len() as int);
    if index_of(a, '\n') >= 0 {
        a.subrange(0, index_of(a, '\n'))
    } else {
        a
    }
}

/// The text of the conjunction of the sequent interpolant: the output's first
/// line reads `unsat` and its second `(i1 i2 ...)`, which becomes `(and i1 i2 ...)`.
pub open spec fn interpolant_text(o: Seq<char>) -> Option<Seq<char>> {
    if index_of(o, '\n') < 0 {
        None
    } else if first_line(o) != "unsat"@ {
        None
    } else if !(second_line(o).len() > 0 && second_line(o)[0] == '(') {
        None
    } else {
        Some(seq!['(', 'a', 'n', 'd', ' '] + second_line(o).subrange(1, second_line(o).len() as int))
    }
}

/// The interpolants of an interpolation tool's output: its first line must read
/// `unsat`, its second is the sequent interpolant `(i1 i2 ...)`; it is read as
/// `(and i1 i2 ...)` with every `let` inlined, and the conjuncts are the interpolants.
pub fn sequent_interpolants(output: &str) -> (r: Result<Vec<Term>, VMTError>)
    ensures
        r is Ok <==> (interpolant_text(output@) matches Some(txt) && crate::parser::read_term(txt) matches Some(t)
            && flatten(t) is App),
        r matches Ok(v) ==> crate::smt::terms_view(v@) == flatten(
            crate::parser::read_term(interpolant_text(output@)->0)->0,
        )->App_1,
        r matches Err(e) ==> e is ParseError,
        r matches Ok(v) ==> forall|i: int| 0 <= i < v@.len() ==> crate::let_extract::let_free(#[trigger] v@[i]@),
{
    let cs = chars_of(output);
    let n = cs.len();
    let mut k1: usize = 0;
    while k1 < n && cs[k1] != '\n'
        invariant
            k1 <= n,
            n == cs@.len(),
            forall|j: int| 0 <= j < k1 ==> cs@[j] != '\n',
        decreases n - k1,
    {
        k1 = k1 + 1;
    }
    proof {
        lemma_index_of_first(output@, '\n', k1 as int);
    }
    if k1 == n {
        return Err(VMTError::ParseError(String::from_str("interpolation output is too short")));
    }
    let line1 = crate::parser::slice_string(&cs, 0, k1);
    let unsat = String::from_str("unsat");
    if line1 != unsat {
        return Err(VMTError::ParseError(String::from_str("interpolation did not answer unsat")));
    }
    let ghost a = output@.subrange(k1 + 1, n as int);
    let mut k2: usize = k1 + 1;
    while k2 < n && cs[k2] != '\n'
        invariant
            k1 + 1 <= k2 <= n,
            n == cs@.len(),
            cs@ == output@,
            a == output@.subrange(k1 + 1, n as int),
            forall|j: int| 0 <= j < k2 - (k1 + 1) ==> a[j] != '\n',
        decreases n - k2,
    {
        assert(a[k2 - (k1 + 1)] == cs@[k2 as int]);
        k2 = k2 + 1;
    }
    proof {
        lemma_index_of_first(a, '\n', k2 - (k1 + 1));
        if k2 < n {
            assert(a[k2 - (k1 + 1)] == cs@[k2 as int]);
            assert(a.subrange(0, k2 - (k1 + 1)) =~= output@.subrange(k1 + 1, k2 as int));
        } else {
            assert(a =~= output@.subrange(k1 + 1, k2 as int));
        }
    }
    let ghost l2 = output@.subrange(k1 + 1, k2 as int);
    assert(second_line(output@) == l2);
    if k2 == k1 + 1 || cs[k1 + 1] != '(' {
        return Err(VMTError::ParseError(String::from_str("ill-formed sequent interpolant")));
    }
    let mut text: Vec<char> = Vec::new();
    text.push('(');
    text.push('a');
    text.push('n');
    text.push('d');
    text.push(' ');
    let mut k: usize = k1 + 2;
    while k < k2
        invariant
            k1 + 2 <= k <= k2,
            k2 <= n,
            n == cs@.len(),
            cs@ == output@,
            text@ == seq!['(', 'a', 'n', 'd', ' '] + output@.subrange(k1 + 2, k as int),
        decreases k2 - k,
    {
        text.push(cs[k]);
        assert(output@.subrange(k1 + 2, k + 1) =~= output@.subrange(k1 + 2, k as int).push(cs@[k as int]));
        k = k + 1;
    }
    assert(l2.subrange(1, l2.len() as int) =~= output@.subrange(k1 + 2, k2 as int));
    assert(interpolant_text(output@) == Some(text@));
    let txt = string_of(&text);
    let term = match crate::parser::parse_term(txt.as_str()) {
        Ok(t) => t,
        Err(_) => {
            return Err(VMTError::ParseError(String::from_str("unreadable sequent interpolant")));
        },
    };
    let flat = flatten_lets(&term);
    proof {
        crate::let_extract::lemma_flatten_let_free(term@, Seq::empty());
    }
    match flat {
        Term::Application { arguments, .. } => {
            proof {
                crate::let_extract::lemma_all_let_free_seq(flat@->App_1);
                assert forall|i: int| 0 <= i < arguments@.len() implies crate::let_extract::let_free(#[trigger] arguments@[i]@) by {
                    assert(arguments@[i]@ == flat@->App_1[i]);
                }
                assert(crate::smt::terms_view(arguments@) =~= flat@->App_1);
            }
            Ok(arguments)
        },
        _ => Err(VMTError::ParseError(String::from_str("sequent interpolant is not a conjunction"))),
    }
}

/// An interpolant and its reading over current and next state variables.
pub struct Interpolant {
    pub original_term: Term,
    pub new_term: Term,
}

impl Interpolant {
    /// The interpolant of step `interpolant_number`, with `x@n` read as `x` and
    /// `x@(n+1)` as `x_next`.
    pub fn from(term: &Term, interpolant_number: u64) -> (r: Interpolant)
        ensures
            r.original_term@ == term@,
            r.new_term@ == renamed(&NumberedToSymbolic { step: interpolant_number }, term@),
    {
        let builder = NumberedToSymbolic { step: interpolant_number };
        let new_term = rewrite_term(&builder, term);
        Interpolant { original_term: term.copy(), new_term }
    }
}

} // verus!
