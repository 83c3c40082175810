//! The extraction cost of the array e-graph's operators.
use vstd::prelude::*;

verus! {

/// An operator of the array e-graph language.
#[derive(Debug)]
pub enum ArrayOp {
    Num(i64),
    ConstArr,
    Write,
    Read,
    And,
    Not,
    Or,
    Implies,
    Eq,
    Geq,
    Gt,
    Leq,
    Lt,
    Plus,
    Negate,
    Times,
    Symbol(String),
}

/// The magnitude of an integer.
pub open spec fn magnitude(n: i64) -> nat {
    if n >= 0 {
        n as nat
    } else {
        (-n) as nat
    }
}

/// The cost of a node before its children: a frame-indexed symbol costs one, as
/// does every operator but `Write`, which costs ten; a symbol that is not
/// frame-indexed costs ten and an integer ten more than its magnitude. Every
/// node costs at least one, so cost grows with size; program variables are
/// preferred to every other leaf, and small integers to large ones.
pub open spec fn op_cost(op: ArrayOp) -> nat {
    match op {
        ArrayOp::Num(n) => 10 + magnitude(n),
        ArrayOp::Write => 10,
        ArrayOp::Symbol(s) => if s@.contains('@') {
            1
        } else {
            10
        },
        _ => 1,
    }
}

/// The cost function that prefers frame-indexed program variables when a term
/// is taken out of an e-class.
pub struct BestVariableSubstitution;

impl BestVariableSubstitution {
    /// The cost of a node whose children cost `child_costs`: its own cost plus
    /// theirs, saturating at `u32::MAX`.
    pub fn cost(&self, op: &ArrayOp, child_costs: &Vec<u32>) -> (r: u32)
        ensures
            r as int == min(op_cost(*op) + sum(child_costs@), u32::MAX as int),
    {
        let own: u64 = match op {
            ArrayOp::Num(n) => {
                if *n >= 0 {
                    if *n > (u32::MAX - 10) as i64 { u32::MAX as u64 } else { *n as u64 + 10 }
                } else if *n < -((u32::MAX - 10) as i64) {
                    u32::MAX as u64
                } else {
                    (-*n) as u64 + 10
                }
            },
            ArrayOp::Write => 10,
            ArrayOp::Symbol(s) => {
                if has_delimiter(s) {
                    1
                } else {
                    10
                }
            },
            _ => 1,
        };
        assert(own as int == min(op_cost(*op) as int, u32::MAX as int));
        let mut total: u64 = own;
        let mut i: usize = 0;
        while i < child_costs.len()
            invariant
                i <= child_costs@.len(),
                total as int == min(op_cost(*op) + sum(child_costs@.subrange(0, i as int)), u32::MAX as int),
            decreases child_costs@.len() - i,
        {
            proof {
                let s = child_costs@.subrange(0, i + 1);
                assert(s.drop_last() =~= child_costs@.subrange(0, i as int));
            }
            total = total + child_costs[i] as u64;
            if total > u32::MAX as u64 {
                total = u32::MAX as u64;
            }
            i = i + 1;
        }
        assert(child_costs@.subrange(0, child_costs@.len() as int) =~= child_costs@);
        total as u32
    }
}

pub open spec fn min(a: int, b: int) -> int {
    if a <= b {
        a
    } else {
        b
    }
}

/// The sum of the costs.
pub open spec fn sum(s: Seq<u32>) -> int
    decreases s.len(),
{
    if s.len() == 0 {
        0
    } else {
        sum(s.drop_last()) + s.last() as int
    }
}

/// Whether the symbol holds the frame delimiter.
pub fn has_delimiter(s: &String) -> (r: bool)
    ensures
        r == s@.contains('@'),
{
    let cs = crate::text::chars_of(s.as_str());
    let mut i: usize = 0;
    while i < cs.len()
        invariant
            i <= cs@.len(),
            cs@ == s@,
            forall|j: int| 0 <= j < i ==> cs@[j] != '@',
        decreases cs@.len() - i,
    {
        if cs[i] == '@' {
            assert(s@[i as int] == '@');
            return true;
        }
        i = i + 1;
    }
    false
}

} // verus!
