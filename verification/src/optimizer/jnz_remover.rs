use vstd::prelude::*;

use crate::instruction::Instruction;
use crate::optimizer::Optimize;

verus! {

/// Whether executing this instruction can change a cell of the tape.
pub open spec fn alters_memory(x: Instruction) -> bool {
    x is INC || x is DEC || x is IN || x is RND
}

/// Whether any instruction of the sequence can change a cell of the tape.
pub open spec fn has_memory_altering(s: Seq<Instruction>) -> bool {
    exists|i: int| 0 <= i < s.len() && alters_memory(s[i])
}

/// What the dead-loop pass yields: if nothing in the whole sequence can ever
/// change a cell, no conditional back-edge can ever be taken, so every `JNZ`
/// is dropped; otherwise the sequence is kept untouched.  The check is
/// deliberately global rather than scoped to each loop body, mirroring the
/// pass's observed behaviour.
pub open spec fn jnz_removed(s: Seq<Instruction>) -> Seq<Instruction> {
    if has_memory_altering(s) {
        s
    } else {
        s.filter(|x: Instruction| !(x is JNZ))
    }
}

/// Drops every `JNZ` from programs that can never change a cell of the tape.
pub struct JnzRemover;

impl JnzRemover {
    /// Whether no instruction of the sequence can change a cell.
    pub fn no_memory_altering_instructions(&self, instructions: &[Instruction]) -> (r: bool)
        ensures
            r == !has_memory_altering(instructions@),
    {
        let s = Ghost(instructions@);
        let n = instructions.len();
        let mut i: usize = 0;
        while i < n
            invariant
                i <= n,
                n == s@.len(),
                s@ == instructions@,
                forall|k: int| 0 <= k < i ==> !alters_memory(s@[k]),
            decreases n - i,
        {
            match instructions[i] {
                Instruction::INC(_) => {
                    return false;
                },
                Instruction::DEC(_) => {
                    return false;
                },
                Instruction::IN => {
                    return false;
                },
                Instruction::RND => {
                    return false;
                },
                _ => {},
            }
            i = i + 1;
        }
        true
    }
}

impl Optimize for JnzRemover {
    fn optimize(&self, instructions: &[Instruction]) -> (r: Vec<Instruction>)
        ensures
            r@ == jnz_removed(instructions@),
    {
        let s = Ghost(instructions@);
        let n = instructions.len();
        let mut result: Vec<Instruction> = Vec::new();
        let mut i: usize = 0;
        if self.no_memory_altering_instructions(instructions) {
            proof {
                reveal(Seq::filter);
                assert(s@.take(0).filter(|x: Instruction| !(x is JNZ)) =~= Seq::<
                    Instruction,
                >::empty());
            }
            while i < n
                invariant
                    i <= n,
                    n == s@.len(),
                    s@ == instructions@,
                    result@ == s@.take(i as int).filter(|x: Instruction| !(x is JNZ)),
                decreases n - i,
            {
                let x = instructions[i];
                proof {
                    reveal(Seq::filter);
                    assert(s@.take(i as int + 1).drop_last() =~= s@.take(i as int));
                    assert(s@.take(i as int + 1).last() == s@[i as int]);
                }
                match x {
                    Instruction::JNZ(_) => {},
                    _ => {
                        result.push(x);
                    },
                }
                i = i + 1;
            }
            proof {
                assert(s@.take(n as int) =~= s@);
            }
        } else {
            while i < n
                invariant
                    i <= n,
                    n == s@.len(),
                    s@ == instructions@,
                    result@ == s@.take(i as int),
                decreases n - i,
            {
                result.push(instructions[i]);
                proof {
                    assert(s@.take(i as int).push(s@[i as int]) =~= s@.take(i as int + 1));
                }
                i = i + 1;
            }
            proof {
                assert(s@.take(n as int) =~= s@);
            }
        }
        result
    }
}

} // verus!
