use vstd::prelude::*;

use crate::instruction::{find_match_bwd, find_match_fwd, loops_matched, scan_bwd, scan_fwd,
    Instruction};
use crate::optimizer::Optimize;

verus! {

/// What the jump rewrite leaves at position `i`: an `IF` becomes a
/// jump-if-zero to its matching `EIF`, an `EIF` a jump-if-not-zero back to
/// its matching `IF`, and everything else is kept.  A marker whose match
/// does not exist is kept as it is; the parser never hands such a sequence
/// on.
pub open spec fn rewrite_at(s: Seq<Instruction>, i: int) -> Instruction {
    if s[i] is IF {
        match scan_fwd(s, i + 1, 1) {
            Some(j) => Instruction::JIZ(j as usize),
            None => s[i],
        }
    } else if s[i] is EIF {
        match scan_bwd(s, i - 1, -1) {
            Some(j) => Instruction::JNZ(j as usize),
            None => s[i],
        }
    } else {
        s[i]
    }
}

/// The whole sequence after the jump rewrite.  All matches are computed
/// against the input sequence, so replacing one pair never disturbs the
/// indices of another.
pub open spec fn rewrite_jumps(s: Seq<Instruction>) -> Seq<Instruction> {
    Seq::new(s.len(), |i: int| rewrite_at(s, i))
}

/// On a program with every block matched, the rewrite leaves no `IF` or
/// `EIF` behind, so nothing in its output can mismatch.
pub proof fn lemma_rewrite_jumps_no_markers(s: Seq<Instruction>)
    requires
        loops_matched(s),
    ensures
        forall|i: int|
            0 <= i < rewrite_jumps(s).len() ==> !(#[trigger] rewrite_jumps(s)[i] is IF) && !(
            rewrite_jumps(s)[i] is EIF),
        loops_matched(rewrite_jumps(s)),
{
    assert forall|i: int| 0 <= i < rewrite_jumps(s).len() implies !(
    #[trigger] rewrite_jumps(s)[i] is IF) && !(rewrite_jumps(s)[i] is EIF) by {
        assert(rewrite_jumps(s)[i] == rewrite_at(s, i));
    }
}

/// Replaces every matched `IF`/`EIF` pair with a pair of absolute
/// conditional jumps.
pub struct IfEifJmpRewriter;

impl Optimize for IfEifJmpRewriter {
    fn optimize(&self, instructions: &[Instruction]) -> (r: Vec<Instruction>)
        ensures
            r@ == rewrite_jumps(instructions@),
    {
        let s = Ghost(instructions@);
        let n = instructions.len();
        let mut result: Vec<Instruction> = Vec::new();
        let mut i: usize = 0;
        while i < n
            invariant
                i <= n,
                n == s@.len(),
                s@ == instructions@,
                result@.len() == i,
                forall|k: int| 0 <= k < i ==> result@[k] == rewrite_at(s@, k),
            decreases n - i,
        {
            match instructions[i] {
                Instruction::IF => {
                    match find_match_fwd(instructions, i) {
                        Some(j) => {
                            result.push(Instruction::JIZ(j));
                        },
                        None => {
                            result.push(Instruction::IF);
                        },
                    }
                },
                Instruction::EIF => {
                    match find_match_bwd(instructions, i) {
                        Some(j) => {
                            result.push(Instruction::JNZ(j));
                        },
                        None => {
                            result.push(Instruction::EIF);
                        },
                    }
                },
                x => {
                    result.push(x);
                },
            }
            i = i + 1;
        }
        proof {
            assert(result@ =~= rewrite_jumps(s@));
        }
        result
    }
}

} // verus!
