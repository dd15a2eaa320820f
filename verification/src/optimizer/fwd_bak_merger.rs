use vstd::prelude::*;

use crate::instruction::Instruction;
use crate::optimizer::{
    lemma_run_len_le, lemma_run_total_bound, merge_runs, mergeable, net_chunk, neg_chunk,
    pos_chunk, run_len, run_total, Optimize,
};

verus! {

/// Folds each maximal run of `FWD`/`BAK` instructions into the shortest
/// sequence with the same net displacement of the tape pointer.
pub struct FwdBakMerger;

/// Whether this pass folds the instruction.
fn is_move_op(x: Instruction) -> (b: bool)
    ensures
        b == mergeable(false, x),
{
    match x {
        Instruction::FWD(_) => true,
        Instruction::BAK(_) => true,
        _ => false,
    }
}

/// The net total and length of the maximal `FWD`/`BAK` run beginning at
/// `start`.
pub fn get_total_count_fwd_bak(instructions: &[Instruction], start: usize) -> (r: (i128, usize))
    requires
        start <= instructions@.len(),
    ensures
        r.0 as int == run_total(false, instructions@.skip(start as int)),
        r.1 as nat == run_len(false, instructions@.skip(start as int)),
{
    let s = Ghost(instructions@);
    let n = instructions.len();
    let mut total: i128 = 0;
    let mut j = start;
    while j < n && is_move_op(instructions[j])
        invariant
            start <= j <= n,
            n == s@.len(),
            s@ == instructions@,
            -255 * (j - start) <= total as int <= 255 * (j - start),
            run_total(false, s@.skip(start as int)) == total as int + run_total(
                false,
                s@.skip(j as int),
            ),
            run_len(false, s@.skip(start as int)) == (j - start) + run_len(
                false,
                s@.skip(j as int),
            ),
        decreases n - j,
    {
        proof {
            assert(s@.skip(j as int)[0] == s@[j as int]);
            assert(s@.skip(j as int).drop_first() =~= s@.skip(j as int + 1));
        }
        match instructions[j] {
            Instruction::FWD(y) => {
                total = total + y as i128;
            },
            Instruction::BAK(y) => {
                total = total - y as i128;
            },
            _ => {},
        }
        j = j + 1;
    }
    proof {
        if j < n {
            assert(s@.skip(j as int)[0] == s@[j as int]);
        } else {
            assert(s@.skip(j as int).len() == 0);
        }
    }
    (total, j - start)
}

/// Re-emits a net pointer displacement as the fewest `FWD` or `BAK`
/// instructions whose operands stay within 1..=255.
pub fn create_fwd_bak_instructions_from_total(total: i128) -> (r: Vec<Instruction>)
    requires
        -0xFF_0000_0000_0000_0000 <= total <= 0xFF_0000_0000_0000_0000,
    ensures
        r@ == net_chunk(false, total as int),
{
    let mut instructions: Vec<Instruction> = Vec::new();
    let mut t = total;
    if t > 0 {
        proof {
            assert(Seq::<Instruction>::empty() + pos_chunk(false, t as nat) =~= pos_chunk(
                false,
                t as nat,
            ));
        }
        while t > 255
            invariant
                1 <= t <= total,
                net_chunk(false, total as int) == instructions@ + pos_chunk(false, t as nat),
            decreases t,
        {
            let snap = Ghost(instructions@);
            instructions.push(Instruction::FWD(255));
            proof {
                assert(snap@ + (seq![Instruction::FWD(255u8)] + pos_chunk(false, (t - 255) as nat))
                    =~= snap@.push(Instruction::FWD(255u8)) + pos_chunk(false, (t - 255) as nat));
            }
            t = t - 255;
        }
        if t > 0 {
            let snap = Ghost(instructions@);
            instructions.push(Instruction::FWD(t as u8));
            proof {
                assert(snap@ + seq![Instruction::FWD(t as u8)] =~= snap@.push(
                    Instruction::FWD(t as u8),
                ));
            }
        }
    } else {
        let mut m = -t;
        proof {
            assert(Seq::<Instruction>::empty() + neg_chunk(false, m as nat) =~= neg_chunk(
                false,
                m as nat,
            ));
        }
        while m > 255
            invariant
                0 <= m,
                net_chunk(false, total as int) == instructions@ + neg_chunk(false, m as nat),
            decreases m,
        {
            let snap = Ghost(instructions@);
            instructions.push(Instruction::BAK(255));
            proof {
                assert(snap@ + (seq![Instruction::BAK(255u8)] + neg_chunk(false, (m - 255) as nat))
                    =~= snap@.push(Instruction::BAK(255u8)) + neg_chunk(false, (m - 255) as nat));
            }
            m = m - 255;
        }
        if m > 0 {
            let snap = Ghost(instructions@);
            instructions.push(Instruction::BAK(m as u8));
            proof {
                assert(snap@ + seq![Instruction::BAK(m as u8)] =~= snap@.push(
                    Instruction::BAK(m as u8),
                ));
            }
        } else {
            proof {
                assert(instructions@ + neg_chunk(false, 0) =~= instructions@);
            }
        }
    }
    instructions
}

impl Optimize for FwdBakMerger {
    fn optimize(&self, instructions: &[Instruction]) -> (r: Vec<Instruction>)
        ensures
            r@ == merge_runs(false, instructions@),
    {
        let s = Ghost(instructions@);
        let n = instructions.len();
        let mut result: Vec<Instruction> = Vec::new();
        let mut i: usize = 0;
        proof {
            assert(s@.skip(0) =~= s@);
            assert(Seq::<Instruction>::empty() + merge_runs(false, s@) =~= merge_runs(false, s@));
        }
        while i < n
            invariant
                i <= n,
                n == s@.len(),
                s@ == instructions@,
                merge_runs(false, s@) == result@ + merge_runs(false, s@.skip(i as int)),
            decreases n - i,
        {
            let x = instructions[i];
            proof {
                assert(s@.skip(i as int)[0] == s@[i as int]);
                assert(s@.skip(i as int).drop_first() =~= s@.skip(i as int + 1));
            }
            if is_move_op(x) {
                proof {
                    lemma_run_len_le(false, s@.skip(i as int));
                    lemma_run_total_bound(false, s@.skip(i as int));
                }
                let (total, count) = get_total_count_fwd_bak(instructions, i);
                let mut chunk = create_fwd_bak_instructions_from_total(total);
                let snap = Ghost(result@);
                proof {
                    assert(s@.skip(i as int).skip(count as int) =~= s@.skip(
                        i as int + count as int,
                    ));
                    assert(snap@ + (chunk@ + merge_runs(false, s@.skip(i as int + count as int)))
                        =~= (snap@ + chunk@) + merge_runs(false, s@.skip(i as int + count as int)));
                }
                result.append(&mut chunk);
                i = i + count;
            } else {
                let snap = Ghost(result@);
                result.push(x);
                proof {
                    assert(snap@ + (seq![x] + merge_runs(false, s@.skip(i as int + 1))) =~= snap@
                        .push(x) + merge_runs(false, s@.skip(i as int + 1)));
                }
                i = i + 1;
            }
        }
        proof {
            assert(s@.skip(n as int).len() == 0);
            assert(result@ + Seq::<Instruction>::empty() =~= result@);
        }
        result
    }
}

} // verus!
