use vstd::prelude::*;

use crate::instruction::{
    balanced, depth_at, depth_sum, lemma_balanced_implies_matched, lemma_depth_sum_add,
    lemma_matched_implies_balanced, loops_matched, nest_delta, Instruction,
};

pub mod fwd_bak_merger;
pub mod if_eif_jmp_rewriter;
pub mod inc_dec_merger;
pub mod jnz_remover;

use self::fwd_bak_merger::FwdBakMerger;
use self::if_eif_jmp_rewriter::{lemma_rewrite_jumps_no_markers, rewrite_jumps, IfEifJmpRewriter};
use self::inc_dec_merger::IncDecMerger;

verus! {

/// A rewrite pass: a pure function from one instruction sequence to another.
pub trait Optimize {
    fn optimize(&self, instructions: &[Instruction]) -> Vec<Instruction>;
}

// The two merging passes fold maximal runs of paired instructions — `INC`
// with `DEC`, and `FWD` with `BAK` — into their net effect.  The spec
// functions below describe both passes at once: `cells` is true for the
// cell-arithmetic pair and false for the pointer-move pair.

/// Whether the pass folds this instruction.
pub open spec fn mergeable(cells: bool, x: Instruction) -> bool {
    if cells {
        x is INC || x is DEC
    } else {
        x is FWD || x is BAK
    }
}

/// The signed contribution of one instruction to a run's net total.
pub open spec fn merge_delta(cells: bool, x: Instruction) -> int {
    if cells {
        match x {
            Instruction::INC(n) => n as int,
            Instruction::DEC(n) => -(n as int),
            _ => 0,
        }
    } else {
        match x {
            Instruction::FWD(n) => n as int,
            Instruction::BAK(n) => -(n as int),
            _ => 0,
        }
    }
}

/// The pass's instruction for a positive step of `n`.
pub open spec fn pos_unit(cells: bool, n: u8) -> Instruction {
    if cells {
        Instruction::INC(n)
    } else {
        Instruction::FWD(n)
    }
}

/// The pass's instruction for a negative step of `n`.
pub open spec fn neg_unit(cells: bool, n: u8) -> Instruction {
    if cells {
        Instruction::DEC(n)
    } else {
        Instruction::BAK(n)
    }
}

/// The fewest positive-step instructions whose operands, each at most 255,
/// sum to `t`.
pub open spec fn pos_chunk(cells: bool, t: nat) -> Seq<Instruction>
    decreases t,
{
    if t == 0 {
        Seq::empty()
    } else if t > 255 {
        seq![pos_unit(cells, 255)] + pos_chunk(cells, (t - 255) as nat)
    } else {
        seq![pos_unit(cells, t as u8)]
    }
}

/// The fewest negative-step instructions whose operands sum to `t`.
pub open spec fn neg_chunk(cells: bool, t: nat) -> Seq<Instruction>
    decreases t,
{
    if t == 0 {
        Seq::empty()
    } else if t > 255 {
        seq![neg_unit(cells, 255)] + neg_chunk(cells, (t - 255) as nat)
    } else {
        seq![neg_unit(cells, t as u8)]
    }
}

/// The instructions re-emitted for a run whose net total is `t`: a zero
/// total emits nothing.
pub open spec fn net_chunk(cells: bool, t: int) -> Seq<Instruction> {
    if t >= 0 {
        pos_chunk(cells, t as nat)
    } else {
        neg_chunk(cells, (-t) as nat)
    }
}

/// The length of the maximal foldable run at the head of the sequence.
pub open spec fn run_len(cells: bool, s: Seq<Instruction>) -> nat
    decreases s.len(),
{
    if s.len() == 0 || !mergeable(cells, s[0]) {
        0
    } else {
        1 + run_len(cells, s.drop_first())
    }
}

/// The net total of the maximal foldable run at the head of the sequence.
pub open spec fn run_total(cells: bool, s: Seq<Instruction>) -> int
    decreases s.len(),
{
    if s.len() == 0 || !mergeable(cells, s[0]) {
        0
    } else {
        merge_delta(cells, s[0]) + run_total(cells, s.drop_first())
    }
}

pub proof fn lemma_run_len_le(cells: bool, s: Seq<Instruction>)
    ensures
        run_len(cells, s) <= s.len(),
    decreases s.len(),
{
    if s.len() > 0 && mergeable(cells, s[0]) {
        lemma_run_len_le(cells, s.drop_first());
    }
}

/// The result of one merging pass: each maximal foldable run is replaced by
/// the shortest re-encoding of its net total, everything else is kept as is.
pub open spec fn merge_runs(cells: bool, s: Seq<Instruction>) -> Seq<Instruction>
    decreases s.len(),
    via merge_runs_decreases
{
    if s.len() == 0 {
        Seq::empty()
    } else if mergeable(cells, s[0]) {
        let k = run_len(cells, s);
        net_chunk(cells, run_total(cells, s)) + merge_runs(cells, s.skip(k as int))
    } else {
        seq![s[0]] + merge_runs(cells, s.drop_first())
    }
}

#[via_fn]
proof fn merge_runs_decreases(cells: bool, s: Seq<Instruction>) {
    if s.len() > 0 && mergeable(cells, s[0]) {
        lemma_run_len_le(cells, s);
        assert(run_len(cells, s) >= 1);
    }
}

/// The magnitude of a run's net total is at most 255 per instruction.
pub proof fn lemma_run_total_bound(cells: bool, s: Seq<Instruction>)
    ensures
        -255 * s.len() <= run_total(cells, s) <= 255 * s.len(),
    decreases s.len(),
{
    if s.len() > 0 && mergeable(cells, s[0]) {
        lemma_run_total_bound(cells, s.drop_first());
    }
}

/// A maximal run ends at the end of the sequence or at the first
/// instruction the pass does not fold.
proof fn lemma_run_boundary(cells: bool, s: Seq<Instruction>)
    ensures
        run_len(cells, s) <= s.len(),
        run_len(cells, s) == s.len() || !mergeable(cells, s[run_len(cells, s) as int]),
    decreases s.len(),
{
    if s.len() > 0 && mergeable(cells, s[0]) {
        lemma_run_boundary(cells, s.drop_first());
        if run_len(cells, s) < s.len() {
            assert(s.drop_first()[run_len(cells, s.drop_first()) as int] == s[run_len(
                cells,
                s,
            ) as int]);
        }
    }
}

/// A positive chunk followed by anything the pass does not fold is itself a
/// maximal run whose net total is the chunk's total.
proof fn lemma_pos_chunk_run(cells: bool, t: nat, rest: Seq<Instruction>)
    requires
        rest.len() == 0 || !mergeable(cells, rest[0]),
    ensures
        run_len(cells, pos_chunk(cells, t) + rest) == pos_chunk(cells, t).len(),
        run_total(cells, pos_chunk(cells, t) + rest) == t,
        (pos_chunk(cells, t) + rest).skip(pos_chunk(cells, t).len() as int) == rest,
    decreases t,
{
    let c = pos_chunk(cells, t);
    if t == 0 {
        assert(c + rest =~= rest);
        assert((c + rest).skip(0) =~= rest);
    } else if t > 255 {
        let c2 = pos_chunk(cells, (t - 255) as nat);
        lemma_pos_chunk_run(cells, (t - 255) as nat, rest);
        assert(c == seq![pos_unit(cells, 255u8)] + c2);
        assert(c.len() == 1 + c2.len());
        assert((c + rest)[0] == pos_unit(cells, 255u8));
        assert(mergeable(cells, pos_unit(cells, 255u8)));
        assert(merge_delta(cells, pos_unit(cells, 255u8)) == 255);
        assert((c + rest).drop_first() =~= c2 + rest);
        assert(run_len(cells, c + rest) == 1 + run_len(cells, c2 + rest));
        assert(run_total(cells, c + rest) == 255 + run_total(cells, c2 + rest));
        assert((c + rest).skip(c.len() as int) =~= (c2 + rest).skip(c2.len() as int));
    } else {
        assert(c == seq![pos_unit(cells, t as u8)]);
        assert((c + rest)[0] == pos_unit(cells, t as u8));
        assert(mergeable(cells, pos_unit(cells, t as u8)));
        assert(merge_delta(cells, pos_unit(cells, t as u8)) == t);
        assert((c + rest).drop_first() =~= rest);
        assert(run_len(cells, c + rest) == 1 + run_len(cells, rest));
        assert(run_total(cells, c + rest) == t + run_total(cells, rest));
        assert((c + rest).skip(1) =~= rest);
    }
}

/// The mirror of [`lemma_pos_chunk_run`] for a negative chunk.
proof fn lemma_neg_chunk_run(cells: bool, t: nat, rest: Seq<Instruction>)
    requires
        rest.len() == 0 || !mergeable(cells, rest[0]),
    ensures
        run_len(cells, neg_chunk(cells, t) + rest) == neg_chunk(cells, t).len(),
        run_total(cells, neg_chunk(cells, t) + rest) == -(t as int),
        (neg_chunk(cells, t) + rest).skip(neg_chunk(cells, t).len() as int) == rest,
    decreases t,
{
    let c = neg_chunk(cells, t);
    if t == 0 {
        assert(c + rest =~= rest);
        assert((c + rest).skip(0) =~= rest);
    } else if t > 255 {
        let c2 = neg_chunk(cells, (t - 255) as nat);
        lemma_neg_chunk_run(cells, (t - 255) as nat, rest);
        assert(c == seq![neg_unit(cells, 255u8)] + c2);
        assert(c.len() == 1 + c2.len());
        assert((c + rest)[0] == neg_unit(cells, 255u8));
        assert(mergeable(cells, neg_unit(cells, 255u8)));
        assert(merge_delta(cells, neg_unit(cells, 255u8)) == -255);
        assert((c + rest).drop_first() =~= c2 + rest);
        assert(run_len(cells, c + rest) == 1 + run_len(cells, c2 + rest));
        assert(run_total(cells, c + rest) == -255 + run_total(cells, c2 + rest));
        assert((c + rest).skip(c.len() as int) =~= (c2 + rest).skip(c2.len() as int));
    } else {
        assert(c == seq![neg_unit(cells, t as u8)]);
        assert((c + rest)[0] == neg_unit(cells, t as u8));
        assert(mergeable(cells, neg_unit(cells, t as u8)));
        assert(merge_delta(cells, neg_unit(cells, t as u8)) == -(t as int));
        assert((c + rest).drop_first() =~= rest);
        assert(run_len(cells, c + rest) == 1 + run_len(cells, rest));
        assert(run_total(cells, c + rest) == -(t as int) + run_total(cells, rest));
        assert((c + rest).skip(1) =~= rest);
    }
}

/// A net chunk followed by anything the pass does not fold is a maximal run
/// whose net total is the chunk's.
proof fn lemma_net_chunk_run(cells: bool, t: int, rest: Seq<Instruction>)
    requires
        rest.len() == 0 || !mergeable(cells, rest[0]),
    ensures
        run_len(cells, net_chunk(cells, t) + rest) == net_chunk(cells, t).len(),
        run_total(cells, net_chunk(cells, t) + rest) == t,
        (net_chunk(cells, t) + rest).skip(net_chunk(cells, t).len() as int) == rest,
{
    if t >= 0 {
        lemma_pos_chunk_run(cells, t as nat, rest);
    } else {
        lemma_neg_chunk_run(cells, (-t) as nat, rest);
    }
}

/// The output of a merging pass never begins with an instruction the pass
/// folds, provided its input did not.
proof fn lemma_merge_boundary(cells: bool, s: Seq<Instruction>)
    requires
        s.len() == 0 || !mergeable(cells, s[0]),
    ensures
        merge_runs(cells, s).len() == 0 || !mergeable(cells, merge_runs(cells, s)[0]),
{
    if s.len() > 0 {
        assert(merge_runs(cells, s)[0] == s[0]);
    }
}

/// Each merging pass is idempotent: re-running it on its own output yields
/// that output again.  This holds for the cell-arithmetic pass and for the
/// pointer-move pass alike.
pub proof fn lemma_merge_runs_idempotent(cells: bool, s: Seq<Instruction>)
    ensures
        merge_runs(cells, merge_runs(cells, s)) == merge_runs(cells, s),
    decreases s.len(),
{
    if s.len() == 0 {
    } else if mergeable(cells, s[0]) {
        let k = run_len(cells, s);
        let t = run_total(cells, s);
        lemma_run_boundary(cells, s);
        let tail = s.skip(k as int);
        assert(tail.len() == 0 || !mergeable(cells, tail[0])) by {
            if k < s.len() {
                assert(tail[0] == s[k as int]);
            }
        }
        lemma_merge_runs_idempotent(cells, tail);
        let mt = merge_runs(cells, tail);
        lemma_merge_boundary(cells, tail);
        lemma_net_chunk_run(cells, t, mt);
        if t == 0 {
            assert(net_chunk(cells, t) + mt =~= mt);
        } else {
            assert(net_chunk(cells, t).len() > 0);
            assert((net_chunk(cells, t) + mt)[0] == net_chunk(cells, t)[0]);
            assert(mergeable(cells, net_chunk(cells, t)[0])) by {
                if t > 0 {
                    assert(pos_chunk(cells, t as nat)[0] == pos_unit(
                        cells,
                        if t > 255 {
                            255u8
                        } else {
                            t as u8
                        },
                    ));
                } else {
                    assert(neg_chunk(cells, (-t) as nat)[0] == neg_unit(
                        cells,
                        if -t > 255 {
                            255u8
                        } else {
                            (-t) as u8
                        },
                    ));
                }
            }
        }
    } else {
        let rest = s.drop_first();
        lemma_merge_runs_idempotent(cells, rest);
        let mr = merge_runs(cells, rest);
        assert((seq![s[0]] + mr).drop_first() =~= mr);
        assert((seq![s[0]] + mr)[0] == s[0]);
    }
}

/// Every instruction of a maximal run is one the pass folds.
proof fn lemma_run_prefix(cells: bool, s: Seq<Instruction>)
    ensures
        forall|m: int| 0 <= m < run_len(cells, s) ==> mergeable(cells, #[trigger] s[m]),
    decreases s.len(),
{
    if s.len() > 0 && mergeable(cells, s[0]) {
        lemma_run_prefix(cells, s.drop_first());
        lemma_run_len_le(cells, s.drop_first());
        assert forall|m: int| 0 <= m < run_len(cells, s) implies mergeable(
            cells,
            #[trigger] s[m],
        ) by {
            if m > 0 {
                assert(s.drop_first()[m - 1] == s[m]);
            }
        }
    }
}

/// A sequence of instructions that do not touch the block nesting has depth
/// delta zero everywhere.
proof fn lemma_zero_delta_depth(t: Seq<Instruction>)
    requires
        forall|i: int| 0 <= i < t.len() ==> nest_delta(#[trigger] t[i]) == 0,
    ensures
        depth_sum(t) == 0,
    decreases t.len(),
{
    if t.len() > 0 {
        assert forall|i: int| 0 <= i < t.drop_first().len() implies nest_delta(
            #[trigger] t.drop_first()[i],
        ) == 0 by {
            assert(t.drop_first()[i] == t[i + 1]);
        }
        lemma_zero_delta_depth(t.drop_first());
    }
}

/// The instructions a chunk re-emits never touch the block nesting.
proof fn lemma_chunk_zero_delta(cells: bool, t: int)
    ensures
        forall|i: int|
            0 <= i < net_chunk(cells, t).len() ==> nest_delta(#[trigger] net_chunk(cells, t)[i])
                == 0,
{
    if t >= 0 {
        lemma_pos_chunk_zero_delta(cells, t as nat);
    } else {
        lemma_neg_chunk_zero_delta(cells, (-t) as nat);
    }
}

proof fn lemma_pos_chunk_zero_delta(cells: bool, t: nat)
    ensures
        forall|i: int|
            0 <= i < pos_chunk(cells, t).len() ==> nest_delta(#[trigger] pos_chunk(cells, t)[i])
                == 0,
    decreases t,
{
    if t > 255 {
        lemma_pos_chunk_zero_delta(cells, (t - 255) as nat);
        assert forall|i: int| 0 <= i < pos_chunk(cells, t).len() implies nest_delta(
            #[trigger] pos_chunk(cells, t)[i],
        ) == 0 by {
            if i > 0 {
                assert(pos_chunk(cells, t)[i] == pos_chunk(cells, (t - 255) as nat)[i - 1]);
            }
        }
    }
}

proof fn lemma_neg_chunk_zero_delta(cells: bool, t: nat)
    ensures
        forall|i: int|
            0 <= i < neg_chunk(cells, t).len() ==> nest_delta(#[trigger] neg_chunk(cells, t)[i])
                == 0,
    decreases t,
{
    if t > 255 {
        lemma_neg_chunk_zero_delta(cells, (t - 255) as nat);
        assert forall|i: int| 0 <= i < neg_chunk(cells, t).len() implies nest_delta(
            #[trigger] neg_chunk(cells, t)[i],
        ) == 0 by {
            if i > 0 {
                assert(neg_chunk(cells, t)[i] == neg_chunk(cells, (t - 255) as nat)[i - 1]);
            }
        }
    }
}

/// A merging pass never changes the total nesting delta.
proof fn lemma_merge_depth_sum(cells: bool, s: Seq<Instruction>)
    ensures
        depth_sum(merge_runs(cells, s)) == depth_sum(s),
    decreases s.len(),
{
    if s.len() == 0 {
    } else if mergeable(cells, s[0]) {
        let k = run_len(cells, s) as int;
        let chunk = net_chunk(cells, run_total(cells, s));
        lemma_run_len_le(cells, s);
        lemma_run_prefix(cells, s);
        assert(s =~= s.take(k) + s.skip(k));
        lemma_depth_sum_add(s.take(k), s.skip(k));
        assert forall|i: int| 0 <= i < s.take(k).len() implies nest_delta(
            #[trigger] s.take(k)[i],
        ) == 0 by {
            assert(s.take(k)[i] == s[i]);
            assert(mergeable(cells, s[i]));
        }
        lemma_zero_delta_depth(s.take(k));
        lemma_chunk_zero_delta(cells, run_total(cells, s));
        lemma_zero_delta_depth(chunk);
        lemma_depth_sum_add(chunk, merge_runs(cells, s.skip(k)));
        lemma_merge_depth_sum(cells, s.skip(k));
    } else {
        lemma_merge_depth_sum(cells, s.drop_first());
        lemma_depth_sum_add(seq![s[0]], merge_runs(cells, s.drop_first()));
        assert(depth_sum(seq![s[0]]) == nest_delta(s[0])) by {
            assert(seq![s[0]][0] == s[0]);
            assert(seq![s[0]].drop_first() =~= Seq::<Instruction>::empty());
            assert(depth_sum(Seq::<Instruction>::empty()) == 0);
        }
        assert(s =~= seq![s[0]] + s.drop_first());
        lemma_depth_sum_add(seq![s[0]], s.drop_first());
    }
}

/// Every depth the merged sequence passes through is a depth the input
/// passed through.
proof fn lemma_merge_prefix_depth(cells: bool, s: Seq<Instruction>, m: int) -> (m2: int)
    requires
        0 <= m <= merge_runs(cells, s).len(),
    ensures
        0 <= m2 <= s.len(),
        depth_at(merge_runs(cells, s), m) == depth_at(s, m2),
    decreases s.len(),
{
    assert(s.take(0) =~= Seq::<Instruction>::empty());
    if s.len() == 0 {
        assert(merge_runs(cells, s).take(m) =~= Seq::<Instruction>::empty());
        0
    } else if mergeable(cells, s[0]) {
        let k = run_len(cells, s) as int;
        let t = run_total(cells, s);
        let chunk = net_chunk(cells, t);
        let rest = merge_runs(cells, s.skip(k));
        lemma_run_len_le(cells, s);
        lemma_chunk_zero_delta(cells, t);
        if m <= chunk.len() {
            assert((chunk + rest).take(m) =~= chunk.take(m));
            assert forall|i: int| 0 <= i < chunk.take(m).len() implies nest_delta(
                #[trigger] chunk.take(m)[i],
            ) == 0 by {
                assert(chunk.take(m)[i] == chunk[i]);
            }
            lemma_zero_delta_depth(chunk.take(m));
            0
        } else {
            let m2 = lemma_merge_prefix_depth(cells, s.skip(k), m - chunk.len());
            assert((chunk + rest).take(m) =~= chunk + rest.take(m - chunk.len()));
            lemma_depth_sum_add(chunk, rest.take(m - chunk.len()));
            lemma_zero_delta_depth(chunk);
            // relate a prefix depth of the remainder to one of the whole input
            assert(s.take(k + m2) =~= s.take(k) + s.skip(k).take(m2));
            lemma_depth_sum_add(s.take(k), s.skip(k).take(m2));
            lemma_run_prefix(cells, s);
            assert forall|i: int| 0 <= i < s.take(k).len() implies nest_delta(
                #[trigger] s.take(k)[i],
            ) == 0 by {
                assert(s.take(k)[i] == s[i]);
                assert(mergeable(cells, s[i]));
            }
            lemma_zero_delta_depth(s.take(k));
            k + m2
        }
    } else {
        let rest = merge_runs(cells, s.drop_first());
        if m == 0 {
            assert(merge_runs(cells, s).take(0) =~= Seq::<Instruction>::empty());
            0
        } else {
            let m2 = lemma_merge_prefix_depth(cells, s.drop_first(), m - 1);
            assert((seq![s[0]] + rest).take(m) =~= seq![s[0]] + rest.take(m - 1));
            lemma_depth_sum_add(seq![s[0]], rest.take(m - 1));
            assert(depth_sum(seq![s[0]]) == nest_delta(s[0])) by {
                assert(seq![s[0]][0] == s[0]);
                assert(seq![s[0]].drop_first() =~= Seq::<Instruction>::empty());
                assert(depth_sum(Seq::<Instruction>::empty()) == 0);
            }
            assert(s.take(1 + m2) =~= seq![s[0]] + s.drop_first().take(m2));
            lemma_depth_sum_add(seq![s[0]], s.drop_first().take(m2));
            1 + m2
        }
    }
}

/// A merging pass keeps every block of a matched program matched: the fold
/// never touches an `IF` or `EIF`, so the depth profile stays balanced.
pub proof fn lemma_merge_runs_keeps_matched(cells: bool, s: Seq<Instruction>)
    requires
        loops_matched(s),
    ensures
        loops_matched(merge_runs(cells, s)),
{
    lemma_matched_implies_balanced(s);
    let ms = merge_runs(cells, s);
    lemma_merge_depth_sum(cells, s);
    assert(ms.take(ms.len() as int) =~= ms);
    assert(s.take(s.len() as int) =~= s);
    assert forall|i: int| 0 <= i <= ms.len() implies depth_at(ms, i) >= 0 by {
        let m2 = lemma_merge_prefix_depth(cells, s, i);
    }
    lemma_balanced_implies_matched(ms);
}

/// The whole optimization chain keeps a parser-validated program runnable:
/// the merges keep every block matched and the jump rewrite then replaces
/// every block marker, so the result has nothing left to mismatch.
pub proof fn lemma_optimize_keeps_matched(s: Seq<Instruction>)
    requires
        loops_matched(s),
    ensures
        loops_matched(optimized(s)),
{
    lemma_merge_runs_keeps_matched(true, s);
    lemma_merge_runs_keeps_matched(false, merge_runs(true, s));
    lemma_rewrite_jumps_no_markers(merge_runs(false, merge_runs(true, s)));
}

/// The fixed chain of rewrite passes, applied in order: cell-arithmetic
/// merging, pointer-move merging, then the rewrite of `IF`/`EIF` blocks into
/// absolute jumps.
pub struct Optimizer;

impl Optimizer {
    pub fn new() -> (r: Self)
        ensures
            r == Optimizer,
    {
        Self
    }
}

impl Default for Optimizer {
    fn default() -> (r: Self)
        ensures
            r == Optimizer,
    {
        Self::new()
    }
}

/// What the fixed optimization chain yields: cell-arithmetic runs folded,
/// then pointer-move runs folded, then matched `IF`/`EIF` pairs turned into
/// absolute jumps.
pub open spec fn optimized(s: Seq<Instruction>) -> Seq<Instruction> {
    rewrite_jumps(merge_runs(false, merge_runs(true, s)))
}

impl Optimize for Optimizer {
    fn optimize(&self, instructions: &[Instruction]) -> (r: Vec<Instruction>)
        ensures
            r@ == optimized(instructions@),
    {
        let merged_cells = IncDecMerger.optimize(instructions);
        let merged_moves = FwdBakMerger.optimize(merged_cells.as_slice());
        IfEifJmpRewriter.optimize(merged_moves.as_slice())
    }
}

} // verus!
