use vstd::prelude::*;

verus! {

/// One opcode of the word-length encoded language.
///
/// `END` halts the machine.  `IF`/`EIF` delimit a conditional block and are
/// matched like parentheses.  `INC`/`DEC` add to or subtract from the current
/// cell modulo 256, `FWD`/`BAK` move the tape pointer, `OUT`/`IN` perform
/// byte I/O on the current cell and `RND` stores a random byte in it.
/// `JIZ`/`JNZ`/`JMP` are absolute jumps; the parser never produces them, they
/// are introduced by the optimizer in place of `IF`/`EIF` pairs.
#[derive(Clone, Copy, Debug, PartialEq, Eq, Structural)]
pub enum Instruction {
    END,
    IF,
    EIF,
    INC(u8),
    DEC(u8),
    FWD(u8),
    BAK(u8),
    OUT,
    IN,
    RND,
    JIZ(usize),
    JNZ(usize),
    JMP(usize),
}

/// Contribution of one instruction to the `IF`/`EIF` nesting depth.
pub open spec fn nest_delta(x: Instruction) -> int {
    match x {
        Instruction::IF => 1,
        Instruction::EIF => -1,
        _ => 0,
    }
}

/// Forward balanced-nesting scan.  Starting with the given nesting counter
/// just before position `p`, it adds the delta of each instruction from `p`
/// on and stops at the first position where the counter reaches zero.
/// `None` means the scan ran past the end of the sequence.
pub open spec fn scan_fwd(s: Seq<Instruction>, p: int, nested: int) -> Option<int>
    decreases s.len() - p,
{
    if p < 0 || p >= s.len() {
        None
    } else {
        let n2 = nested + nest_delta(s[p]);
        if n2 == 0 {
            Some(p)
        } else {
            scan_fwd(s, p + 1, n2)
        }
    }
}

/// Backward balanced-nesting scan, the mirror of [`scan_fwd`]: it subtracts
/// positions downward from `p` and stops where the counter reaches zero.
/// `None` means the scan ran past the start of the sequence.
pub open spec fn scan_bwd(s: Seq<Instruction>, p: int, nested: int) -> Option<int>
    decreases p + 1,
{
    if p < 0 || p >= s.len() {
        None
    } else {
        let n2 = nested + nest_delta(s[p]);
        if n2 == 0 {
            Some(p)
        } else if p == 0 {
            None
        } else {
            scan_bwd(s, p - 1, n2)
        }
    }
}

/// Every `IF` in the sequence has a matching `EIF` reachable by a forward
/// balanced-nesting scan, and every `EIF` a matching `IF` by a backward scan.
/// The parser establishes this for every program it accepts.
pub open spec fn loops_matched(s: Seq<Instruction>) -> bool {
    forall|i: int|
        0 <= i < s.len() ==> {
            &&& (s[i] is IF ==> scan_fwd(s, i + 1, 1) is Some)
            &&& (s[i] is EIF ==> scan_bwd(s, i - 1, -1) is Some)
        }
}

/// A successful forward scan that starts with a positive counter lands on an
/// `EIF` strictly inside the sequence.
pub proof fn lemma_scan_fwd_some(s: Seq<Instruction>, p: int, nested: int)
    requires
        nested >= 1,
        scan_fwd(s, p, nested) is Some,
    ensures
        p <= scan_fwd(s, p, nested)->Some_0 < s.len(),
        s[scan_fwd(s, p, nested)->Some_0] is EIF,
    decreases s.len() - p,
{
    let n2 = nested + nest_delta(s[p]);
    if n2 == 0 {
    } else {
        lemma_scan_fwd_some(s, p + 1, n2);
    }
}

// The balanced-nesting scans above match blocks one at a time.  The theory
// below characterizes them through the nesting-depth profile of the whole
// sequence, which is what survives the optimizer's rewrites: a sequence
// keeps every block matched exactly when its depth profile never drops
// below zero and ends at zero.

/// The total `IF`/`EIF` nesting delta of a sequence.
pub open spec fn depth_sum(s: Seq<Instruction>) -> int
    decreases s.len(),
{
    if s.len() == 0 {
        0
    } else {
        nest_delta(s[0]) + depth_sum(s.drop_first())
    }
}

/// The nesting depth just before position `i`.
pub open spec fn depth_at(s: Seq<Instruction>, i: int) -> int {
    depth_sum(s.take(i))
}

/// The depth profile never drops below zero and ends at zero.
pub open spec fn balanced(s: Seq<Instruction>) -> bool {
    &&& depth_at(s, s.len() as int) == 0
    &&& forall|i: int| 0 <= i <= s.len() ==> depth_at(s, i) >= 0
}

pub proof fn lemma_depth_sum_add(a: Seq<Instruction>, b: Seq<Instruction>)
    ensures
        depth_sum(a + b) == depth_sum(a) + depth_sum(b),
    decreases a.len(),
{
    if a.len() == 0 {
        assert(a + b =~= b);
    } else {
        assert((a + b).drop_first() =~= a.drop_first() + b);
        assert((a + b)[0] == a[0]);
        lemma_depth_sum_add(a.drop_first(), b);
    }
}

/// One position advances the depth by that instruction's delta.
pub proof fn lemma_depth_at_step(s: Seq<Instruction>, i: int)
    requires
        0 <= i < s.len(),
    ensures
        depth_at(s, i + 1) == depth_at(s, i) + nest_delta(s[i]),
{
    assert(s.take(i + 1) =~= s.take(i) + seq![s[i]]);
    lemma_depth_sum_add(s.take(i), seq![s[i]]);
    assert(depth_sum(seq![s[i]]) == nest_delta(s[i])) by {
        assert(seq![s[i]][0] == s[i]);
        assert(seq![s[i]].drop_first() =~= Seq::<Instruction>::empty());
        assert(depth_sum(Seq::<Instruction>::empty()) == 0);
    }
}

/// A successful forward scan lands where the depth returns to its starting
/// level.
pub proof fn lemma_scan_fwd_sound(s: Seq<Instruction>, p: int, n: int)
    requires
        0 <= p,
        scan_fwd(s, p, n) is Some,
    ensures
        ({
            let j = scan_fwd(s, p, n)->Some_0;
            p <= j < s.len() && n + depth_at(s, j + 1) - depth_at(s, p) == 0
        }),
    decreases s.len() - p,
{
    let n2 = n + nest_delta(s[p]);
    lemma_depth_at_step(s, p);
    if n2 == 0 {
    } else {
        lemma_scan_fwd_sound(s, p + 1, n2);
    }
}

/// A position where the depth returns to its starting level guarantees the
/// forward scan succeeds.
pub proof fn lemma_scan_fwd_complete(s: Seq<Instruction>, p: int, n: int, j: int)
    requires
        0 <= p <= j < s.len(),
        n + depth_at(s, j + 1) - depth_at(s, p) == 0,
    ensures
        scan_fwd(s, p, n) is Some,
    decreases s.len() - p,
{
    let n2 = n + nest_delta(s[p]);
    lemma_depth_at_step(s, p);
    if n2 == 0 {
    } else {
        lemma_scan_fwd_complete(s, p + 1, n2, j);
    }
}

/// A successful backward scan lands where the depth equals the level the
/// scan is looking for.
pub proof fn lemma_scan_bwd_sound(s: Seq<Instruction>, p: int, n: int)
    requires
        p < s.len(),
        scan_bwd(s, p, n) is Some,
    ensures
        ({
            let j = scan_bwd(s, p, n)->Some_0;
            0 <= j <= p && n + depth_at(s, p + 1) - depth_at(s, j) == 0
        }),
    decreases p + 1,
{
    let n2 = n + nest_delta(s[p]);
    lemma_depth_at_step(s, p);
    if n2 == 0 {
    } else {
        lemma_scan_bwd_sound(s, p - 1, n2);
    }
}

/// A position where the depth equals the level sought guarantees the
/// backward scan succeeds.
pub proof fn lemma_scan_bwd_complete(s: Seq<Instruction>, p: int, n: int, j: int)
    requires
        0 <= j <= p < s.len(),
        n + depth_at(s, p + 1) - depth_at(s, j) == 0,
    ensures
        scan_bwd(s, p, n) is Some,
    decreases p + 1,
{
    let n2 = n + nest_delta(s[p]);
    lemma_depth_at_step(s, p);
    if n2 == 0 {
    } else {
        lemma_scan_bwd_complete(s, p - 1, n2, j);
    }
}

/// The depth changes by one step at a time, so between a level above the
/// target and one at or below it, it passes through the target.
proof fn lemma_depth_crossing_down(s: Seq<Instruction>, a: int, b: int, target: int)
    requires
        0 <= a <= b <= s.len(),
        depth_at(s, a) > target,
        depth_at(s, b) <= target,
    ensures
        exists|q: int| a < q <= b && depth_at(s, q) == target,
    decreases b - a,
{
    lemma_depth_at_step(s, a);
    if depth_at(s, a + 1) == target {
        assert(a < a + 1 <= b && depth_at(s, a + 1) == target);
    } else {
        lemma_depth_crossing_down(s, a + 1, b, target);
    }
}

/// The mirror of [`lemma_depth_crossing_down`] toward lower positions.
proof fn lemma_depth_crossing_up(s: Seq<Instruction>, a: int, b: int, target: int)
    requires
        0 <= a <= b <= s.len(),
        depth_at(s, a) <= target,
        depth_at(s, b) > target,
    ensures
        exists|q: int| a <= q < b && depth_at(s, q) == target,
    decreases b - a,
{
    lemma_depth_at_step(s, b - 1);
    if depth_at(s, b - 1) == target {
        assert(a <= b - 1 < b && depth_at(s, b - 1) == target);
    } else {
        lemma_depth_crossing_up(s, a, b - 1, target);
    }
}

/// The first position where the depth drops below zero, if any does.
proof fn lemma_first_drop(s: Seq<Instruction>, k: int) -> (q: int)
    requires
        0 <= k <= s.len(),
        forall|m: int| 0 <= m < k ==> depth_at(s, m) >= 0,
        exists|i: int| k <= i <= s.len() && depth_at(s, i) < 0,
    ensures
        0 < q <= s.len(),
        depth_at(s, q) < 0,
        forall|m: int| 0 <= m < q ==> depth_at(s, m) >= 0,
    decreases s.len() - k,
{
    assert(s.take(0) =~= Seq::<Instruction>::empty());
    if depth_at(s, k) < 0 {
        k
    } else {
        let i = choose|i: int| k <= i <= s.len() && depth_at(s, i) < 0;
        assert(k + 1 <= i <= s.len() && depth_at(s, i) < 0);
        lemma_first_drop(s, k + 1)
    }
}

/// The last position where the depth is zero, in a profile that starts at
/// zero and is nonzero at `b`.
proof fn lemma_last_zero(s: Seq<Instruction>, b: int) -> (q: int)
    requires
        0 < b <= s.len(),
        depth_at(s, b) != 0,
    ensures
        0 <= q < b,
        depth_at(s, q) == 0,
        forall|m: int| q < m <= b ==> depth_at(s, m) != 0,
    decreases b,
{
    assert(s.take(0) =~= Seq::<Instruction>::empty());
    if depth_at(s, b - 1) == 0 {
        b - 1
    } else {
        lemma_last_zero(s, b - 1)
    }
}

/// A sequence whose blocks all match has a balanced depth profile.
pub proof fn lemma_matched_implies_balanced(s: Seq<Instruction>)
    requires
        loops_matched(s),
    ensures
        balanced(s),
{
    assert(s.take(0) =~= Seq::<Instruction>::empty());
    assert forall|i: int| 0 <= i <= s.len() implies depth_at(s, i) >= 0 by {
        if depth_at(s, i) < 0 {
            let q = lemma_first_drop(s, 0);
            lemma_depth_at_step(s, q - 1);
            assert(nest_delta(s[q - 1]) < 0);
            assert(s[q - 1] is EIF);
            assert(depth_at(s, q - 1) == 0);
            if q - 1 == 0 {
                assert(scan_bwd(s, q - 2, -1) is None);
            } else {
                lemma_scan_bwd_sound(s, q - 2, -1);
                let j = scan_bwd(s, q - 2, -1)->Some_0;
                assert(depth_at(s, j) == depth_at(s, q - 1) - 1);
            }
            assert(false);
        }
    }
    let len = s.len() as int;
    if depth_at(s, len) != 0 {
        let q = lemma_last_zero(s, len);
        lemma_depth_at_step(s, q);
        assert(depth_at(s, q + 1) >= 0);
        assert(nest_delta(s[q]) > 0);
        assert(s[q] is IF);
        lemma_scan_fwd_sound(s, q + 1, 1);
        let j = scan_fwd(s, q + 1, 1)->Some_0;
        assert(depth_at(s, j + 1) == 0);
        assert(false);
    }
}

/// A sequence with a balanced depth profile has all its blocks matched.
pub proof fn lemma_balanced_implies_matched(s: Seq<Instruction>)
    requires
        balanced(s),
    ensures
        loops_matched(s),
{
    assert(s.take(0) =~= Seq::<Instruction>::empty());
    let len = s.len() as int;
    assert(s.take(len) =~= s);
    assert forall|i: int| 0 <= i < s.len() && s[i] is IF implies scan_fwd(s, i + 1, 1) is Some by {
        lemma_depth_at_step(s, i);
        lemma_depth_crossing_down(s, i + 1, len, depth_at(s, i));
        let q = choose|q: int| i + 1 < q <= len && depth_at(s, q) == depth_at(s, i);
        lemma_scan_fwd_complete(s, i + 1, 1, q - 1);
    }
    assert forall|i: int| 0 <= i < s.len() && s[i] is EIF implies scan_bwd(s, i - 1, -1) is Some by {
        lemma_depth_at_step(s, i);
        lemma_depth_crossing_up(s, 0, i, depth_at(s, i) - 1);
        let q = choose|q: int| 0 <= q < i && depth_at(s, q) == depth_at(s, i) - 1;
        lemma_scan_bwd_complete(s, i - 1, -1, q);
    }
}

/// Finds the `EIF` matching the block opened just before position `i + 1`,
/// scanning forward with a nesting counter; `None` if the block is unclosed.
pub fn find_match_fwd(instructions: &[Instruction], i: usize) -> (r: Option<usize>)
    requires
        i < instructions@.len(),
    ensures
        match r {
            Some(j) => scan_fwd(instructions@, i + 1, 1) == Some(j as int) && i < j
                < instructions@.len() && instructions@[j as int] is EIF,
            None => scan_fwd(instructions@, i + 1, 1) is None,
        },
{
    let s = Ghost(instructions@);
    let len = instructions.len();
    let mut p = i + 1;
    let mut nested: usize = 1;
    loop
        invariant
            i < p <= len,
            1 <= nested <= p - i,
            len == s@.len(),
            s@ == instructions@,
            scan_fwd(s@, i + 1, 1) == scan_fwd(s@, p as int, nested as int),
        decreases len - p,
    {
        if p >= len {
            return None;
        }
        match instructions[p] {
            Instruction::IF => {
                nested = nested + 1;
            },
            Instruction::EIF => {
                if nested == 1 {
                    proof {
                        lemma_scan_fwd_some(s@, p as int, 1);
                    }
                    return Some(p);
                }
                nested = nested - 1;
            },
            _ => {},
        }
        p = p + 1;
    }
}

/// Finds the `IF` matching the block closed just after position `i - 1`,
/// scanning backward with a nesting counter; `None` if the block was never
/// opened.
pub fn find_match_bwd(instructions: &[Instruction], i: usize) -> (r: Option<usize>)
    requires
        i < instructions@.len(),
    ensures
        match r {
            Some(j) => scan_bwd(instructions@, i - 1, -1) == Some(j as int) && j < i
                && instructions@[j as int] is IF,
            None => scan_bwd(instructions@, i - 1, -1) is None,
        },
{
    let s = Ghost(instructions@);
    if i == 0 {
        return None;
    }
    let mut p = i - 1;
    let mut depth: usize = 1;
    loop
        invariant
            p < i <= s@.len(),
            1 <= depth <= i - p,
            s@ == instructions@,
            scan_bwd(s@, i - 1, -1) == scan_bwd(s@, p as int, -(depth as int)),
        decreases p,
    {
        match instructions[p] {
            Instruction::IF => {
                if depth == 1 {
                    return Some(p);
                }
                depth = depth - 1;
            },
            Instruction::EIF => {
                if p > 0 {
                    depth = depth + 1;
                }
            },
            _ => {},
        }
        if p == 0 {
            return None;
        }
        p = p - 1;
    }
}

} // verus!
