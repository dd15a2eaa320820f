use vstd::prelude::*;

use crate::instruction::{
    find_match_bwd, find_match_fwd, loops_matched, scan_bwd, scan_fwd, Instruction,
};
use crate::io::{BufferOutput, InputStream, NullInput, OutputStream};
use crate::memory::{byte_add, byte_sub, zero_cells, DynamicMemory, FixedMemory, Memory,
    DEFAULT_MEMORY_SIZE};
use crate::rng::{RandomSource, ThreadRandom};

verus! {

/// The observable state of the machine: the program, the instruction
/// pointer, whether it has halted, the tape, and the histories of the two
/// I/O capabilities.  The jump-target cache is deliberately absent: it is an
/// internal memoization whose entries always agree with the balanced-nesting
/// scans.
#[verifier::ext_equal]
pub ghost struct VmView {
    pub instrs: Seq<Instruction>,
    pub ip: nat,
    pub ended: bool,
    pub cells: Seq<u8>,
    pub ptr: nat,
    pub output: Seq<char>,
    pub taken: Seq<u8>,
}

/// A cell's byte reinterpreted as the character handed to the output
/// capability.
pub open spec fn byte_char(b: u8) -> char {
    b as char
}

/// How one fetched instruction transforms the machine state.  The memory
/// policy of the tape variant `M` decides what the pointer moves do; the
/// bytes read from the input capability and the random source are
/// existentially quantified, since the machine promises the same whatever
/// they yield.
pub open spec fn step_rel<M: Memory>(pre: VmView, post: VmView) -> bool {
    &&& pre.ip < pre.instrs.len()
    &&& match pre.instrs[pre.ip as int] {
        Instruction::END => post == (VmView { ended: true, ..pre }),
        Instruction::INC(n) => post == (VmView {
            cells: pre.cells.update(pre.ptr as int, byte_add(pre.cells[pre.ptr as int], n)),
            ip: pre.ip + 1,
            ..pre
        }),
        Instruction::DEC(n) => post == (VmView {
            cells: pre.cells.update(pre.ptr as int, byte_sub(pre.cells[pre.ptr as int], n)),
            ip: pre.ip + 1,
            ..pre
        }),
        Instruction::FWD(n) => {
            let moved = M::fwd_spec(pre.cells, pre.ptr, n as nat);
            post == (VmView { cells: moved.0, ptr: moved.1, ip: pre.ip + 1, ..pre })
        },
        Instruction::BAK(n) => post == (VmView {
            ptr: M::bak_spec(pre.cells.len(), pre.ptr, n as nat),
            ip: pre.ip + 1,
            ..pre
        }),
        Instruction::OUT => post == (VmView {
            output: pre.output.push(byte_char(pre.cells[pre.ptr as int])),
            ip: pre.ip + 1,
            ..pre
        }),
        Instruction::IN => (exists|b: u8|
            post == (VmView {
                cells: pre.cells.update(pre.ptr as int, b),
                taken: pre.taken.push(b),
                ip: pre.ip + 1,
                ..pre
            })) || post == (VmView { ip: pre.ip + 1, ..pre }),
        Instruction::RND => exists|b: u8|
            post == (VmView { cells: pre.cells.update(pre.ptr as int, b), ip: pre.ip + 1, ..pre }),
        Instruction::IF => if pre.cells[pre.ptr as int] == 0 {
            scan_fwd(pre.instrs, pre.ip + 1 as int, 1) matches Some(j) && post == (VmView {
                ip: j as nat,
                ..pre
            })
        } else {
            post == (VmView { ip: pre.ip + 1, ..pre })
        },
        Instruction::EIF => if pre.cells[pre.ptr as int] != 0 {
            scan_bwd(pre.instrs, pre.ip - 1, -1) matches Some(j) && post == (VmView {
                ip: j as nat,
                ..pre
            })
        } else {
            post == (VmView { ip: pre.ip + 1, ..pre })
        },
        Instruction::JIZ(t) => post == (VmView {
            ip: if pre.cells[pre.ptr as int] == 0 {
                t as nat
            } else {
                pre.ip + 1
            },
            ..pre
        }),
        Instruction::JNZ(t) => post == (VmView {
            ip: if pre.cells[pre.ptr as int] != 0 {
                t as nat
            } else {
                pre.ip + 1
            },
            ..pre
        }),
        Instruction::JMP(t) => post == (VmView { ip: t as nat, ..pre }),
    }
}

/// The transition the driving loop makes when the instruction pointer has
/// run past the end of the program: the machine halts.
pub open spec fn halt_rel(pre: VmView, post: VmView) -> bool {
    pre.ip >= pre.instrs.len() && post == (VmView { ended: true, ..pre })
}

/// One transition of the driving loop: an instruction executes, or the
/// machine halts at the end of the program.
pub open spec fn run_rel<M: Memory>(pre: VmView, post: VmView) -> bool {
    step_rel::<M>(pre, post) || halt_rel(pre, post)
}

/// `b` is reachable from `a` in exactly `n` transitions.
pub open spec fn reaches_n<M: Memory>(a: VmView, b: VmView, n: nat) -> bool
    decreases n,
{
    if n == 0 {
        a == b
    } else {
        exists|m: VmView| reaches_n::<M>(a, m, (n - 1) as nat) && run_rel::<M>(m, b)
    }
}

/// `b` is reachable from `a` by some number of transitions.
pub open spec fn reaches<M: Memory>(a: VmView, b: VmView) -> bool {
    exists|n: nat| reaches_n::<M>(a, b, n)
}

proof fn lemma_reaches_n_snoc<M: Memory>(a: VmView, m: VmView, b: VmView, n: nat)
    requires
        reaches_n::<M>(a, m, n),
        run_rel::<M>(m, b),
    ensures
        reaches_n::<M>(a, b, n + 1),
{
    assert(reaches_n::<M>(a, m, ((n + 1) - 1) as nat));
}

/// Executing `Inc(n)` and then `Dec(n)` on a cell holding zero leaves the
/// cell at zero again, for every operand from 1 to 255: the wrapping byte
/// arithmetic of the two instructions round-trips.
pub proof fn lemma_inc_dec_round_trip<M: Memory>(pre: VmView, mid: VmView, post: VmView, n: u8)
    requires
        1 <= n,
        pre.ptr < pre.cells.len(),
        pre.ip < pre.instrs.len(),
        pre.instrs[pre.ip as int] == Instruction::INC(n),
        pre.cells[pre.ptr as int] == 0,
        step_rel::<M>(pre, mid),
        mid.ip < mid.instrs.len(),
        mid.instrs[mid.ip as int] == Instruction::DEC(n),
        step_rel::<M>(mid, post),
    ensures
        post.ptr == pre.ptr,
        post.cells[post.ptr as int] == 0,
{
    assert(mid.cells[mid.ptr as int] == byte_add(0, n));
    assert(byte_add(0, n) == n);
    assert(byte_sub(n, n) == 0);
}

/// One cached jump target: if present it is exactly what the matching scan
/// yields for that position.
pub open spec fn jump_entry_ok(s: Seq<Instruction>, k: int, e: Option<usize>) -> bool {
    match e {
        None => true,
        Some(j) => (s[k] is IF && scan_fwd(s, k + 1, 1) == Some(j as int)) || (s[k] is EIF
            && scan_bwd(s, k - 1, -1) == Some(j as int)),
    }
}

/// What one fetch needs of the state: the pointer is on an instruction, and
/// if that instruction is a block marker about to branch, its match exists.
/// A program the parser validated satisfies the marker conditions at every
/// position.
pub open spec fn step_safe(v: VmView) -> bool {
    &&& v.ip < v.instrs.len()
    &&& match v.instrs[v.ip as int] {
        Instruction::IF => v.cells[v.ptr as int] == 0 ==> scan_fwd(v.instrs, v.ip + 1 as int, 1) is Some,
        Instruction::EIF => v.cells[v.ptr as int] != 0 ==> scan_bwd(
            v.instrs,
            v.ip - 1,
            -1,
        ) is Some,
        _ => true,
    }
}

/// The machine: a fetch-execute loop over a finalized instruction sequence,
/// a tape, injected input, output and randomness capabilities, and a lazily
/// filled cache of jump targets for the un-rewritten `IF`/`EIF` form.
pub struct Interpreter<I, O, M, R> where
    I: InputStream,
    O: OutputStream,
    M: Memory,
    R: RandomSource,
 {
    pub instructions: Vec<Instruction>,
    pub instruction_pointer: usize,
    pub memory: M,
    pub input: I,
    pub output: O,
    pub jump_table: Vec<Option<usize>>,
    pub ended: bool,
    pub rand: R,
}

impl<I, O, M, R> View for Interpreter<I, O, M, R> where
    I: InputStream,
    O: OutputStream,
    M: Memory,
    R: RandomSource,
 {
    type V = VmView;

    open spec fn view(&self) -> VmView {
        VmView {
            instrs: self.instructions@,
            ip: self.instruction_pointer as nat,
            ended: self.ended,
            cells: self.memory.cells(),
            ptr: self.memory.pos(),
            output: self.output.written(),
            taken: self.input.taken(),
        }
    }
}

/// A jump-target cache with one empty slot per instruction.
fn make_empty_table(n: usize) -> (r: Vec<Option<usize>>)
    ensures
        r@.len() == n,
        forall|k: int| 0 <= k < n ==> r@[k] is None,
{
    let mut r: Vec<Option<usize>> = Vec::new();
    let mut i: usize = 0;
    while i < n
        invariant
            i <= n,
            r@.len() == i,
            forall|k: int| 0 <= k < i ==> r@[k] is None,
        decreases n - i,
    {
        r.push(None);
        i = i + 1;
    }
    r
}

impl Interpreter<NullInput, BufferOutput, DynamicMemory, ThreadRandom> {
    /// A machine over the growable tape with no input, a collecting output
    /// and the thread-local random source.
    pub fn new(instructions: Vec<Instruction>) -> (r: Self)
        ensures
            r.wf(),
            r@ == (VmView {
                instrs: instructions@,
                ip: 0,
                ended: false,
                cells: zero_cells(DEFAULT_MEMORY_SIZE as nat),
                ptr: 0,
                output: Seq::<char>::empty(),
                taken: Seq::<u8>::empty(),
            }),
    {
        let n = instructions.len();
        Interpreter {
            instructions,
            instruction_pointer: 0,
            memory: DynamicMemory::new(),
            input: NullInput,
            output: BufferOutput::new(),
            jump_table: make_empty_table(n),
            ended: false,
            rand: ThreadRandom,
        }
    }

    /// A machine over a fixed wrap-around tape of `SIZE` cells.
    pub fn new_fixed_size<const SIZE: usize>(instructions: Vec<Instruction>) -> (r: Interpreter<
        NullInput,
        BufferOutput,
        FixedMemory<SIZE>,
        ThreadRandom,
    >)
        requires
            SIZE >= 1,
        ensures
            r.wf(),
            r@ == (VmView {
                instrs: instructions@,
                ip: 0,
                ended: false,
                cells: zero_cells(SIZE as nat),
                ptr: 0,
                output: Seq::<char>::empty(),
                taken: Seq::<u8>::empty(),
            }),
    {
        Interpreter::new(instructions).with_fixed_size_memory::<SIZE>()
    }
}

impl<I, O> Interpreter<I, O, DynamicMemory, ThreadRandom> where
    I: InputStream,
    O: OutputStream,
 {
    /// A machine over the growable tape with the given capabilities.
    pub fn new_io(instructions: Vec<Instruction>, input: I, output: O) -> (r: Self)
        ensures
            r.wf(),
            r@ == (VmView {
                instrs: instructions@,
                ip: 0,
                ended: false,
                cells: zero_cells(DEFAULT_MEMORY_SIZE as nat),
                ptr: 0,
                output: output.written(),
                taken: input.taken(),
            }),
    {
        let n = instructions.len();
        Interpreter {
            instructions,
            instruction_pointer: 0,
            memory: DynamicMemory::new(),
            input,
            output,
            jump_table: make_empty_table(n),
            ended: false,
            rand: ThreadRandom,
        }
    }
}

impl<I, O, M, R> Interpreter<I, O, M, R> where
    I: InputStream,
    O: OutputStream,
    M: Memory,
    R: RandomSource,
 {
    /// The machine's internal consistency: the tape invariant holds and
    /// every cached jump target agrees with the matching scan.
    pub open spec fn wf(&self) -> bool {
        &&& self.memory.inv()
        &&& self.jump_table@.len() == self.instructions@.len()
        &&& forall|k: int|
            0 <= k < self.jump_table@.len() ==> jump_entry_ok(
                self.instructions@,
                k,
                #[trigger] self.jump_table@[k],
            )
    }

    /// The same machine over a fresh fixed wrap-around tape of `SIZE` cells.
    pub fn with_fixed_size_memory<const SIZE: usize>(self) -> (r: Interpreter<
        I,
        O,
        FixedMemory<SIZE>,
        R,
    >)
        requires
            self.wf(),
            SIZE >= 1,
        ensures
            r.wf(),
            r@ == (VmView { cells: zero_cells(SIZE as nat), ptr: 0, ..self@ }),
    {
        Interpreter {
            instructions: self.instructions,
            instruction_pointer: self.instruction_pointer,
            memory: FixedMemory::<SIZE>::new(),
            input: self.input,
            output: self.output,
            jump_table: self.jump_table,
            ended: self.ended,
            rand: self.rand,
        }
    }

    /// The same machine with another input capability.
    pub fn with_input<IN: InputStream>(self, input: IN) -> (r: Interpreter<IN, O, M, R>)
        requires
            self.wf(),
        ensures
            r.wf(),
            r@ == (VmView { taken: input.taken(), ..self@ }),
    {
        Interpreter {
            instructions: self.instructions,
            instruction_pointer: self.instruction_pointer,
            memory: self.memory,
            input,
            output: self.output,
            jump_table: self.jump_table,
            ended: self.ended,
            rand: self.rand,
        }
    }

    /// The same machine with another output capability.
    pub fn with_output<ON: OutputStream>(self, output: ON) -> (r: Interpreter<I, ON, M, R>)
        requires
            self.wf(),
        ensures
            r.wf(),
            r@ == (VmView { output: output.written(), ..self@ }),
    {
        Interpreter {
            instructions: self.instructions,
            instruction_pointer: self.instruction_pointer,
            memory: self.memory,
            input: self.input,
            output,
            jump_table: self.jump_table,
            ended: self.ended,
            rand: self.rand,
        }
    }

    /// The same machine with both I/O capabilities replaced.
    pub fn with_io<IN: InputStream, ON: OutputStream>(self, input: IN, output: ON) -> (r:
        Interpreter<IN, ON, M, R>)
        requires
            self.wf(),
        ensures
            r.wf(),
            r@ == (VmView { taken: input.taken(), output: output.written(), ..self@ }),
    {
        Interpreter {
            instructions: self.instructions,
            instruction_pointer: self.instruction_pointer,
            memory: self.memory,
            input,
            output,
            jump_table: self.jump_table,
            ended: self.ended,
            rand: self.rand,
        }
    }

    /// The same machine with another random source.
    pub fn with_rng<RN: RandomSource>(self, rand: RN) -> (r: Interpreter<I, O, M, RN>)
        requires
            self.wf(),
        ensures
            r.wf(),
            r@ == self@,
    {
        Interpreter {
            instructions: self.instructions,
            instruction_pointer: self.instruction_pointer,
            memory: self.memory,
            input: self.input,
            output: self.output,
            jump_table: self.jump_table,
            ended: self.ended,
            rand,
        }
    }

    /// Fetches the instruction under the pointer and executes it.
    pub fn step(&mut self)
        requires
            old(self).wf(),
            step_safe(old(self)@),
        ensures
            final(self).wf(),
            step_rel::<M>(old(self)@, final(self)@),
    {
        match self.instructions[self.instruction_pointer] {
            Instruction::JIZ(n) => self.interpret_jiz(n),
            Instruction::JNZ(n) => self.interpret_jnz(n),
            Instruction::INC(n) => self.interpret_inc(n),
            Instruction::DEC(n) => self.interpret_dec(n),
            Instruction::FWD(n) => self.interpret_fwd(n),
            Instruction::BAK(n) => self.interpret_bak(n),
            Instruction::IF => self.interpret_if(),
            Instruction::EIF => self.interpret_eif(),
            Instruction::OUT => self.interpret_out(),
            Instruction::IN => self.interpret_in(),
            Instruction::RND => self.interpret_rnd(),
            Instruction::JMP(n) => self.interpret_jmp(n),
            Instruction::END => self.interpret_end(),
        }
    }

    /// Runs the fetch-execute loop until the machine halts.  The loop stops
    /// early only after `u64::MAX` transitions, a count no feasible
    /// execution reaches; a program that never halts simply keeps running.
    pub fn run(&mut self)
        requires
            old(self).wf(),
            loops_matched(old(self).instructions@),
        ensures
            final(self).wf(),
            reaches::<M>(old(self)@, final(self)@),
            final(self).ended || reaches_n::<M>(old(self)@, final(self)@, u64::MAX as nat),
    {
        let ghost init = self@;
        let ghost mut steps: nat = 0;
        let mut fuel: u64 = u64::MAX;
        proof {
            assert(reaches_n::<M>(init, self@, 0));
        }
        loop
            invariant_except_break
                steps + fuel == u64::MAX as nat,
            invariant
                self.wf(),
                loops_matched(self.instructions@),
                reaches_n::<M>(init, self@, steps),
            ensures
                self.wf(),
                reaches_n::<M>(init, self@, steps),
                self.ended || steps == u64::MAX as nat,
            decreases fuel,
        {
            if self.ended {
                break ;
            }
            if self.instruction_pointer >= self.instructions.len() {
                let ghost prev = self@;
                self.ended = true;
                proof {
                    assert(halt_rel(prev, self@));
                    lemma_reaches_n_snoc::<M>(init, prev, self@, steps);
                    steps = steps + 1;
                }
                break ;
            }
            if fuel == 0 {
                break ;
            }
            let ghost prev = self@;
            proof {
                assert(self.instructions@[self.instruction_pointer as int] is IF ==> scan_fwd(
                    self.instructions@,
                    self.instruction_pointer + 1 as int,
                    1,
                ) is Some);
                assert(self.instructions@[self.instruction_pointer as int] is EIF ==> scan_bwd(
                    self.instructions@,
                    self.instruction_pointer - 1,
                    -1,
                ) is Some);
            }
            self.step();
            proof {
                lemma_reaches_n_snoc::<M>(init, prev, self@, steps);
                steps = steps + 1;
            }
            fuel = fuel - 1;
        }
        proof {
            assert(reaches::<M>(init, self@));
        }
    }

    fn interpret_rnd(&mut self)
        requires
            old(self).wf(),
            old(self)@.ip < old(self)@.instrs.len(),
            old(self)@.instrs[old(self)@.ip as int] is RND,
        ensures
            final(self).wf(),
            step_rel::<M>(old(self)@, final(self)@),
    {
        proof {
            self.memory.lemma_inv();
            assert(self.instructions.len() == self.instructions@.len());
        }
        let b = self.rand.random_byte();
        self.memory.set_memory_value(b);
        self.instruction_pointer = self.instruction_pointer + 1;
        proof {
            let pre = old(self)@;
            assert(self@ == (VmView {
                cells: pre.cells.update(pre.ptr as int, b),
                ip: pre.ip + 1,
                ..pre
            }));
        }
    }

    fn interpret_in(&mut self)
        requires
            old(self).wf(),
            old(self)@.ip < old(self)@.instrs.len(),
            old(self)@.instrs[old(self)@.ip as int] is IN,
        ensures
            final(self).wf(),
            step_rel::<M>(old(self)@, final(self)@),
    {
        proof {
            self.memory.lemma_inv();
            assert(self.instructions.len() == self.instructions@.len());
        }
        match self.input.read_byte() {
            Some(b) => {
                self.memory.set_memory_value(b);
                self.instruction_pointer = self.instruction_pointer + 1;
                proof {
                    let pre = old(self)@;
                    assert(self@ == (VmView {
                        cells: pre.cells.update(pre.ptr as int, b),
                        taken: pre.taken.push(b),
                        ip: pre.ip + 1,
                        ..pre
                    }));
                }
            },
            None => {
                self.instruction_pointer = self.instruction_pointer + 1;
                proof {
                    let pre = old(self)@;
                    assert(self@ == (VmView { ip: pre.ip + 1, ..pre }));
                }
            },
        }
    }

    fn interpret_out(&mut self)
        requires
            old(self).wf(),
            old(self)@.ip < old(self)@.instrs.len(),
            old(self)@.instrs[old(self)@.ip as int] is OUT,
        ensures
            final(self).wf(),
            step_rel::<M>(old(self)@, final(self)@),
    {
        proof {
            self.memory.lemma_inv();
            assert(self.instructions.len() == self.instructions@.len());
        }
        let v = self.memory.get_memory_value();
        self.output.write_char(v as char);
        self.instruction_pointer = self.instruction_pointer + 1;
    }

    fn interpret_bak(&mut self, n: u8)
        requires
            old(self).wf(),
            old(self)@.ip < old(self)@.instrs.len(),
            old(self)@.instrs[old(self)@.ip as int] == Instruction::BAK(n),
        ensures
            final(self).wf(),
            step_rel::<M>(old(self)@, final(self)@),
    {
        proof {
            self.memory.lemma_inv();
            assert(self.instructions.len() == self.instructions@.len());
        }
        self.memory.dec_memory_pointer(n as usize);
        self.instruction_pointer = self.instruction_pointer + 1;
    }

    fn interpret_fwd(&mut self, n: u8)
        requires
            old(self).wf(),
            old(self)@.ip < old(self)@.instrs.len(),
            old(self)@.instrs[old(self)@.ip as int] == Instruction::FWD(n),
        ensures
            final(self).wf(),
            step_rel::<M>(old(self)@, final(self)@),
    {
        proof {
            self.memory.lemma_inv();
            assert(self.instructions.len() == self.instructions@.len());
        }
        self.memory.inc_memory_pointer(n as usize);
        self.instruction_pointer = self.instruction_pointer + 1;
    }

    fn interpret_dec(&mut self, n: u8)
        requires
            old(self).wf(),
            old(self)@.ip < old(self)@.instrs.len(),
            old(self)@.instrs[old(self)@.ip as int] == Instruction::DEC(n),
        ensures
            final(self).wf(),
            step_rel::<M>(old(self)@, final(self)@),
    {
        proof {
            self.memory.lemma_inv();
            assert(self.instructions.len() == self.instructions@.len());
        }
        self.memory.dec_memory_value(n);
        self.instruction_pointer = self.instruction_pointer + 1;
    }

    fn interpret_inc(&mut self, n: u8)
        requires
            old(self).wf(),
            old(self)@.ip < old(self)@.instrs.len(),
            old(self)@.instrs[old(self)@.ip as int] == Instruction::INC(n),
        ensures
            final(self).wf(),
            step_rel::<M>(old(self)@, final(self)@),
    {
        proof {
            self.memory.lemma_inv();
            assert(self.instructions.len() == self.instructions@.len());
        }
        self.memory.inc_memory_value(n);
        self.instruction_pointer = self.instruction_pointer + 1;
    }

    fn interpret_eif(&mut self)
        requires
            old(self).wf(),
            old(self)@.ip < old(self)@.instrs.len(),
            old(self)@.instrs[old(self)@.ip as int] is EIF,
            old(self)@.cells[old(self)@.ptr as int] != 0 ==> scan_bwd(
                old(self)@.instrs,
                old(self)@.ip - 1,
                -1,
            ) is Some,
        ensures
            final(self).wf(),
            step_rel::<M>(old(self)@, final(self)@),
    {
        proof {
            self.memory.lemma_inv();
            assert(self.instructions.len() == self.instructions@.len());
        }
        let v = self.memory.get_memory_value();
        if v != 0 {
            let ip = self.instruction_pointer;
            match self.jump_table[ip] {
                Some(j) => {
                    self.instruction_pointer = j;
                },
                None => {
                    match find_match_bwd(self.instructions.as_slice(), ip) {
                        Some(j) => {
                            self.jump_table.set(ip, Some(j));
                            self.instruction_pointer = j;
                        },
                        None => {
                            proof {
                                assert(false);
                            }
                            vstd::pervasive::unreached()
                        },
                    }
                },
            }
        } else {
            self.instruction_pointer = self.instruction_pointer + 1;
        }
    }

    fn interpret_if(&mut self)
        requires
            old(self).wf(),
            old(self)@.ip < old(self)@.instrs.len(),
            old(self)@.instrs[old(self)@.ip as int] is IF,
            old(self)@.cells[old(self)@.ptr as int] == 0 ==> scan_fwd(
                old(self)@.instrs,
                old(self)@.ip + 1 as int,
                1,
            ) is Some,
        ensures
            final(self).wf(),
            step_rel::<M>(old(self)@, final(self)@),
    {
        proof {
            self.memory.lemma_inv();
            assert(self.instructions.len() == self.instructions@.len());
        }
        let v = self.memory.get_memory_value();
        if v == 0 {
            let ip = self.instruction_pointer;
            match self.jump_table[ip] {
                Some(j) => {
                    self.instruction_pointer = j;
                },
                None => {
                    match find_match_fwd(self.instructions.as_slice(), ip) {
                        Some(j) => {
                            self.jump_table.set(ip, Some(j));
                            self.instruction_pointer = j;
                        },
                        None => {
                            proof {
                                assert(false);
                            }
                            vstd::pervasive::unreached()
                        },
                    }
                },
            }
        } else {
            self.instruction_pointer = self.instruction_pointer + 1;
        }
    }

    fn interpret_end(&mut self)
        requires
            old(self).wf(),
            old(self)@.ip < old(self)@.instrs.len(),
            old(self)@.instrs[old(self)@.ip as int] is END,
        ensures
            final(self).wf(),
            step_rel::<M>(old(self)@, final(self)@),
    {
        self.ended = true;
    }

    fn interpret_jiz(&mut self, n: usize)
        requires
            old(self).wf(),
            old(self)@.ip < old(self)@.instrs.len(),
            old(self)@.instrs[old(self)@.ip as int] == Instruction::JIZ(n),
        ensures
            final(self).wf(),
            step_rel::<M>(old(self)@, final(self)@),
    {
        proof {
            self.memory.lemma_inv();
            assert(self.instructions.len() == self.instructions@.len());
        }
        if self.memory.get_memory_value() == 0 {
            self.instruction_pointer = n;
        } else {
            self.instruction_pointer = self.instruction_pointer + 1;
        }
    }

    fn interpret_jnz(&mut self, n: usize)
        requires
            old(self).wf(),
            old(self)@.ip < old(self)@.instrs.len(),
            old(self)@.instrs[old(self)@.ip as int] == Instruction::JNZ(n),
        ensures
            final(self).wf(),
            step_rel::<M>(old(self)@, final(self)@),
    {
        proof {
            self.memory.lemma_inv();
            assert(self.instructions.len() == self.instructions@.len());
        }
        if self.memory.get_memory_value() != 0 {
            self.instruction_pointer = n;
        } else {
            self.instruction_pointer = self.instruction_pointer + 1;
        }
    }

    fn interpret_jmp(&mut self, n: usize)
        requires
            old(self).wf(),
            old(self)@.ip < old(self)@.instrs.len(),
            old(self)@.instrs[old(self)@.ip as int] == Instruction::JMP(n),
        ensures
            final(self).wf(),
            step_rel::<M>(old(self)@, final(self)@),
    {
        self.instruction_pointer = n;
    }
}

} // verus!
