use vstd::prelude::*;

verus! {

/// Starting length of the growable tape.
pub const DEFAULT_MEMORY_SIZE: usize = 32;

/// The tape a program works on: a sequence of byte cells and a pointer into
/// it.  The two implementations differ only in what a pointer move does at
/// the edges: the growable tape doubles its length when the pointer would
/// run off the end, the fixed tape wraps around.  Each implementation
/// declares its own move policy as the spec functions `fwd_spec` and
/// `bak_spec`, so code written against this trait carries exact contracts
/// either way.
pub trait Memory: Sized {
    /// The byte cells of the tape.
    spec fn cells(&self) -> Seq<u8>;

    /// The current position of the tape pointer.
    spec fn pos(&self) -> nat;

    /// The tape is never empty and the pointer is always on it.
    spec fn inv(&self) -> bool;

    /// What a forward move of `n` does to the cells and the pointer.
    spec fn fwd_spec(cells: Seq<u8>, p: nat, n: nat) -> (Seq<u8>, nat);

    /// Where a backward move of `n` puts the pointer; no cells change.
    spec fn bak_spec(len: nat, p: nat, n: nat) -> nat;

    proof fn lemma_inv(&self)
        requires
            self.inv(),
        ensures
            1 <= self.cells().len(),
            self.pos() < self.cells().len(),
    ;

    fn get_memory_pointer(&self) -> (r: usize)
        requires
            self.inv(),
        ensures
            r == self.pos(),
    ;

    fn set_memory_pointer(&mut self, pointer: usize)
        requires
            old(self).inv(),
            pointer < old(self).cells().len(),
        ensures
            final(self).inv(),
            final(self).cells() == old(self).cells(),
            final(self).pos() == pointer,
    ;

    fn inc_memory_pointer(&mut self, value: usize)
        requires
            old(self).inv(),
        ensures
            final(self).inv(),
            (final(self).cells(), final(self).pos()) == Self::fwd_spec(
                old(self).cells(),
                old(self).pos(),
                value as nat,
            ),
    ;

    fn dec_memory_pointer(&mut self, value: usize)
        requires
            old(self).inv(),
        ensures
            final(self).inv(),
            final(self).cells() == old(self).cells(),
            final(self).pos() == Self::bak_spec(old(self).cells().len(), old(self).pos(), value as nat),
    ;

    fn get_memory_value(&self) -> (r: u8)
        requires
            self.inv(),
        ensures
            r == self.cells()[self.pos() as int],
    ;

    fn set_memory_value(&mut self, value: u8)
        requires
            old(self).inv(),
        ensures
            final(self).inv(),
            final(self).pos() == old(self).pos(),
            final(self).cells() == old(self).cells().update(old(self).pos() as int, value),
    ;

    fn inc_memory_value(&mut self, value: u8)
        requires
            old(self).inv(),
        ensures
            final(self).inv(),
            final(self).pos() == old(self).pos(),
            final(self).cells() == old(self).cells().update(
                old(self).pos() as int,
                byte_add(old(self).cells()[old(self).pos() as int], value),
            ),
    ;

    fn dec_memory_value(&mut self, value: u8)
        requires
            old(self).inv(),
        ensures
            final(self).inv(),
            final(self).pos() == old(self).pos(),
            final(self).cells() == old(self).cells().update(
                old(self).pos() as int,
                byte_sub(old(self).cells()[old(self).pos() as int], value),
            ),
    ;

    fn get_memory_size(&self) -> (r: usize)
        requires
            self.inv(),
        ensures
            r == self.cells().len(),
    ;

    fn raw_memory(&self) -> (r: &[u8])
        requires
            self.inv(),
        ensures
            r@ == self.cells(),
    ;
}

/// Byte addition wrapping modulo 256.
pub open spec fn byte_add(a: u8, b: u8) -> u8 {
    ((a + b) % 256) as u8
}

/// Byte subtraction wrapping modulo 256.
pub open spec fn byte_sub(a: u8, b: u8) -> u8 {
    ((a + 256 - b) % 256) as u8
}

/// A sequence of `n` zeroed cells.
pub open spec fn zero_cells(n: nat) -> Seq<u8> {
    Seq::new(n, |i: int| 0u8)
}

/// The pointer after a wrapping move: counts `n` steps in the chosen
/// direction around a tape of length `len`.
pub open spec fn wrap_back(len: nat, p: nat, n: nat) -> nat {
    if len == 0 {
        p
    } else {
        (((p + len) as int - (n as int % len as int)) % (len as int)) as nat
    }
}

/// The pointer after a forward wrapping move.
pub open spec fn wrap_fwd(len: nat, p: nat, n: nat) -> nat {
    if len == 0 {
        p
    } else {
        (p + n) % len
    }
}

/// The length the growable tape reaches for a pointer target: it doubles
/// until the target is inside, saturating at the largest representable
/// length, which no real allocation reaches.
pub open spec fn grow_len(len: nat, target: nat) -> nat
    decreases usize::MAX - len,
{
    if target < len {
        len
    } else if 1 <= len && 2 * len <= usize::MAX {
        grow_len(2 * len, target)
    } else {
        usize::MAX as nat
    }
}

/// A pointer target clamped to the largest representable position, which no
/// real tape reaches.
pub open spec fn clamp_pos(t: nat) -> nat {
    if t <= usize::MAX - 1 {
        t
    } else {
        (usize::MAX - 1) as nat
    }
}

/// Growing stops above the target and never shrinks the tape.
pub proof fn lemma_grow_len(len: nat, target: nat)
    requires
        1 <= len <= usize::MAX,
        target <= usize::MAX - 1,
    ensures
        len <= grow_len(len, target),
        target < grow_len(len, target),
        grow_len(len, target) <= usize::MAX,
    decreases usize::MAX - len,
{
    if target < len {
    } else if 2 * len <= usize::MAX {
        lemma_grow_len(2 * len, target);
    }
}

/// The growable tape only ever grows on a forward move: every cell value at
/// an index that already existed is kept, the length never shrinks, and when
/// the pointer lands at or past the old end the length at least doubles.
/// The bounds keep the move away from the address-space limit, which no real
/// tape reaches.
pub proof fn lemma_growable_tape_grows(cells: Seq<u8>, p: nat, n: nat)
    requires
        1 <= cells.len(),
        2 * cells.len() <= usize::MAX,
        p + n <= usize::MAX - 1,
    ensures
        ({
            let moved = <DynamicMemory as Memory>::fwd_spec(cells, p, n);
            &&& moved.0.len() >= cells.len()
            &&& forall|k: int| 0 <= k < cells.len() ==> moved.0[k] == cells[k]
            &&& moved.1 == p + n
            &&& p + n >= cells.len() ==> moved.0.len() >= 2 * cells.len()
        }),
{
    let target = clamp_pos(p + n);
    assert(target == p + n);
    lemma_grow_len(cells.len(), target);
    if target >= cells.len() {
        lemma_grow_len(2 * cells.len(), target);
        assert(grow_len(cells.len(), target) == grow_len(2 * cells.len(), target));
    }
}

/// Moving the pointer backward one step from the first cell of a
/// wrap-around tape puts it on the last cell.  Both tape variants use this
/// policy for backward moves.
pub proof fn lemma_backward_wrap_to_end(len: nat)
    requires
        1 <= len,
    ensures
        wrap_back(len, 0, 1) == len - 1,
{
    if len == 1 {
    } else {
        assert(1 as int % len as int == 1) by {
            vstd::arithmetic::div_mod::lemma_small_mod(1nat, len);
        }
        assert((0 + len as int - 1) % len as int == len - 1) by {
            vstd::arithmetic::div_mod::lemma_small_mod((len - 1) as nat, len);
        }
    }
}

/// The growable tape: starts at [`DEFAULT_MEMORY_SIZE`] cells and doubles in
/// length whenever the pointer would move past its end; moving backward past
/// the start wraps around the current length.
pub struct DynamicMemory {
    memory: Vec<u8>,
    memory_pointer: usize,
}

impl DynamicMemory {
    pub fn new() -> (r: Self)
        ensures
            r.inv(),
            r.cells() == zero_cells(DEFAULT_MEMORY_SIZE as nat),
            r.pos() == 0,
    {
        let memory = make_zero_cells(DEFAULT_MEMORY_SIZE);
        DynamicMemory { memory, memory_pointer: 0 }
    }
}

/// A freshly zeroed tape of `n` cells.
fn make_zero_cells(n: usize) -> (r: Vec<u8>)
    ensures
        r@ == zero_cells(n as nat),
{
    let mut r: Vec<u8> = Vec::new();
    let mut i: usize = 0;
    while i < n
        invariant
            i <= n,
            r@.len() == i,
            forall|k: int| 0 <= k < i ==> r@[k] == 0u8,
        decreases n - i,
    {
        r.push(0);
        i = i + 1;
    }
    proof {
        assert(r@ =~= zero_cells(n as nat));
    }
    r
}

impl Memory for DynamicMemory {
    closed spec fn cells(&self) -> Seq<u8> {
        self.memory@
    }

    closed spec fn pos(&self) -> nat {
        self.memory_pointer as nat
    }

    closed spec fn inv(&self) -> bool {
        self.memory_pointer < self.memory@.len()
    }

    open spec fn fwd_spec(cells: Seq<u8>, p: nat, n: nat) -> (Seq<u8>, nat) {
        let target = clamp_pos(p + n);
        let len2 = grow_len(cells.len(), target);
        if len2 <= cells.len() {
            (cells, target)
        } else {
            (cells + zero_cells((len2 - cells.len()) as nat), target)
        }
    }

    open spec fn bak_spec(len: nat, p: nat, n: nat) -> nat {
        wrap_back(len, p, n)
    }

    proof fn lemma_inv(&self) {
    }

    fn get_memory_pointer(&self) -> (r: usize) {
        self.memory_pointer
    }

    fn set_memory_pointer(&mut self, pointer: usize) {
        self.memory_pointer = pointer;
    }

    fn inc_memory_pointer(&mut self, value: usize) {
        let ghost start_cells = self.memory@;
        let target = match self.memory_pointer.checked_add(value) {
            Some(t) => if t < usize::MAX {
                t
            } else {
                usize::MAX - 1
            },
            None => usize::MAX - 1,
        };
        proof {
            assert(target as nat == clamp_pos(old(self).pos() + value as nat));
        }
        while self.memory.len() <= target
            invariant
                1 <= self.memory@.len(),
                target < usize::MAX,
                grow_len(self.memory@.len(), target as nat) == grow_len(
                    start_cells.len(),
                    target as nat,
                ),
                start_cells.len() <= self.memory@.len(),
                forall|k: int| 0 <= k < start_cells.len() ==> self.memory@[k] == start_cells[k],
                forall|k: int|
                    start_cells.len() <= k < self.memory@.len() ==> self.memory@[k] == 0u8,
            decreases usize::MAX - self.memory@.len(),
        {
            let len = self.memory.len();
            let newlen = if len <= usize::MAX / 2 {
                2 * len
            } else {
                usize::MAX
            };
            let mut extension = make_zero_cells(newlen - len);
            self.memory.append(&mut extension);
        }
        self.memory_pointer = target;
        proof {
            lemma_grow_len(start_cells.len(), target as nat);
            let len2 = grow_len(start_cells.len(), target as nat);
            if len2 <= start_cells.len() {
                assert(self.memory@ =~= start_cells);
            } else {
                assert(self.memory@ =~= start_cells + zero_cells(
                    (len2 - start_cells.len()) as nat,
                ));
            }
        }
    }

    fn dec_memory_pointer(&mut self, value: usize) {
        let len = self.memory.len();
        let p = self.memory_pointer;
        let r = ((p as u128 + (len as u128 - value as u128 % len as u128)) % len as u128) as usize;
        self.memory_pointer = r;
    }

    fn get_memory_value(&self) -> (r: u8) {
        self.memory[self.memory_pointer]
    }

    fn set_memory_value(&mut self, value: u8) {
        let p = self.memory_pointer;
        self.memory.set(p, value);
    }

    fn inc_memory_value(&mut self, value: u8) {
        let p = self.memory_pointer;
        let v = self.memory[p];
        self.memory.set(p, v.wrapping_add(value));
        proof {
            assert(v.wrapping_add(value) == byte_add(v, value));
        }
    }

    fn dec_memory_value(&mut self, value: u8) {
        let p = self.memory_pointer;
        let v = self.memory[p];
        self.memory.set(p, v.wrapping_sub(value));
        proof {
            assert(v.wrapping_sub(value) == byte_sub(v, value));
        }
    }

    fn get_memory_size(&self) -> (r: usize) {
        self.memory.len()
    }

    fn raw_memory(&self) -> (r: &[u8]) {
        self.memory.as_slice()
    }
}

/// The fixed tape: its length is chosen at construction and never changes;
/// pointer moves in both directions wrap around that length.
pub struct FixedMemory<const SIZE: usize> {
    memory: Vec<u8>,
    memory_pointer: usize,
}

impl<const SIZE: usize> FixedMemory<SIZE> {
    pub fn new() -> (r: Self)
        requires
            SIZE >= 1,
        ensures
            r.inv(),
            r.cells() == zero_cells(SIZE as nat),
            r.pos() == 0,
    {
        let memory = make_zero_cells(SIZE);
        FixedMemory { memory, memory_pointer: 0 }
    }
}

impl<const SIZE: usize> Memory for FixedMemory<SIZE> {
    closed spec fn cells(&self) -> Seq<u8> {
        self.memory@
    }

    closed spec fn pos(&self) -> nat {
        self.memory_pointer as nat
    }

    closed spec fn inv(&self) -> bool {
        self.memory_pointer < self.memory@.len() && self.memory@.len() == SIZE
    }

    open spec fn fwd_spec(cells: Seq<u8>, p: nat, n: nat) -> (Seq<u8>, nat) {
        (cells, wrap_fwd(cells.len(), p, n))
    }

    open spec fn bak_spec(len: nat, p: nat, n: nat) -> nat {
        wrap_back(len, p, n)
    }

    proof fn lemma_inv(&self) {
    }

    fn get_memory_pointer(&self) -> (r: usize) {
        self.memory_pointer
    }

    fn set_memory_pointer(&mut self, pointer: usize) {
        self.memory_pointer = pointer;
    }

    fn inc_memory_pointer(&mut self, value: usize) {
        let len = self.memory.len();
        let p = self.memory_pointer;
        let r = ((p as u128 + value as u128) % len as u128) as usize;
        self.memory_pointer = r;
    }

    fn dec_memory_pointer(&mut self, value: usize) {
        let len = self.memory.len();
        let p = self.memory_pointer;
        let r = ((p as u128 + (len as u128 - value as u128 % len as u128)) % len as u128) as usize;
        self.memory_pointer = r;
    }

    fn get_memory_value(&self) -> (r: u8) {
        self.memory[self.memory_pointer]
    }

    fn set_memory_value(&mut self, value: u8) {
        let p = self.memory_pointer;
        self.memory.set(p, value);
    }

    fn inc_memory_value(&mut self, value: u8) {
        let p = self.memory_pointer;
        let v = self.memory[p];
        self.memory.set(p, v.wrapping_add(value));
        proof {
            assert(v.wrapping_add(value) == byte_add(v, value));
        }
    }

    fn dec_memory_value(&mut self, value: u8) {
        let p = self.memory_pointer;
        let v = self.memory[p];
        self.memory.set(p, v.wrapping_sub(value));
        proof {
            assert(v.wrapping_sub(value) == byte_sub(v, value));
        }
    }

    fn get_memory_size(&self) -> (r: usize) {
        self.memory.len()
    }

    fn raw_memory(&self) -> (r: &[u8]) {
        self.memory.as_slice()
    }
}

} // verus!
