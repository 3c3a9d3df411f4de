//! The stack-machine interpreter.
//!
//! A value on the stack, in the constant store, or in an opcode operand is
//! the `u64` bit pattern of an IEEE-754 double-precision number. The
//! machine is specified by the one-step transition function `step_spec`
//! and its iteration `reach`; `Vm::execute` is proved to follow them.

use vstd::prelude::*;

use crate::errors::VmError;
use crate::numeric::{add_val, counter_val, mul_val, sqrt_val, sub_val};
use crate::numeric::{add_values, counter_value, mul_values, sqrt_values, sub_values};

verus! {

/// The bit pattern of the double-precision value nearest to pi.
pub const PI_BITS: u64 = 0x400921FB54442D18;

/// The bit pattern of the double-precision value nearest to tau (two pi).
pub const TAU_BITS: u64 = 0x401921FB54442D18;

/// The bit pattern of the double-precision value nearest to Euler's number.
pub const E_BITS: u64 = 0x4005BF0A8B145769;

/// One machine instruction. Numeric operands are IEEE-754 double-precision
/// bit patterns; index operands are positions or store keys.
///
/// `Store` writes the top of the stack into the constant store (the `set`
/// mnemonic).
#[derive(Clone, Copy, Debug, PartialEq, Eq, Structural)]
pub enum Opcode {
    /// Push the operand onto the stack.
    Push(u64),
    /// Continue execution at the operand instruction index.
    Jump(usize),
    /// Store the top of the stack (without popping it) under the key.
    Store(usize),
    /// Push the value stored under the key.
    Get(usize),
    /// Remove the top of the stack.
    Pop,
    /// Push a copy of the top of the stack.
    Dup,
    /// Pop the top two values and push their sum.
    Add,
    /// Pop the top two values and push the second minus the top.
    Sub,
    /// Replace the top of the stack with its square root.
    Sqrt,
    /// Pop the top two values and push their product.
    Mul,
    /// Push the current program counter as a double-precision value.
    Pc,
    /// Append the top of the stack (without popping it) to the output.
    Print,
    /// Stop execution.
    Halt,
}

/// The value stored under `key`, the most recent `Store` winning; `None`
/// when no entry holds the key.
pub open spec fn lookup_bits(entries: Seq<(usize, u64)>, key: usize) -> Option<u64>
    decreases entries.len(),
{
    if entries.len() == 0 {
        Option::None
    } else if entries.last().0 == key {
        Option::Some(entries.last().1)
    } else {
        lookup_bits(entries.drop_last(), key)
    }
}

/// The runtime constant store: a small-integer-keyed table of
/// double-precision bit patterns.
#[derive(Clone, Debug)]
pub struct ConstantStore {
    entries: Vec<(usize, u64)>,
}

impl View for ConstantStore {
    type V = Seq<(usize, u64)>;

    closed spec fn view(&self) -> Seq<(usize, u64)> {
        self.entries@
    }
}

impl ConstantStore {
    /// An empty store.
    pub fn new() -> (s: ConstantStore)
        ensures
            s@ == Seq::<(usize, u64)>::empty(),
    {
        ConstantStore { entries: Vec::new() }
    }

    /// The store pre-seeded with the built-in constants: key 1 holds pi,
    /// key 2 holds tau, and key 3 holds Euler's number.
    pub fn seeded() -> (s: ConstantStore)
        ensures
            s@ =~= seq![(1usize, PI_BITS), (2usize, TAU_BITS), (3usize, E_BITS)],
    {
        let mut entries: Vec<(usize, u64)> = Vec::new();
        entries.push((1, PI_BITS));
        entries.push((2, TAU_BITS));
        entries.push((3, E_BITS));
        ConstantStore { entries }
    }

    /// The value stored under `key`, if any.
    pub fn get(&self, key: usize) -> (r: Option<u64>)
        ensures
            r == lookup_bits(self@, key),
    {
        let mut j: usize = self.entries.len();
        proof {
            assert(self@.take(j as int) =~= self@);
        }
        while j > 0
            invariant
                j <= self.entries.len(),
                lookup_bits(self@, key) == lookup_bits(self@.take(j as int), key),
            decreases j,
        {
            let (k, v) = self.entries[j - 1];
            proof {
                assert(self@.take(j as int).drop_last() =~= self@.take(j as int - 1));
            }
            if k == key {
                return Some(v);
            }
            j = j - 1;
        }
        None
    }

    /// Store `value` under `key`, shadowing any earlier entry.
    pub fn set(&mut self, key: usize, value: u64)
        ensures
            final(self)@ == old(self)@.push((key, value)),
    {
        self.entries.push((key, value));
    }
}

/// The mathematical state of the machine.
#[verifier::ext_equal]
pub struct VmState {
    pub pc: int,
    pub instructions: Seq<Opcode>,
    pub constants: Seq<(usize, u64)>,
    pub stack: Seq<u64>,
    pub output: Seq<u64>,
}

/// The virtual machine: a program, a program counter, the operand stack,
/// the runtime constant store, and the output produced by `Print`.
#[derive(Debug)]
pub struct Vm {
    /// Index of the next instruction to execute.
    pub pc: usize,
    /// The program; immutable for the run.
    pub instructions: Vec<Opcode>,
    /// Persistent keyed storage, read by `Get` and written by `Store`.
    pub constants: ConstantStore,
    /// The operand stack; the last element is the top.
    pub stack: Vec<u64>,
    /// One entry per executed `Print`, in execution order.
    pub output: Vec<u64>,
}

impl View for Vm {
    type V = VmState;

    open spec fn view(&self) -> VmState {
        VmState {
            pc: self.pc as int,
            instructions: self.instructions@,
            constants: self.constants@,
            stack: self.stack@,
            output: self.output@,
        }
    }
}

/// Whether the machine stands on a `Halt` instruction.
pub open spec fn halted(s: VmState) -> bool {
    0 <= s.pc < s.instructions.len() && s.instructions[s.pc] == Opcode::Halt
}

/// Whether the program holds a `Halt` opcode anywhere.
pub open spec fn contains_halt(ops: Seq<Opcode>) -> bool {
    exists|i: int| 0 <= i < ops.len() && ops[i] == Opcode::Halt
}

/// The one-step transition of the machine, defined for every state: what
/// executing the instruction under the program counter yields, or the
/// error that stops execution. A failing step leaves the state untouched.
pub open spec fn step_spec(s: VmState) -> Result<VmState, VmError> {
    if s.pc < 0 || s.pc >= s.instructions.len() {
        Result::Err(VmError::MissingHalt)
    } else {
        let avail = s.stack.len() as usize;
        match s.instructions[s.pc] {
            Opcode::Push(v) => Result::Ok(VmState { pc: s.pc + 1, stack: s.stack.push(v), ..s }),
            Opcode::Jump(t) => if (t as int) < s.instructions.len() {
                Result::Ok(VmState { pc: t as int, ..s })
            } else {
                Result::Err(VmError::InvalidJumpTarget { target: t })
            },
            Opcode::Store(k) => if s.stack.len() >= 1 {
                Result::Ok(
                    VmState { pc: s.pc + 1, constants: s.constants.push((k, s.stack.last())), ..s },
                )
            } else {
                Result::Err(
                    VmError::StackUnderflow {
                        opcode: Opcode::Store(k),
                        required: 1,
                        available: avail,
                    },
                )
            },
            Opcode::Get(k) => match lookup_bits(s.constants, k) {
                Option::Some(v) => Result::Ok(
                    VmState { pc: s.pc + 1, stack: s.stack.push(v), ..s },
                ),
                Option::None => Result::Err(VmError::UnknownConstantKey { key: k }),
            },
            Opcode::Pop => if s.stack.len() >= 1 {
                Result::Ok(VmState { pc: s.pc + 1, stack: s.stack.drop_last(), ..s })
            } else {
                Result::Err(
                    VmError::StackUnderflow { opcode: Opcode::Pop, required: 1, available: avail },
                )
            },
            Opcode::Dup => if s.stack.len() >= 1 {
                Result::Ok(VmState { pc: s.pc + 1, stack: s.stack.push(s.stack.last()), ..s })
            } else {
                Result::Err(
                    VmError::StackUnderflow { opcode: Opcode::Dup, required: 1, available: avail },
                )
            },
            Opcode::Add => if s.stack.len() >= 2 {
                Result::Ok(
                    VmState {
                        pc: s.pc + 1,
                        stack: s.stack.drop_last().drop_last().push(
                            add_val(s.stack[s.stack.len() - 2], s.stack.last()),
                        ),
                        ..s
                    },
                )
            } else {
                Result::Err(
                    VmError::StackUnderflow { opcode: Opcode::Add, required: 2, available: avail },
                )
            },
            Opcode::Sub => if s.stack.len() >= 2 {
                Result::Ok(
                    VmState {
                        pc: s.pc + 1,
                        stack: s.stack.drop_last().drop_last().push(
                            sub_val(s.stack[s.stack.len() - 2], s.stack.last()),
                        ),
                        ..s
                    },
                )
            } else {
                Result::Err(
                    VmError::StackUnderflow { opcode: Opcode::Sub, required: 2, available: avail },
                )
            },
            Opcode::Sqrt => if s.stack.len() >= 1 {
                Result::Ok(
                    VmState {
                        pc: s.pc + 1,
                        stack: s.stack.drop_last().push(sqrt_val(s.stack.last())),
                        ..s
                    },
                )
            } else {
                Result::Err(
                    VmError::StackUnderflow { opcode: Opcode::Sqrt, required: 1, available: avail },
                )
            },
            Opcode::Mul => if s.stack.len() >= 2 {
                Result::Ok(
                    VmState {
                        pc: s.pc + 1,
                        stack: s.stack.drop_last().drop_last().push(
                            mul_val(s.stack[s.stack.len() - 2], s.stack.last()),
                        ),
                        ..s
                    },
                )
            } else {
                Result::Err(
                    VmError::StackUnderflow { opcode: Opcode::Mul, required: 2, available: avail },
                )
            },
            Opcode::Pc => Result::Ok(
                VmState { pc: s.pc + 1, stack: s.stack.push(counter_val(s.pc as usize)), ..s },
            ),
            Opcode::Print => if s.stack.len() >= 1 {
                Result::Ok(VmState { pc: s.pc + 1, output: s.output.push(s.stack.last()), ..s })
            } else {
                Result::Err(
                    VmError::StackUnderflow {
                        opcode: Opcode::Print,
                        required: 1,
                        available: avail,
                    },
                )
            },
            Opcode::Halt => Result::Ok(s),
        }
    }
}

/// The state after `n` successful, non-halted steps from `s`; `None` when
/// execution halts or fails strictly earlier.
pub open spec fn reach(s: VmState, n: nat) -> Option<VmState>
    decreases n,
{
    if n == 0 {
        Option::Some(s)
    } else {
        match reach(s, (n - 1) as nat) {
            Option::None => Option::None,
            Option::Some(t) => if halted(t) {
                Option::None
            } else {
                match step_spec(t) {
                    Result::Ok(u) => Option::Some(u),
                    Result::Err(_) => Option::None,
                }
            },
        }
    }
}

/// Stack underflow stops the machine without mutating anything: an
/// arithmetic opcode on a stack with fewer than two entries yields
/// `StackUnderflow` naming the opcode and the depths, and the failing
/// step, by `step_spec`, leaves the state exactly as it found it.
pub proof fn lemma_underflow_no_mutation(s: VmState)
    requires
        0 <= s.pc < s.instructions.len(),
        s.instructions[s.pc] == Opcode::Add,
        s.stack.len() < 2,
    ensures
        step_spec(s) == Result::<VmState, VmError>::Err(
            VmError::StackUnderflow {
                opcode: Opcode::Add,
                required: 2,
                available: s.stack.len() as usize,
            },
        ),
{
}

impl Vm {
    /// Build a machine over a program and an initial constant store, with
    /// the program counter at zero and an empty stack and output.
    pub fn new(instructions: Vec<Opcode>, constants: ConstantStore) -> (vm: Vm)
        ensures
            vm@.pc == 0,
            vm@.instructions == instructions@,
            vm@.constants == constants@,
            vm@.stack == Seq::<u64>::empty(),
            vm@.output == Seq::<u64>::empty(),
    {
        Vm { instructions, pc: 0, stack: Vec::new(), constants, output: Vec::new() }
    }

    fn has_halt(&self) -> (b: bool)
        ensures
            b == contains_halt(self.instructions@),
    {
        let mut i: usize = 0;
        while i < self.instructions.len()
            invariant
                0 <= i <= self.instructions.len(),
                forall|k: int| 0 <= k < i ==> self.instructions@[k] != Opcode::Halt,
            decreases self.instructions.len() - i,
        {
            if self.instructions[i] == Opcode::Halt {
                return true;
            }
            i = i + 1;
        }
        false
    }

    /// Run the program until it halts, fails, or exhausts `max_steps`
    /// instruction steps.
    ///
    /// A program without any `Halt` opcode is rejected before any
    /// instruction executes, so it has no effect at all. Otherwise the
    /// machine follows `step_spec` from the initial state; on an error the
    /// state of the failing step is left exactly as it was. The step
    /// budget, a guard against runaway programs, is an addition over the
    /// machine's own semantics: `StepLimitExceeded` reports that the
    /// budget ran out with the machine still running.
    pub fn execute(&mut self, max_steps: usize) -> (r: Result<(), VmError>)
        ensures
            final(self)@.instructions == old(self)@.instructions,
            match r {
                Result::Ok(_) => exists|n: nat|
                    reach(old(self)@, n) == Option::Some(final(self)@) && halted(final(self)@),
                Result::Err(e) => if !contains_halt(old(self)@.instructions) {
                    e == VmError::MissingHalt && final(self)@ == old(self)@
                } else if e == VmError::StepLimitExceeded {
                    reach(old(self)@, max_steps as nat) == Option::Some(final(self)@) && !halted(
                        final(self)@,
                    )
                } else {
                    exists|n: nat|
                        reach(old(self)@, n) == Option::Some(final(self)@) && step_spec(
                            final(self)@,
                        ) == Result::<VmState, VmError>::Err(e)
                },
            },
    {
        if !self.has_halt() {
            return Err(VmError::MissingHalt);
        }
        let ghost init = self@;
        let mut steps: usize = 0;
        loop
            invariant
                init == old(self)@,
                steps <= max_steps,
                reach(init, steps as nat) == Option::Some(self@),
                self@.instructions == init.instructions,
                contains_halt(init.instructions),
            decreases max_steps - steps,
        {
            if self.pc >= self.instructions.len() {
                return Err(VmError::MissingHalt);
            }
            let op = self.instructions[self.pc];
            if op == Opcode::Halt {
                return Ok(());
            }
            if steps >= max_steps {
                return Err(VmError::StepLimitExceeded);
            }
            let ghost before = self@;
            match op {
                Opcode::Push(v) => {
                    self.stack.push(v);
                    self.pc = self.pc + 1;
                },
                Opcode::Jump(t) => {
                    if t < self.instructions.len() {
                        self.pc = t;
                    } else {
                        return Err(VmError::InvalidJumpTarget { target: t });
                    }
                },
                Opcode::Store(k) => {
                    if self.stack.len() >= 1 {
                        let v = self.stack[self.stack.len() - 1];
                        self.constants.set(k, v);
                        self.pc = self.pc + 1;
                    } else {
                        return Err(
                            VmError::StackUnderflow {
                                opcode: op,
                                required: 1,
                                available: self.stack.len(),
                            },
                        );
                    }
                },
                Opcode::Get(k) => {
                    match self.constants.get(k) {
                        Some(v) => {
                            self.stack.push(v);
                            self.pc = self.pc + 1;
                        },
                        None => {
                            return Err(VmError::UnknownConstantKey { key: k });
                        },
                    }
                },
                Opcode::Pop => {
                    if self.stack.len() >= 1 {
                        let _ = self.stack.pop();
                        self.pc = self.pc + 1;
                    } else {
                        return Err(
                            VmError::StackUnderflow {
                                opcode: op,
                                required: 1,
                                available: self.stack.len(),
                            },
                        );
                    }
                },
                Opcode::Dup => {
                    if self.stack.len() >= 1 {
                        let v = self.stack[self.stack.len() - 1];
                        self.stack.push(v);
                        self.pc = self.pc + 1;
                    } else {
                        return Err(
                            VmError::StackUnderflow {
                                opcode: op,
                                required: 1,
                                available: self.stack.len(),
                            },
                        );
                    }
                },
                Opcode::Add => {
                    if self.stack.len() >= 2 {
                        let a = self.stack[self.stack.len() - 1];
                        let b = self.stack[self.stack.len() - 2];
                        let _ = self.stack.pop();
                        let _ = self.stack.pop();
                        self.stack.push(add_values(b, a));
                        self.pc = self.pc + 1;
                    } else {
                        return Err(
                            VmError::StackUnderflow {
                                opcode: op,
                                required: 2,
                                available: self.stack.len(),
                            },
                        );
                    }
                },
                Opcode::Sub => {
                    if self.stack.len() >= 2 {
                        let a = self.stack[self.stack.len() - 1];
                        let b = self.stack[self.stack.len() - 2];
                        let _ = self.stack.pop();
                        let _ = self.stack.pop();
                        self.stack.push(sub_values(b, a));
                        self.pc = self.pc + 1;
                    } else {
                        return Err(
                            VmError::StackUnderflow {
                                opcode: op,
                                required: 2,
                                available: self.stack.len(),
                            },
                        );
                    }
                },
                Opcode::Sqrt => {
                    if self.stack.len() >= 1 {
                        let a = self.stack[self.stack.len() - 1];
                        let _ = self.stack.pop();
                        self.stack.push(sqrt_values(a));
                        self.pc = self.pc + 1;
                    } else {
                        return Err(
                            VmError::StackUnderflow {
                                opcode: op,
                                required: 1,
                                available: self.stack.len(),
                            },
                        );
                    }
                },
                Opcode::Mul => {
                    if self.stack.len() >= 2 {
                        let a = self.stack[self.stack.len() - 1];
                        let b = self.stack[self.stack.len() - 2];
                        let _ = self.stack.pop();
                        let _ = self.stack.pop();
                        self.stack.push(mul_values(b, a));
                        self.pc = self.pc + 1;
                    } else {
                        return Err(
                            VmError::StackUnderflow {
                                opcode: op,
                                required: 2,
                                available: self.stack.len(),
                            },
                        );
                    }
                },
                Opcode::Pc => {
                    let v = counter_value(self.pc);
                    self.stack.push(v);
                    self.pc = self.pc + 1;
                },
                Opcode::Print => {
                    if self.stack.len() >= 1 {
                        let v = self.stack[self.stack.len() - 1];
                        self.output.push(v);
                        self.pc = self.pc + 1;
                    } else {
                        return Err(
                            VmError::StackUnderflow {
                                opcode: op,
                                required: 1,
                                available: self.stack.len(),
                            },
                        );
                    }
                },
                Opcode::Halt => {
                    return Ok(());
                },
            }
            proof {
                assert(step_spec(before) == Result::<VmState, VmError>::Ok(self@));
                assert(reach(init, (steps + 1) as nat) == Option::Some(self@));
            }
            steps = steps + 1;
        }
    }
}

} // verus!
