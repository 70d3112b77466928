//! The interpreter: a register file, a program counter, wrap-around
//! addition, relative jumps and character output, run against a parsed
//! instruction sequence.

use vstd::prelude::*;

pub mod parser;
pub mod text;

use crate::vm::parser::{
    instrs_view, ConstOrReg, ConstOrRegV, Constant, Instruction, InstructionV, Register,
};
use crate::vm::text::char_from_u32;

verus! {

// ---------------------------------------------------------------------------
// The machine, as a mathematical object
// ---------------------------------------------------------------------------

/// The whole observable state of a run: the register file, the program
/// counter and the characters emitted so far (as code points).
#[verifier::ext_equal]
pub struct MachineV {
    pub regs: Map<Seq<char>, int>,
    pub pc: int,
    pub out: Seq<int>,
}

/// What one fetch-decode-execute step does.
pub enum StepV {
    /// The program counter is past the end: the machine has halted.
    Halt,
    /// A fatal condition: the run stops with this error.
    Fatal(ExecErrorV),
    /// The machine moves to this state.
    Next(MachineV),
}

/// Where a run stands after some number of steps.
pub enum RunV {
    Running(MachineV),
    Halted(MachineV),
    Failed(ExecErrorV, MachineV),
}

/// A fatal execution error: an unbound register, a jump out of range, or an
/// invalid code point. These are programming errors in the input program;
/// there is no recovery path.
#[derive(Clone, Debug, PartialEq, Eq)]
pub enum ExecError {
    /// A `mov` source or `jnz` operand read a register with no value.
    UninitialisedRegister(Register),
    /// An `add` operand (destination, source, or both) had no value; carries
    /// the unbound ones and the 1-based line number.
    AddUninitialised(Option<Register>, Option<Register>, usize),
    /// A jump would move the program counter below zero; carries the offset.
    CouldNotJump(Constant),
    /// A jump would land beyond the instruction count; carries the offset.
    JumpTooFar(Constant),
    /// `print` found a negative value or one that is no Unicode scalar
    /// value; carries the register and the value.
    InvalidCodePoint(Register, Constant),
}

/// The mathematical shape of an `ExecError`.
pub enum ExecErrorV {
    UninitialisedRegister(Seq<char>),
    AddUninitialised(Option<Seq<char>>, Option<Seq<char>>, int),
    CouldNotJump(int),
    JumpTooFar(int),
    InvalidCodePoint(Seq<char>, int),
}

impl View for ExecError {
    type V = ExecErrorV;

    open spec fn view(&self) -> ExecErrorV {
        match self {
            ExecError::UninitialisedRegister(r) => ExecErrorV::UninitialisedRegister(r@),
            ExecError::AddUninitialised(x, y, line) => ExecErrorV::AddUninitialised(
                match x {
                    Some(r) => Some(r@),
                    None => None,
                },
                match y {
                    Some(r) => Some(r@),
                    None => None,
                },
                *line as int,
            ),
            ExecError::CouldNotJump(c) => ExecErrorV::CouldNotJump(c@),
            ExecError::JumpTooFar(c) => ExecErrorV::JumpTooFar(c@),
            ExecError::InvalidCodePoint(r, c) => ExecErrorV::InvalidCodePoint(r@, c@),
        }
    }
}

/// Signed 32-bit wrap-around addition.
pub open spec fn wrap_add(a: int, b: int) -> int {
    if a + b > 0x7fff_ffff {
        a + b - 0x1_0000_0000
    } else if a + b < -0x8000_0000 {
        a + b + 0x1_0000_0000
    } else {
        a + b
    }
}

/// A Unicode scalar value: a code point outside the surrogate range.
pub open spec fn is_unicode_scalar(v: int) -> bool {
    (0 <= v < 0xD800) || (0xE000 <= v <= 0x10FFFF)
}

/// Resolves an operand: a constant is itself; a register is looked up, and
/// reading an unbound one is fatal.
pub open spec fn resolve(regs: Map<Seq<char>, int>, x: ConstOrRegV) -> Result<int, ExecErrorV> {
    match x {
        ConstOrRegV::Const(v) => Ok(v),
        ConstOrRegV::Reg(s) => if regs.contains_key(s) {
            Ok(regs[s])
        } else {
            Err(ExecErrorV::UninitialisedRegister(s))
        },
    }
}

/// One fetch-decode-execute step of the machine on `prog`.
pub open spec fn step_of(prog: Seq<InstructionV>, m: MachineV) -> StepV {
    if !(0 <= m.pc < prog.len()) {
        StepV::Halt
    } else {
        match prog[m.pc] {
            InstructionV::Mov(d, src) => match src {
                ConstOrRegV::Const(v) => StepV::Next(
                    MachineV { regs: m.regs.insert(d, v), pc: m.pc + 1, out: m.out },
                ),
                ConstOrRegV::Reg(s) => if m.regs.contains_key(s) {
                    StepV::Next(
                        MachineV { regs: m.regs.insert(d, m.regs[s]), pc: m.pc + 1, out: m.out },
                    )
                } else {
                    StepV::Fatal(ExecErrorV::UninitialisedRegister(s))
                },
            },
            InstructionV::Add(d, s) => if m.regs.contains_key(d) && m.regs.contains_key(s) {
                StepV::Next(
                    MachineV {
                        regs: m.regs.insert(d, wrap_add(m.regs[d], m.regs[s])),
                        pc: m.pc + 1,
                        out: m.out,
                    },
                )
            } else if !m.regs.contains_key(d) && m.regs.contains_key(s) {
                StepV::Fatal(ExecErrorV::AddUninitialised(Some(d), None, m.pc + 1))
            } else if m.regs.contains_key(d) && !m.regs.contains_key(s) {
                StepV::Fatal(ExecErrorV::AddUninitialised(None, Some(s), m.pc + 1))
            } else {
                StepV::Fatal(ExecErrorV::AddUninitialised(Some(d), Some(s), m.pc + 1))
            },
            InstructionV::Print(r) => if !m.regs.contains_key(r) {
                // The one tolerated soft condition: no emission, no error.
                StepV::Next(MachineV { regs: m.regs, pc: m.pc + 1, out: m.out })
            } else if is_unicode_scalar(m.regs[r]) {
                StepV::Next(MachineV { regs: m.regs, pc: m.pc + 1, out: m.out.push(m.regs[r]) })
            } else {
                StepV::Fatal(ExecErrorV::InvalidCodePoint(r, m.regs[r]))
            },
            InstructionV::Jnz(t, o) => match resolve(m.regs, t) {
                Err(e) => StepV::Fatal(e),
                Ok(tv) => if tv == 0 {
                    StepV::Next(MachineV { regs: m.regs, pc: m.pc + 1, out: m.out })
                } else {
                    match resolve(m.regs, o) {
                        Err(e) => StepV::Fatal(e),
                        Ok(ov) => {
                            let target = m.pc + ov;
                            if target < 0 {
                                StepV::Fatal(ExecErrorV::CouldNotJump(ov))
                            } else if target > prog.len() {
                                StepV::Fatal(ExecErrorV::JumpTooFar(ov))
                            } else {
                                StepV::Next(MachineV { regs: m.regs, pc: target, out: m.out })
                            }
                        },
                    }
                },
            },
        }
    }
}

/// Where the machine stands after `n` steps from `m`: still running, halted,
/// or failed; a finished run stays finished.
pub open spec fn run_n(prog: Seq<InstructionV>, m: MachineV, n: nat) -> RunV
    decreases n,
{
    if n == 0 {
        RunV::Running(m)
    } else {
        match run_n(prog, m, (n - 1) as nat) {
            RunV::Running(m2) => match step_of(prog, m2) {
                StepV::Halt => RunV::Halted(m2),
                StepV::Fatal(e) => RunV::Failed(e, m2),
                StepV::Next(m3) => RunV::Running(m3),
            },
            done => done,
        }
    }
}

/// A finished run stays as it is: further steps change nothing.
pub proof fn lemma_run_stable(prog: Seq<InstructionV>, m: MachineV, n1: nat, n2: nat)
    requires
        n1 <= n2,
        !(run_n(prog, m, n1) is Running),
    ensures
        run_n(prog, m, n2) == run_n(prog, m, n1),
    decreases n2 - n1,
{
    if n1 < n2 {
        lemma_run_stable(prog, m, n1, (n2 - 1) as nat);
    }
}

/// Execution is deterministic: a run that halts halts in exactly one state,
/// however many steps either witness took.
pub proof fn lemma_halted_state_unique(
    prog: Seq<InstructionV>,
    m: MachineV,
    n1: nat,
    n2: nat,
    h1: MachineV,
    h2: MachineV,
)
    requires
        run_n(prog, m, n1) == RunV::Halted(h1),
        run_n(prog, m, n2) == RunV::Halted(h2),
    ensures
        h1 == h2,
{
    if n1 <= n2 {
        lemma_run_stable(prog, m, n1, n2);
    } else {
        lemma_run_stable(prog, m, n2, n1);
    }
}

/// A halted machine's program counter stands at or past the end of the
/// program: there is no other way to halt.
pub proof fn lemma_halted_pc(prog: Seq<InstructionV>, m: MachineV, n: nat, h: MachineV)
    requires
        run_n(prog, m, n) == RunV::Halted(h),
    ensures
        !(0 <= h.pc < prog.len()),
    decreases n,
{
    if n > 0 {
        match run_n(prog, m, (n - 1) as nat) {
            RunV::Running(m2) => {
                assert(step_of(prog, m2) == StepV::Halt);
            },
            _ => {
                lemma_halted_pc(prog, m, (n - 1) as nat, h);
            },
        }
    }
}

/// Law: a two-instruction program of constant moves, started on the fresh
/// machine, halts with the program counter at the program's length and each
/// destination register holding exactly its constant; a later move to the
/// same register wins, and no other register is bound.
pub proof fn lemma_two_line_mov_program(r1: Seq<char>, c1: int, r2: Seq<char>, c2: int)
    ensures
        ({
            let prog = seq![
                InstructionV::Mov(r1, ConstOrRegV::Const(c1)),
                InstructionV::Mov(r2, ConstOrRegV::Const(c2)),
            ];
            let init = MachineV { regs: Map::empty(), pc: 0, out: Seq::empty() };
            let fin = MachineV {
                regs: Map::<Seq<char>, int>::empty().insert(r1, c1).insert(r2, c2),
                pc: 2,
                out: Seq::empty(),
            };
            &&& run_n(prog, init, 3) == RunV::Halted(fin)
            &&& fin.pc == prog.len()
            &&& fin.regs[r2] == c2
            &&& (r1 != r2 ==> fin.regs[r1] == c1)
            &&& forall|s: Seq<char>| fin.regs.contains_key(s) ==> s == r1 || s == r2
        }),
{
    let prog = seq![
        InstructionV::Mov(r1, ConstOrRegV::Const(c1)),
        InstructionV::Mov(r2, ConstOrRegV::Const(c2)),
    ];
    let init = MachineV { regs: Map::empty(), pc: 0, out: Seq::empty() };
    let m1 = MachineV { regs: Map::<Seq<char>, int>::empty().insert(r1, c1), pc: 1, out: Seq::empty() };
    let m2 = MachineV {
        regs: Map::<Seq<char>, int>::empty().insert(r1, c1).insert(r2, c2),
        pc: 2,
        out: Seq::empty(),
    };
    assert(run_n(prog, init, 0) == RunV::Running(init));
    assert(step_of(prog, init) == StepV::Next(m1));
    assert(run_n(prog, init, 1) == RunV::Running(m1));
    assert(step_of(prog, m1) == StepV::Next(m2));
    assert(run_n(prog, init, 2) == RunV::Running(m2));
    assert(step_of(prog, m2) == StepV::Halt);
    assert(run_n(prog, init, 3) == RunV::Halted(m2));
}

/// The code points of the characters emitted so far.
pub open spec fn out_view(s: Seq<char>) -> Seq<int> {
    s.map_values(|c: char| c as u32 as int)
}

// ---------------------------------------------------------------------------
// The register file
// ---------------------------------------------------------------------------

/// The mapping that a list of register-value entries denotes; a later entry
/// for the same name wins.
pub open spec fn map_of(entries: Seq<(Register, Constant)>) -> Map<Seq<char>, int>
    decreases entries.len(),
{
    if entries.len() == 0 {
        Map::empty()
    } else {
        map_of(entries.drop_last()).insert(entries.last().0@, entries.last().1@)
    }
}

pub open spec fn unique_keys(entries: Seq<(Register, Constant)>) -> bool {
    forall|i: int, j: int| 0 <= i < j < entries.len() ==> entries[i].0@ != entries[j].0@
}

proof fn lemma_map_of_contains(entries: Seq<(Register, Constant)>, i: int)
    requires
        unique_keys(entries),
        0 <= i < entries.len(),
    ensures
        map_of(entries).contains_key(entries[i].0@),
        map_of(entries)[entries[i].0@] == entries[i].1@,
    decreases entries.len(),
{
    if i == entries.len() - 1 {
    } else {
        assert(entries.drop_last()[i] == entries[i]);
        assert(unique_keys(entries.drop_last()));
        lemma_map_of_contains(entries.drop_last(), i);
        assert(entries[i].0@ != entries.last().0@);
    }
}

proof fn lemma_map_of_absent(entries: Seq<(Register, Constant)>, k: Seq<char>)
    requires
        forall|i: int| 0 <= i < entries.len() ==> entries[i].0@ != k,
    ensures
        !map_of(entries).contains_key(k),
    decreases entries.len(),
{
    if entries.len() > 0 {
        assert(forall|i: int|
            0 <= i < entries.drop_last().len() ==> entries.drop_last()[i] == entries[i]);
        lemma_map_of_absent(entries.drop_last(), k);
    }
}

proof fn lemma_map_of_update(entries: Seq<(Register, Constant)>, i: int, r: Register, c: Constant)
    requires
        unique_keys(entries),
        0 <= i < entries.len(),
        entries[i].0@ == r@,
    ensures
        map_of(entries.update(i, (r, c))) == map_of(entries).insert(r@, c@),
    decreases entries.len(),
{
    let e2 = entries.update(i, (r, c));
    if i == entries.len() - 1 {
        assert(e2.drop_last() =~= entries.drop_last());
        assert(e2.last() == (r, c));
        assert(map_of(entries.drop_last()).insert(entries.last().0@, entries.last().1@).insert(
            r@,
            c@,
        ) =~= map_of(entries.drop_last()).insert(r@, c@));
    } else {
        assert(e2.drop_last() =~= entries.drop_last().update(i, (r, c)));
        assert(e2.last() == entries.last());
        assert(entries.drop_last()[i] == entries[i]);
        assert(unique_keys(entries.drop_last()));
        lemma_map_of_update(entries.drop_last(), i, r, c);
        assert(entries.last().0@ != r@);
        assert(map_of(entries.drop_last()).insert(r@, c@).insert(
            entries.last().0@,
            entries.last().1@,
        ) =~= map_of(entries.drop_last()).insert(entries.last().0@, entries.last().1@).insert(
            r@,
            c@,
        ));
    }
}

// ---------------------------------------------------------------------------
// The interpreter
// ---------------------------------------------------------------------------

/// The outcome of a run that did not fail: the machine halted, or the step
/// budget ran out first.
#[derive(Clone, Copy, Debug, PartialEq, Eq)]
pub enum RunOutcome {
    Halted,
    OutOfFuel,
}

/// The interpreter: owns the register file, the program counter and the
/// output buffer.
pub struct Vm {
    registers: Vec<(Register, Constant)>,
    pc: usize,
    max_len: usize,
    output: Vec<char>,
}

impl Vm {
    /// The register file never holds two entries for one name.
    pub closed spec fn wf(&self) -> bool {
        unique_keys(self.registers@)
    }

    /// The machine state this interpreter is in.
    pub closed spec fn machine(&self) -> MachineV {
        MachineV {
            regs: map_of(self.registers@),
            pc: self.pc as int,
            out: out_view(self.output@),
        }
    }

    /// A fresh machine: empty register file, program counter zero, nothing
    /// emitted.
    pub fn new() -> (vm: Vm)
        ensures
            vm.wf(),
            vm.machine() == (MachineV { regs: Map::empty(), pc: 0, out: Seq::empty() }),
    {
        let vm = Vm { registers: Vec::new(), pc: 0, max_len: 0, output: Vec::new() };
        proof {
            assert(out_view(vm.output@) =~= Seq::<int>::empty());
            assert(vm.machine() =~= (MachineV { regs: Map::empty(), pc: 0, out: Seq::empty() }));
        }
        vm
    }

    /// The current program counter.
    pub fn pc(&self) -> (r: usize)
        ensures
            r as int == self.machine().pc,
    {
        self.pc
    }

    /// The value a register holds, if any.
    pub fn get(&self, x: &Register) -> (r: Option<Constant>)
        requires
            self.wf(),
        ensures
            match r {
                Some(c) => self.machine().regs.contains_key(x@) && c@ == self.machine().regs[x@],
                None => !self.machine().regs.contains_key(x@),
            },
    {
        let n = self.registers.len();
        let mut i: usize = 0;
        while i < n
            invariant
                i <= n,
                n == self.registers@.len(),
                self.wf(),
                forall|j: int| 0 <= j < i ==> self.registers@[j].0@ != x@,
            decreases n - i,
        {
            if self.registers[i].0.same_as(x) {
                proof {
                    lemma_map_of_contains(self.registers@, i as int);
                }
                return Some(self.registers[i].1);
            }
            i = i + 1;
        }
        proof {
            lemma_map_of_absent(self.registers@, x@);
        }
        None
    }

    /// The characters emitted so far, in execution order.
    pub fn output(&self) -> (r: &Vec<char>)
        ensures
            out_view(r@) == self.machine().out,
    {
        &self.output
    }

    /// Binds a register to a value, replacing any earlier binding.
    fn reg_set(&mut self, x: &Register, v: Constant)
        requires
            old(self).wf(),
        ensures
            final(self).wf(),
            map_of(final(self).registers@) == map_of(old(self).registers@).insert(x@, v@),
            final(self).pc == old(self).pc,
            final(self).max_len == old(self).max_len,
            final(self).output == old(self).output,
    {
        let n = self.registers.len();
        let mut i: usize = 0;
        while i < n
            invariant
                i <= n,
                n == self.registers@.len(),
                self.wf(),
                self.registers@ == old(self).registers@,
                self.pc == old(self).pc,
                self.max_len == old(self).max_len,
                self.output == old(self).output,
                forall|j: int| 0 <= j < i ==> self.registers@[j].0@ != x@,
            decreases n - i,
        {
            if self.registers[i].0.same_as(x) {
                let ghost prev = self.registers@;
                self.registers[i] = (x.duplicate(), v);
                proof {
                    lemma_map_of_update(prev, i as int, self.registers@[i as int].0,
                        self.registers@[i as int].1);
                    assert(prev.update(i as int, self.registers@[i as int]) =~= self.registers@);
                    assert forall|a: int, b: int|
                        0 <= a < b < self.registers@.len() implies self.registers@[a].0@
                        != self.registers@[b].0@ by {
                        assert(prev[a].0@ != prev[b].0@);
                    }
                }
                return ;
            }
            i = i + 1;
        }
        let ghost prev = self.registers@;
        self.registers.push((x.duplicate(), v));
        proof {
            assert(self.registers@.drop_last() =~= prev);
            assert forall|a: int, b: int|
                0 <= a < b < self.registers@.len() implies self.registers@[a].0@
                != self.registers@[b].0@ by {
                if b < prev.len() {
                    assert(prev[a].0@ != prev[b].0@);
                } else {
                    assert(self.registers@[b].0@ == x@);
                    assert(prev[a].0@ != x@);
                }
            }
        }
    }

    /// `mov` with a constant source: binds unconditionally, steps on.
    fn mov_const(&mut self, x: &Register, y: Constant)
        requires
            old(self).wf(),
            old(self).pc < old(self).max_len,
        ensures
            final(self).wf(),
            final(self).max_len == old(self).max_len,
            final(self).machine() == (MachineV {
                regs: old(self).machine().regs.insert(x@, y@),
                pc: old(self).machine().pc + 1,
                out: old(self).machine().out,
            }),
    {
        self.reg_set(x, y);
        self.pc = self.pc + 1;
    }

    /// `mov` with a register source: copies its value; reading an unbound
    /// register is fatal.
    fn mov(&mut self, x: &Register, y: &Register) -> (r: Result<(), ExecError>)
        requires
            old(self).wf(),
            old(self).pc < old(self).max_len,
        ensures
            final(self).wf(),
            final(self).max_len == old(self).max_len,
            ({
                let m = old(self).machine();
                match r {
                    Ok(()) => m.regs.contains_key(y@) && final(self).machine() == (MachineV {
                        regs: m.regs.insert(x@, m.regs[y@]),
                        pc: m.pc + 1,
                        out: m.out,
                    }),
                    Err(e) => !m.regs.contains_key(y@) && e@ == ExecErrorV::UninitialisedRegister(
                        y@,
                    ) && final(self).machine() == m,
                }
            }),
    {
        match self.get(y) {
            Some(val) => {
                self.reg_set(x, val);
                self.pc = self.pc + 1;
                Ok(())
            },
            None => Err(ExecError::UninitialisedRegister(y.duplicate())),
        }
    }

    /// `add`: wrap-around addition of two bound registers into the first;
    /// an unbound operand is fatal, named together with the 1-based line.
    fn add(&mut self, x: &Register, y: &Register) -> (r: Result<(), ExecError>)
        requires
            old(self).wf(),
            old(self).pc < old(self).max_len,
        ensures
            final(self).wf(),
            final(self).max_len == old(self).max_len,
            ({
                let m = old(self).machine();
                match r {
                    Ok(()) => m.regs.contains_key(x@) && m.regs.contains_key(y@)
                        && final(self).machine() == (MachineV {
                        regs: m.regs.insert(x@, wrap_add(m.regs[x@], m.regs[y@])),
                        pc: m.pc + 1,
                        out: m.out,
                    }),
                    Err(e) => final(self).machine() == m && !(m.regs.contains_key(x@)
                        && m.regs.contains_key(y@)) && e@ == (if !m.regs.contains_key(x@)
                        && m.regs.contains_key(y@) {
                        ExecErrorV::AddUninitialised(Some(x@), None, m.pc + 1)
                    } else if m.regs.contains_key(x@) && !m.regs.contains_key(y@) {
                        ExecErrorV::AddUninitialised(None, Some(y@), m.pc + 1)
                    } else {
                        ExecErrorV::AddUninitialised(Some(x@), Some(y@), m.pc + 1)
                    }),
                }
            }),
    {
        let line = self.pc + 1;
        match (self.get(x), self.get(y)) {
            (Some(vx), Some(vy)) => {
                let res = Constant::of(vx.value().wrapping_add(vy.value()));
                self.reg_set(x, res);
                self.pc = self.pc + 1;
                Ok(())
            },
            (None, Some(_)) => Err(
                ExecError::AddUninitialised(Some(x.duplicate()), None, line),
            ),
            (Some(_), None) => Err(
                ExecError::AddUninitialised(None, Some(y.duplicate()), line),
            ),
            (None, None) => Err(
                ExecError::AddUninitialised(Some(x.duplicate()), Some(y.duplicate()), line),
            ),
        }
    }

    /// `print`: emits the register's value as a character; a value outside
    /// the Unicode scalar range is fatal; an unbound register is a silent
    /// no-op.
    fn print(&mut self, x: &Register) -> (r: Result<(), ExecError>)
        requires
            old(self).wf(),
            old(self).pc < old(self).max_len,
        ensures
            final(self).wf(),
            final(self).max_len == old(self).max_len,
            ({
                let m = old(self).machine();
                match r {
                    Ok(()) => if !m.regs.contains_key(x@) {
                        final(self).machine() == (MachineV { regs: m.regs, pc: m.pc + 1, out: m.out })
                    } else {
                        is_unicode_scalar(m.regs[x@]) && final(self).machine() == (MachineV {
                            regs: m.regs,
                            pc: m.pc + 1,
                            out: m.out.push(m.regs[x@]),
                        })
                    },
                    Err(e) => final(self).machine() == m && m.regs.contains_key(x@)
                        && !is_unicode_scalar(m.regs[x@]) && e@ == ExecErrorV::InvalidCodePoint(
                        x@,
                        m.regs[x@],
                    ),
                }
            }),
    {
        match self.get(x) {
            Some(val) => {
                let v = val.value();
                if v < 0 {
                    return Err(ExecError::InvalidCodePoint(x.duplicate(), val));
                }
                match char_from_u32(v as u32) {
                    Some(ch) => {
                        let ghost prev_out = self.output@;
                        self.output.push(ch);
                        self.pc = self.pc + 1;
                        proof {
                            assert(ch as u32 == v as u32);
                            assert(v as u32 as int == v as int);
                            assert(ch as u32 as int == val@);
                            assert(out_view(self.output@) =~= out_view(prev_out).push(
                                ch as u32 as int,
                            ));
                        }
                        Ok(())
                    },
                    None => Err(ExecError::InvalidCodePoint(x.duplicate(), val)),
                }
            },
            None => {
                self.pc = self.pc + 1;
                Ok(())
            },
        }
    }

    /// Resolves a `jnz` operand: a constant directly, a register by lookup;
    /// an unbound register is fatal.
    fn get_const_or_load(&self, x: &ConstOrReg) -> (r: Result<Constant, ExecError>)
        requires
            self.wf(),
        ensures
            ({
                let sp = resolve(self.machine().regs, x@);
                match r {
                    Ok(c) => sp == Ok::<int, ExecErrorV>(c@),
                    Err(e) => sp == Err::<int, ExecErrorV>(e@),
                }
            }),
    {
        match x {
            ConstOrReg::Const(c) => Ok(*c),
            ConstOrReg::Reg(reg) => match self.get(reg) {
                Some(c) => Ok(c),
                None => Err(ExecError::UninitialisedRegister(reg.duplicate())),
            },
        }
    }

    /// `jnz`: steps on when the test is zero, else moves the counter by the
    /// offset; going below zero or past the instruction count is fatal.
    fn jumpz(&mut self, x: &ConstOrReg, y: &ConstOrReg) -> (r: Result<(), ExecError>)
        requires
            old(self).wf(),
            old(self).pc < old(self).max_len,
        ensures
            final(self).wf(),
            final(self).max_len == old(self).max_len,
            ({
                let m = old(self).machine();
                let len = old(self).max_len as int;
                match r {
                    Ok(()) => match resolve(m.regs, x@) {
                        Ok(tv) => if tv == 0 {
                            final(self).machine() == (MachineV {
                                regs: m.regs,
                                pc: m.pc + 1,
                                out: m.out,
                            })
                        } else {
                            match resolve(m.regs, y@) {
                                Ok(ov) => 0 <= m.pc + ov <= len && final(self).machine()
                                    == (MachineV { regs: m.regs, pc: m.pc + ov, out: m.out }),
                                Err(_) => false,
                            }
                        },
                        Err(_) => false,
                    },
                    Err(e) => final(self).machine() == m && match resolve(m.regs, x@) {
                        Err(e1) => e@ == e1,
                        Ok(tv) => tv != 0 && match resolve(m.regs, y@) {
                            Err(e2) => e@ == e2,
                            Ok(ov) => if m.pc + ov < 0 {
                                e@ == ExecErrorV::CouldNotJump(ov)
                            } else {
                                m.pc + ov > len && e@ == ExecErrorV::JumpTooFar(ov)
                            },
                        },
                    },
                }
            }),
    {
        let tv = match self.get_const_or_load(x) {
            Ok(c) => c,
            Err(e) => {
                return Err(e);
            },
        };
        if tv.value() == 0 {
            self.pc = self.pc + 1;
            return Ok(());
        }
        let ov = match self.get_const_or_load(y) {
            Ok(c) => c,
            Err(e) => {
                return Err(e);
            },
        };
        let o = ov.value();
        if o < 0 {
            let mag: u64 = (-(o as i64)) as u64;
            if (self.pc as u64) < mag {
                return Err(ExecError::CouldNotJump(ov));
            }
            self.pc = self.pc - (mag as usize);
            Ok(())
        } else {
            let mag: u64 = o as u64;
            let room: u64 = (self.max_len - self.pc) as u64;
            if mag > room {
                return Err(ExecError::JumpTooFar(ov));
            }
            self.pc = self.pc + (mag as usize);
            Ok(())
        }
    }

    /// Runs the program from `start_pc` for at most `fuel` steps: to the
    /// halt state, to a fatal error, or until the budget is spent. The
    /// result is exactly where the step semantics puts the machine.
    #[verifier::loop_isolation(false)]
    pub fn interpret(
        &mut self,
        instructions: &Vec<Instruction>,
        start_pc: usize,
        fuel: usize,
    ) -> (r: Result<RunOutcome, ExecError>)
        requires
            old(self).wf(),
        ensures
            final(self).wf(),
            ({
                let prog = instrs_view(instructions@);
                let init = MachineV {
                    regs: old(self).machine().regs,
                    pc: start_pc as int,
                    out: old(self).machine().out,
                };
                &&& (r == Ok::<RunOutcome, ExecError>(RunOutcome::Halted) ==> exists|n: nat|
                    run_n(prog, init, n) == RunV::Halted(final(self).machine()))
                &&& (r == Ok::<RunOutcome, ExecError>(RunOutcome::OutOfFuel) ==> run_n(
                    prog,
                    init,
                    fuel as nat,
                ) == RunV::Running(final(self).machine()))
                &&& (r matches Err(e) ==> exists|n: nat|
                    run_n(prog, init, n) == RunV::Failed(e@, final(self).machine()))
            }),
    {
        self.pc = start_pc;
        self.max_len = instructions.len();
        let ghost prog = instrs_view(instructions@);
        let ghost init = MachineV {
            regs: old(self).machine().regs,
            pc: start_pc as int,
            out: old(self).machine().out,
        };
        proof {
            assert(self.machine() =~= init);
        }
        let mut steps: usize = 0;
        loop
            invariant
                self.wf(),
                steps <= fuel,
                self.max_len == instructions@.len(),
                prog == instrs_view(instructions@),
                prog.len() == instructions@.len(),
                run_n(prog, init, steps as nat) == RunV::Running(self.machine()),
            decreases fuel - steps,
        {
            if self.pc >= self.max_len {
                proof {
                    assert(step_of(prog, self.machine()) == StepV::Halt);
                    assert(run_n(prog, init, (steps + 1) as nat) == RunV::Halted(
                        self.machine(),
                    ));
                    assert(exists|n: nat|
                        run_n(prog, init, n) == RunV::Halted(self.machine()));
                }
                return Ok(RunOutcome::Halted);
            }
            if steps == fuel {
                return Ok(RunOutcome::OutOfFuel);
            }
            let ghost m0 = self.machine();
            let instr = &instructions[self.pc];
            proof {
                assert(prog[m0.pc] == instr@);
            }
            let outcome: Result<(), ExecError> = match instr {
                Instruction::Mov(x, y) => match y {
                    ConstOrReg::Const(c) => {
                        self.mov_const(x, *c);
                        Ok(())
                    },
                    ConstOrReg::Reg(reg) => self.mov(x, reg),
                },
                Instruction::Add(x, y) => self.add(x, y),
                Instruction::Print(x) => self.print(x),
                Instruction::Jnz(x, y) => self.jumpz(x, y),
            };
            match outcome {
                Ok(()) => {
                    proof {
                        assert(step_of(prog, m0) == StepV::Next(self.machine()));
                        assert(run_n(prog, init, (steps + 1) as nat) == RunV::Running(
                            self.machine(),
                        ));
                    }
                    steps = steps + 1;
                },
                Err(e) => {
                    proof {
                        assert(step_of(prog, m0) == StepV::Fatal(e@));
                        assert(run_n(prog, init, (steps + 1) as nat) == RunV::Failed(
                            e@,
                            self.machine(),
                        ));
                        assert(exists|n: nat|
                            run_n(prog, init, n) == RunV::Failed(e@, self.machine()));
                    }
                    return Err(e);
                },
            }
        }
    }
}

} // verus!
