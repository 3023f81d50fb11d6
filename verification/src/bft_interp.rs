//! Interpreter with a virtual machine.
//!
//! The machine owns a tape of cells and a head index, borrows a validated
//! program, and consumes one byte-input and one byte-output stream.  Its
//! behaviour is pinned by a small-step machine over mathematical state:
//! running the machine is producing, for some number of steps, what the
//! small-step relation produces.

use vstd::prelude::*;

use crate::bft_types::{partner_ok, partners_wf, BFCharCmdName, BFCharInfo, BFProgram};

verus! {

/// An input or output transfer failed; carries the instruction that
/// caused it.  For input, the one failure is an exhausted input stream.
#[derive(Debug, Copy, Clone, PartialEq)]
pub struct BFVirtualMachineIOErr {
    pub cmd: BFCharInfo,
}

/// The ways a run can fail.
#[derive(Debug, Copy, Clone, PartialEq)]
pub enum BFVmErr {
    /// The head would fall off either edge of the tape: below zero, or
    /// past the last cell of a tape that may not grow.  Carries the
    /// instruction that caused it.
    HeadInvalidPositionErr(BFCharInfo),
    /// An input or output transfer failed.
    IOErr(BFVirtualMachineIOErr),
    /// A loop instruction had no resolved partner.  Unreachable when the
    /// program passed validation first.
    BracketPairErr(BFCharInfo),
    /// The run was abandoned because it took more than [`STEP_BUDGET`]
    /// instructions.  The budget is far beyond what any physical run can
    /// reach; the variant exists so that the execution loop has a bound
    /// the verifier can check, and its contract still tells the truth.
    StepLimitErr,
}

/// How many instructions one run may execute.  Counting one step per
/// nanosecond, exhausting this budget would take centuries.
pub const STEP_BUDGET: u64 = u64::MAX;

impl From<BFVirtualMachineIOErr> for BFVmErr {
    fn from(error: BFVirtualMachineIOErr) -> (r: Self) {
        BFVmErr::IOErr(error)
    }
}

impl vstd::std_specs::convert::FromSpecImpl<BFVirtualMachineIOErr> for BFVmErr {
    open spec fn obeys_from_spec() -> bool {
        true
    }

    open spec fn from_spec(t: BFVirtualMachineIOErr) -> BFVmErr {
        BFVmErr::IOErr(t)
    }
}

/// Output with a line terminator appended, unless the last byte written
/// was already one.
pub open spec fn newline_terminated(out: Seq<u8>, tail: u8) -> Seq<u8> {
    if tail == 0x0a {
        out
    } else {
        out.push(0x0a)
    }
}

/// The finalization step of a run: appends one line terminator to the
/// output unless the last byte written was already one.
pub struct BFPrintNewLine {
    tail: u8,
}

impl BFPrintNewLine {
    /// The last byte the run wrote, or zero if it wrote nothing.
    pub closed spec fn spec_tail(self) -> u8 {
        self.tail
    }

    /// Remember the last byte written, to decide the trailing newline.
    pub fn new(tail: u8) -> (r: Self)
        ensures
            r.spec_tail() == tail,
    {
        BFPrintNewLine { tail }
    }

    /// Append the newline if one is owed.
    pub fn print_newline(&self, output: &mut Vec<u8>)
        ensures
            final(output)@ == newline_terminated(old(output)@, self.spec_tail()),
    {
        if self.tail != 0x0a {
            output.push(0x0a);
        }
    }
}

/// A byte advanced by one, wrapping at 256.
pub open spec fn wrap_inc(v: u8) -> u8 {
    (((v as int) + 1) % 256) as u8
}

/// A byte reduced by one, wrapping at 256.
pub open spec fn wrap_dec(v: u8) -> u8 {
    (((v as int) + 255) % 256) as u8
}

/// What a tape cell supports: wrapping increment and decrement, and
/// reading and writing its byte.  The reference implementation is the
/// 8-bit byte itself; a wider cell may be substituted provided it honours
/// the same modular behaviour of its observable byte and a zero value.
pub trait CellKind: Sized {
    /// The byte the cell currently holds.
    spec fn cell_view(&self) -> u8;

    /// A cell holding the zero value.
    fn zero() -> (r: Self)
        ensures
            r.cell_view() == 0,
    ;

    /// Add one to the cell, wrapping modulo 256.
    fn increment(&mut self)
        ensures
            final(self).cell_view() as int == (old(self).cell_view() as int + 1) % 256,
    ;

    /// Subtract one from the cell, wrapping modulo 256.
    fn decrement(&mut self)
        ensures
            final(self).cell_view() as int == (old(self).cell_view() as int + 255) % 256,
    ;

    /// Read the cell's byte.
    fn get_value(&mut self) -> (r: u8)
        ensures
            r == old(self).cell_view(),
            final(self).cell_view() == old(self).cell_view(),
    ;

    /// Write a byte into the cell.
    fn set_value(&mut self, value: u8)
        ensures
            final(self).cell_view() == value,
    ;
}

impl CellKind for u8 {
    open spec fn cell_view(&self) -> u8 {
        *self
    }

    fn zero() -> (r: Self) {
        0
    }

    fn increment(&mut self) {
        *self = self.wrapping_add(1);
    }

    fn decrement(&mut self) {
        *self = self.wrapping_sub(1);
    }

    fn get_value(&mut self) -> (r: u8) {
        *self
    }

    fn set_value(&mut self, value: u8) {
        *self = value;
    }
}

/// The mathematical state of a run: the tape's bytes, the head index, the
/// growth policy, the execution cursor, how much input was consumed, what
/// output was produced, and the last byte written (zero before the first
/// write), which decides the trailing newline.
pub ghost struct VmState {
    pub cells: Seq<u8>,
    pub head: int,
    pub allow_extend: bool,
    pub pc: int,
    pub in_pos: int,
    pub output: Seq<u8>,
    pub tail: u8,
}

/// What one instruction does: a successor state, or the error that aborts
/// the run.
pub ghost enum VmStep {
    Next(VmState),
    Stuck(BFVmErr),
}

/// The outcome of a bounded number of steps: still running, ran past the
/// last instruction, or aborted by an error in the state it struck.
pub ghost enum VmOutcome {
    Running(VmState),
    Finished(VmState),
    Failed(BFVmErr, VmState),
}

/// One step of the machine at cursor `s.pc`.  Loop instructions jump to
/// the slot after their resolved partner; every other instruction, and a
/// falling-through loop instruction, advances the cursor by one.
pub open spec fn vm_step(prog: Seq<BFCharInfo>, input: Seq<u8>, s: VmState) -> VmStep
    recommends
        0 <= s.pc < prog.len(),
{
    let ins = prog[s.pc];
    match ins.raw {
        BFCharCmdName::PointerIncrement => {
            if s.head + 1 < s.cells.len() {
                VmStep::Next(VmState { head: s.head + 1, pc: s.pc + 1, ..s })
            } else if s.allow_extend {
                VmStep::Next(
                    VmState { cells: s.cells.push(0), head: s.head + 1, pc: s.pc + 1, ..s },
                )
            } else {
                VmStep::Stuck(BFVmErr::HeadInvalidPositionErr(ins))
            }
        },
        BFCharCmdName::PointerDecrement => {
            if s.head > 0 {
                VmStep::Next(VmState { head: s.head - 1, pc: s.pc + 1, ..s })
            } else {
                VmStep::Stuck(BFVmErr::HeadInvalidPositionErr(ins))
            }
        },
        BFCharCmdName::DataIncrement => VmStep::Next(
            VmState { cells: s.cells.update(s.head, wrap_inc(s.cells[s.head])), pc: s.pc + 1, ..s },
        ),
        BFCharCmdName::DataDecrement => VmStep::Next(
            VmState { cells: s.cells.update(s.head, wrap_dec(s.cells[s.head])), pc: s.pc + 1, ..s },
        ),
        BFCharCmdName::DataOutput => VmStep::Next(
            VmState {
                output: s.output.push(s.cells[s.head]),
                tail: s.cells[s.head],
                pc: s.pc + 1,
                ..s
            },
        ),
        BFCharCmdName::DataInput => {
            if s.in_pos < input.len() {
                VmStep::Next(
                    VmState {
                        cells: s.cells.update(s.head, input[s.in_pos]),
                        in_pos: s.in_pos + 1,
                        pc: s.pc + 1,
                        ..s
                    },
                )
            } else {
                VmStep::Stuck(BFVmErr::IOErr(BFVirtualMachineIOErr { cmd: ins }))
            }
        },
        BFCharCmdName::LoopStart(p) => {
            if s.cells[s.head] == 0 {
                match p {
                    Some(r) => VmStep::Next(VmState { pc: r + 1, ..s }),
                    None => VmStep::Stuck(BFVmErr::BracketPairErr(ins)),
                }
            } else {
                VmStep::Next(VmState { pc: s.pc + 1, ..s })
            }
        },
        BFCharCmdName::LoopTerminate(p) => {
            if s.cells[s.head] != 0 {
                match p {
                    Some(r) => VmStep::Next(VmState { pc: r + 1, ..s }),
                    None => VmStep::Stuck(BFVmErr::BracketPairErr(ins)),
                }
            } else {
                VmStep::Next(VmState { pc: s.pc + 1, ..s })
            }
        },
    }
}

/// A state viewed as an outcome before any step is taken: finished if the
/// cursor is past the program, otherwise still running.
pub open spec fn outcome0(prog: Seq<BFCharInfo>, s: VmState) -> VmOutcome {
    if 0 <= s.pc < prog.len() {
        VmOutcome::Running(s)
    } else {
        VmOutcome::Finished(s)
    }
}

/// The machine run for at most `fuel` steps from `s`.
pub open spec fn vm_run(prog: Seq<BFCharInfo>, input: Seq<u8>, s: VmState, fuel: nat) -> VmOutcome
    decreases fuel,
{
    if !(0 <= s.pc < prog.len()) {
        VmOutcome::Finished(s)
    } else if fuel == 0 {
        VmOutcome::Running(s)
    } else {
        match vm_step(prog, input, s) {
            VmStep::Next(s2) => vm_run(prog, input, s2, (fuel - 1) as nat),
            VmStep::Stuck(e) => VmOutcome::Failed(e, s),
        }
    }
}

/// The mathematical state a run starts in: the machine as it stands, no
/// input consumed, no output produced, and a zero last-written byte.
pub open spec fn start_state<'a, T: CellKind>(
    vm: BFVirtualMachine<'a, T>,
) -> VmState {
    VmState {
        cells: vm.cells_view(),
        head: vm.head_idx(),
        allow_extend: vm.extendable(),
        pc: vm.cursor(),
        in_pos: 0,
        output: Seq::empty(),
        tail: 0,
    }
}

/// The tape length used when the requested length is zero.
pub const DEFAULT_CELLS_LEN: usize = 30000;

/// The tape length a request resolves to: the requested length, or the
/// default when zero was requested.
pub open spec fn spec_tape_len(len: usize) -> nat {
    if len > 0 {
        len as nat
    } else {
        DEFAULT_CELLS_LEN as nat
    }
}

/// The virtual machine: a tape of cells with a head index, a growth
/// policy, a borrowed program, and the execution cursor.  All of them are
/// created fresh per run.
#[derive(Debug)]
pub struct BFVirtualMachine<'a, T> {
    cells: Vec<T>,
    head: usize,
    allow_extend: bool,
    program: &'a BFProgram,
    program_cnt: usize,
}

impl<'a, T: CellKind> BFVirtualMachine<'a, T> {
    /// The bytes the tape currently holds.
    pub closed spec fn cells_view(self) -> Seq<u8> {
        self.cells@.map(|i: int, c: T| c.cell_view())
    }

    /// The head index.
    pub closed spec fn head_idx(self) -> int {
        self.head as int
    }

    /// Whether the tape may grow at the high end.
    pub closed spec fn extendable(self) -> bool {
        self.allow_extend
    }

    /// The borrowed program.
    pub closed spec fn prog(self) -> BFProgram {
        *self.program
    }

    /// The execution cursor.
    pub closed spec fn cursor(self) -> int {
        self.program_cnt as int
    }

    /// The head lies on the tape.
    pub open spec fn wf(self) -> bool {
        0 <= self.head_idx() < self.cells_view().len()
    }

    /// A fresh machine: a zeroed tape of the resolved length, head and
    /// cursor at zero.
    pub fn new(len: usize, extendable: bool, bf_info: &'a BFProgram) -> (r: Self)
        ensures
            r.cells_view() == Seq::new(spec_tape_len(len), |i: int| 0u8),
            r.head_idx() == 0,
            r.cursor() == 0,
            r.extendable() == extendable,
            r.prog() == *bf_info,
            r.wf(),
    {
        let cell_len: usize = if len > 0 {
            len
        } else {
            DEFAULT_CELLS_LEN
        };
        let mut cells: Vec<T> = Vec::new();
        let mut k: usize = 0;
        while k < cell_len
            invariant
                k <= cell_len,
                cells@.len() == k,
                forall|i: int| 0 <= i < k ==> (#[trigger] cells@[i]).cell_view() == 0,
            decreases cell_len - k,
        {
            cells.push(T::zero());
            k = k + 1;
        }
        let r = BFVirtualMachine {
            cells,
            head: 0,
            allow_extend: extendable,
            program: bf_info,
            program_cnt: 0,
        };
        proof {
            assert(r.cells_view() =~= Seq::new(spec_tape_len(len), |i: int| 0u8));
        }
        r
    }

    /// Move the head one cell to the left; from index zero this fails
    /// with a bounds error citing the current instruction, whatever the
    /// tape's length or growth policy.
    pub fn move_head_left(&mut self) -> (r: Result<(), BFVmErr>)
        requires
            old(self).wf(),
            0 <= old(self).cursor() < old(self).prog()@.len(),
        ensures
            final(self).wf(),
            final(self).prog() == old(self).prog(),
            final(self).extendable() == old(self).extendable(),
            final(self).cursor() == old(self).cursor(),
            final(self).cells_view() == old(self).cells_view(),
            match r {
                Ok(()) => old(self).head_idx() > 0 && final(self).head_idx() == old(self).head_idx()
                    - 1,
                Err(e) => old(self).head_idx() == 0 && final(self).head_idx() == 0 && e
                    == BFVmErr::HeadInvalidPositionErr(old(self).prog()@[old(self).cursor()]),
            },
    {
        if self.head > 0 {
            self.head = self.head - 1;
            Ok(())
        } else {
            Err(BFVmErr::HeadInvalidPositionErr(self.program.instructions()[self.program_cnt]))
        }
    }

    /// Move the head one cell to the right.  At the last cell, an
    /// extensible tape grows by exactly one zero cell and the move
    /// succeeds; a fixed tape fails with a bounds error citing the
    /// current instruction.
    pub fn move_head_right(&mut self) -> (r: Result<(), BFVmErr>)
        requires
            old(self).wf(),
            0 <= old(self).cursor() < old(self).prog()@.len(),
        ensures
            final(self).wf(),
            final(self).prog() == old(self).prog(),
            final(self).extendable() == old(self).extendable(),
            final(self).cursor() == old(self).cursor(),
            match r {
                Ok(()) => final(self).head_idx() == old(self).head_idx() + 1 && (if old(
                    self,
                ).head_idx() + 1 < old(self).cells_view().len() {
                    final(self).cells_view() == old(self).cells_view()
                } else {
                    old(self).extendable() && final(self).cells_view() == old(
                        self,
                    ).cells_view().push(0u8)
                }),
                Err(e) => {
                    &&& old(self).head_idx() + 1 == old(self).cells_view().len()
                    &&& !old(self).extendable()
                    &&& final(self).head_idx() == old(self).head_idx()
                    &&& final(self).cells_view() == old(self).cells_view()
                    &&& e == BFVmErr::HeadInvalidPositionErr(old(self).prog()@[old(self).cursor()])
                },
            },
    {
        if self.head >= self.cells.len() - 1 {
            if self.allow_extend {
                self.cells.push(T::zero());
                proof {
                    assert(self.cells_view() =~= old(self).cells_view().push(0u8));
                }
            } else {
                return Err(
                    BFVmErr::HeadInvalidPositionErr(
                        self.program.instructions()[self.program_cnt],
                    ),
                );
            }
        }
        self.head = self.head + 1;
        Ok(())
    }

    /// Add one to the byte at the head, wrapping modulo 256.
    pub fn add_head_by_one(&mut self)
        requires
            old(self).wf(),
        ensures
            final(self).wf(),
            final(self).prog() == old(self).prog(),
            final(self).extendable() == old(self).extendable(),
            final(self).cursor() == old(self).cursor(),
            final(self).head_idx() == old(self).head_idx(),
            final(self).cells_view() == old(self).cells_view().update(
                old(self).head_idx(),
                wrap_inc(old(self).cells_view()[old(self).head_idx()]),
            ),
    {
        self.cells[self.head].increment();
        proof {
            assert(self.cells_view() =~= old(self).cells_view().update(
                old(self).head_idx(),
                wrap_inc(old(self).cells_view()[old(self).head_idx()]),
            ));
        }
    }

    /// Subtract one from the byte at the head, wrapping modulo 256.
    pub fn minus_head_by_one(&mut self)
        requires
            old(self).wf(),
        ensures
            final(self).wf(),
            final(self).prog() == old(self).prog(),
            final(self).extendable() == old(self).extendable(),
            final(self).cursor() == old(self).cursor(),
            final(self).head_idx() == old(self).head_idx(),
            final(self).cells_view() == old(self).cells_view().update(
                old(self).head_idx(),
                wrap_dec(old(self).cells_view()[old(self).head_idx()]),
            ),
    {
        self.cells[self.head].decrement();
        proof {
            assert(self.cells_view() =~= old(self).cells_view().update(
                old(self).head_idx(),
                wrap_dec(old(self).cells_view()[old(self).head_idx()]),
            ));
        }
    }

    /// Read one byte from the input at `pos` into the cell at the head
    /// and advance `pos`; an exhausted input fails with an input error
    /// citing the current instruction.
    pub fn read_value(&mut self, input: &Vec<u8>, pos: &mut usize) -> (r: Result<(), BFVmErr>)
        requires
            old(self).wf(),
            0 <= old(self).cursor() < old(self).prog()@.len(),
        ensures
            final(self).wf(),
            final(self).prog() == old(self).prog(),
            final(self).extendable() == old(self).extendable(),
            final(self).cursor() == old(self).cursor(),
            final(self).head_idx() == old(self).head_idx(),
            match r {
                Ok(()) => {
                    &&& (*old(pos) as int) < input@.len()
                    &&& *final(pos) == *old(pos) + 1
                    &&& final(self).cells_view() == old(self).cells_view().update(
                        old(self).head_idx(),
                        input@[*old(pos) as int],
                    )
                },
                Err(e) => {
                    &&& input@.len() <= *old(pos) as int
                    &&& *final(pos) == *old(pos)
                    &&& final(self).cells_view() == old(self).cells_view()
                    &&& e == BFVmErr::IOErr(
                        (BFVirtualMachineIOErr { cmd: old(self).prog()@[old(self).cursor()] }),
                    )
                },
            },
    {
        if *pos < input.len() {
            let b: u8 = input[*pos];
            self.cells[self.head].set_value(b);
            *pos = *pos + 1;
            proof {
                assert(self.cells_view() =~= old(self).cells_view().update(
                    old(self).head_idx(),
                    b,
                ));
            }
            Ok(())
        } else {
            Err(
                BFVmErr::from(
                    BFVirtualMachineIOErr { cmd: self.program.instructions()[self.program_cnt] },
                ),
            )
        }
    }

    /// Append the byte at the head to the output.  Writing to the output
    /// buffer itself cannot fail.
    pub fn write_value(&mut self, output: &mut Vec<u8>) -> (r: Result<(), BFVmErr>)
        requires
            old(self).wf(),
        ensures
            final(self).wf(),
            final(self).prog() == old(self).prog(),
            final(self).extendable() == old(self).extendable(),
            final(self).cursor() == old(self).cursor(),
            final(self).head_idx() == old(self).head_idx(),
            final(self).cells_view() == old(self).cells_view(),
            r is Ok,
            final(output)@ == old(output)@.push(old(self).cells_view()[old(self).head_idx()]),
    {
        let b: u8 = self.cells[self.head].get_value();
        proof {
            assert(self.cells_view() =~= old(self).cells_view());
        }
        output.push(b);
        Ok(())
    }

    /// Enter a loop: if the byte at the head is zero, jump the cursor to
    /// the loop's resolved partner; with no resolved partner that is a
    /// structural error.  Otherwise fall through.
    pub fn start_loop(&mut self, idx: Option<usize>) -> (r: Result<(), BFVmErr>)
        requires
            old(self).wf(),
            0 <= old(self).cursor() < old(self).prog()@.len(),
        ensures
            final(self).wf(),
            final(self).prog() == old(self).prog(),
            final(self).extendable() == old(self).extendable(),
            final(self).head_idx() == old(self).head_idx(),
            final(self).cells_view() == old(self).cells_view(),
            ({
                let v = old(self).cells_view()[old(self).head_idx()];
                if v == 0 {
                    match idx {
                        Some(j) => r is Ok && final(self).cursor() == j as int,
                        None => r == Err::<(), BFVmErr>(
                            BFVmErr::BracketPairErr(old(self).prog()@[old(self).cursor()]),
                        ) && final(self).cursor() == old(self).cursor(),
                    }
                } else {
                    r is Ok && final(self).cursor() == old(self).cursor()
                }
            }),
    {
        let v: u8 = self.cells[self.head].get_value();
        proof {
            assert(self.cells_view() =~= old(self).cells_view());
        }
        if v == 0 {
            match idx {
                Some(j) => {
                    self.program_cnt = j;
                    Ok(())
                },
                None => Err(
                    BFVmErr::BracketPairErr(self.program.instructions()[self.program_cnt]),
                ),
            }
        } else {
            Ok(())
        }
    }

    /// Leave a loop: if the byte at the head is non-zero, jump the cursor
    /// back to the loop's resolved partner; with no resolved partner that
    /// is a structural error.  Otherwise fall through.
    pub fn stop_loop(&mut self, idx: Option<usize>) -> (r: Result<(), BFVmErr>)
        requires
            old(self).wf(),
            0 <= old(self).cursor() < old(self).prog()@.len(),
        ensures
            final(self).wf(),
            final(self).prog() == old(self).prog(),
            final(self).extendable() == old(self).extendable(),
            final(self).head_idx() == old(self).head_idx(),
            final(self).cells_view() == old(self).cells_view(),
            ({
                let v = old(self).cells_view()[old(self).head_idx()];
                if v != 0 {
                    match idx {
                        Some(j) => r is Ok && final(self).cursor() == j as int,
                        None => r == Err::<(), BFVmErr>(
                            BFVmErr::BracketPairErr(old(self).prog()@[old(self).cursor()]),
                        ) && final(self).cursor() == old(self).cursor(),
                    }
                } else {
                    r is Ok && final(self).cursor() == old(self).cursor()
                }
            }),
    {
        let v: u8 = self.cells[self.head].get_value();
        proof {
            assert(self.cells_view() =~= old(self).cells_view());
        }
        if v > 0 {
            match idx {
                Some(j) => {
                    self.program_cnt = j;
                    Ok(())
                },
                None => Err(
                    BFVmErr::BracketPairErr(self.program.instructions()[self.program_cnt]),
                ),
            }
        } else {
            Ok(())
        }
    }

    /// Run the program from the current cursor to completion or first
    /// error.  The result, the bytes appended to `output`, and the
    /// machine's final state are exactly what the small-step machine
    /// produces after some number of steps from the starting state, with
    /// the finalization step appending one line terminator unless the
    /// last byte written was already one.  Finalization runs on every
    /// exit path, before an error propagates.
    ///
    /// A program of this language need not terminate; the loop therefore
    /// carries a step budget, so large that no physical run exhausts it,
    /// and a run still going after [`STEP_BUDGET`] steps is abandoned
    /// with [`BFVmErr::StepLimitErr`].
    pub fn interpret(&mut self, input: &Vec<u8>, output: &mut Vec<u8>) -> (r: Result<(), BFVmErr>)
        requires
            old(self).wf(),
        ensures
            final(self).wf(),
            final(self).prog() == old(self).prog(),
            final(self).extendable() == old(self).extendable(),
            match r {
                Ok(()) => exists|n: nat|
                    #[trigger] vm_run(
                        old(self).prog()@,
                        input@,
                        start_state(*old(self)),
                        n,
                    ) matches VmOutcome::Finished(s2) && final(output)@ == old(output)@
                        + newline_terminated(s2.output, s2.tail) && final(self).cells_view()
                        == s2.cells && final(self).head_idx() == s2.head && final(self).cursor()
                        == s2.pc,
                Err(e) => (exists|n: nat|
                    #[trigger] vm_run(
                        old(self).prog()@,
                        input@,
                        start_state(*old(self)),
                        n,
                    ) matches VmOutcome::Failed(e2, s2) && e2 == e && final(output)@ == old(
                        output,
                    )@ + newline_terminated(s2.output, s2.tail) && final(self).cells_view()
                        == s2.cells && final(self).head_idx() == s2.head && final(self).cursor()
                        == s2.pc) || (e == BFVmErr::StepLimitErr && (vm_run(
                    old(self).prog()@,
                    input@,
                    start_state(*old(self)),
                    STEP_BUDGET as nat,
                ) matches VmOutcome::Running(s2) && final(output)@ == old(output)@
                    + newline_terminated(s2.output, s2.tail) && final(self).cells_view()
                    == s2.cells && final(self).head_idx() == s2.head && final(self).cursor()
                    == s2.pc)),
            },
    {
        proof {
            use_type_invariant(&*self.program);
        }
        let ghost prog = old(self).prog()@;
        let ghost init = start_state(*old(self));
        let ghost out0 = old(output)@;
        let ghost mut steps: nat = 0;
        let ghost mut cur = init;
        let ghost mut outacc: Seq<u8> = Seq::empty();
        let mut tail: u8 = 0;
        let mut pos: usize = 0;
        let mut result: Result<(), BFVmErr> = Ok(());
        let mut fuel: u64 = STEP_BUDGET;
        let cmd_len: usize = self.program.instructions().len();
        while self.program_cnt < cmd_len && result.is_ok() && fuel > 0
            invariant
                steps + fuel as nat == STEP_BUDGET as nat,
                self.wf(),
                self.prog() == old(self).prog(),
                self.extendable() == old(self).extendable(),
                prog == old(self).prog()@,
                init == start_state(*old(self)),
                out0 == old(output)@,
                partners_wf(prog),
                cmd_len as int == prog.len(),
                cur.cells == self.cells_view(),
                cur.head == self.head_idx(),
                cur.allow_extend == self.extendable(),
                cur.pc == self.cursor(),
                cur.in_pos == pos as int,
                cur.output == outacc,
                cur.tail == tail,
                pos as int <= input@.len(),
                output@ == out0 + outacc,
                match result {
                    Ok(()) => vm_run(prog, input@, init, steps) == outcome0(prog, cur),
                    Err(e) => vm_run(prog, input@, init, steps) == VmOutcome::Failed(e, cur),
                },
            decreases fuel,
        {
            fuel = fuel - 1;
            let ghost pre = cur;
            let ins: BFCharInfo = self.program.instructions()[self.program_cnt];
            proof {
                assert(ins == prog[pre.pc]);
                assert(partner_ok(prog, pre.pc));
            }
            let step_r: Result<(), BFVmErr> = match ins.get_raw() {
                BFCharCmdName::PointerIncrement => self.move_head_right(),
                BFCharCmdName::PointerDecrement => self.move_head_left(),
                BFCharCmdName::DataIncrement => {
                    self.add_head_by_one();
                    Ok(())
                },
                BFCharCmdName::DataDecrement => {
                    self.minus_head_by_one();
                    Ok(())
                },
                BFCharCmdName::DataOutput => {
                    let b: u8 = self.cells[self.head].get_value();
                    proof {
                        assert(self.cells_view() =~= pre.cells);
                    }
                    tail = b;
                    let w = self.write_value(output);
                    proof {
                        outacc = outacc.push(b);
                        assert(output@ =~= out0 + outacc);
                    }
                    w
                },
                BFCharCmdName::DataInput => self.read_value(input, &mut pos),
                BFCharCmdName::LoopStart(r0) => self.start_loop(r0),
                BFCharCmdName::LoopTerminate(r0) => self.stop_loop(r0),
            };
            match step_r {
                Ok(()) => {
                    proof {
                        let next = VmState {
                            cells: self.cells_view(),
                            head: self.head_idx(),
                            allow_extend: self.extendable(),
                            pc: self.cursor() + 1,
                            in_pos: pos as int,
                            output: outacc,
                            tail: tail,
                        };
                        assert(vm_step(prog, input@, pre) == VmStep::Next(next));
                        lemma_vm_run_extend(prog, input@, init, steps, pre);
                        steps = steps + 1;
                        cur = next;
                        assert(self.program_cnt < cmd_len);
                    }
                    self.program_cnt = self.program_cnt + 1;
                },
                Err(e0) => {
                    proof {
                        assert(vm_step(prog, input@, pre) == VmStep::Stuck(e0));
                        lemma_vm_run_extend(prog, input@, init, steps, pre);
                        steps = steps + 1;
                    }
                    result = Err(e0);
                },
            }
        }
        proof {
            match result {
                Ok(()) => {
                    if cur.pc < prog.len() {
                        assert(fuel == 0);
                        assert(vm_run(prog, input@, init, STEP_BUDGET as nat)
                            == VmOutcome::Running(cur));
                    } else {
                        assert(vm_run(prog, input@, init, steps) == VmOutcome::Finished(cur));
                    }
                },
                Err(e) => {
                    assert(vm_run(prog, input@, init, steps) == VmOutcome::Failed(e, cur));
                },
            }
        }
        if result.is_ok() && self.program_cnt < cmd_len {
            // the step budget ran out while the program was still going
            result = Err(BFVmErr::StepLimitErr);
        }
        let nl = BFPrintNewLine::new(tail);
        nl.print_newline(output);
        proof {
            assert(output@ =~= out0 + newline_terminated(outacc, tail));
        }
        result
    }
}

/// Law: a program whose brackets are all resolved never strikes the
/// structural error at runtime, however long it runs and whatever its
/// input: the machine's defensive check for an unresolved partner is
/// unreachable once validation has passed.
pub proof fn lemma_validated_run_no_structural_error(
    prog: Seq<BFCharInfo>,
    input: Seq<u8>,
    s: VmState,
    n: nat,
)
    requires
        crate::bft_types::all_resolved(prog),
    ensures
        match vm_run(prog, input, s, n) {
            VmOutcome::Failed(e, _) => !(e is BracketPairErr),
            _ => true,
        },
    decreases n,
{
    if 0 <= s.pc < prog.len() && n > 0 {
        assert(crate::bft_types::resolved(prog[s.pc].raw));
        match vm_step(prog, input, s) {
            VmStep::Next(s2) => {
                lemma_validated_run_no_structural_error(prog, input, s2, (n - 1) as nat);
            },
            VmStep::Stuck(_) => {},
        }
    }
}

/// A run that has reached `cur` after `n` steps reaches, after one more,
/// whatever single step `cur` takes.
proof fn lemma_vm_run_extend(
    prog: Seq<BFCharInfo>,
    input: Seq<u8>,
    init: VmState,
    n: nat,
    cur: VmState,
)
    requires
        vm_run(prog, input, init, n) == outcome0(prog, cur),
        0 <= cur.pc < prog.len(),
    ensures
        vm_run(prog, input, init, n + 1) == (match vm_step(prog, input, cur) {
            VmStep::Next(s2) => outcome0(prog, s2),
            VmStep::Stuck(e) => VmOutcome::Failed(e, cur),
        }),
    decreases n,
{
    if !(0 <= init.pc < prog.len()) {
        // the run is already Finished, but outcome0(cur) is Running
        assert(false);
    } else if n == 0 {
        assert(init == cur);
        match vm_step(prog, input, init) {
            VmStep::Next(s2) => {
                assert(vm_run(prog, input, init, 1) == vm_run(prog, input, s2, 0));
                assert(vm_run(prog, input, s2, 0) == outcome0(prog, s2));
            },
            VmStep::Stuck(e) => {
                assert(vm_run(prog, input, init, 1) == VmOutcome::Failed(e, init));
            },
        }
    } else {
        match vm_step(prog, input, init) {
            VmStep::Next(s2) => {
                assert(vm_run(prog, input, init, n) == vm_run(prog, input, s2, (n - 1) as nat));
                lemma_vm_run_extend(prog, input, s2, (n - 1) as nat, cur);
                assert(vm_run(prog, input, init, n + 1) == vm_run(prog, input, s2, n));
                assert(((n - 1) as nat) + 1 == n);
            },
            VmStep::Stuck(e) => {
                assert(vm_run(prog, input, init, n) == VmOutcome::Failed(e, init));
                assert(false);
            },
        }
    }
}

} // verus!
