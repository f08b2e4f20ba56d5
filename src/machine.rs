use vstd::prelude::*;
use crate::command::{parse_bytes, parse_program, Command};

verus! {

/// Number of cells on the tape.
pub const TAPE_LEN: usize = 30000;

/// What the machine holds, as mathematical values.
pub ghost struct State {
    pub tape: Seq<u8>,
    pub p: int,
    pub pc: int,
}

impl State {
    /// A state the machine can be in: a full tape and a pointer on it.
    pub open spec fn valid(self) -> bool {
        &&& self.tape.len() == TAPE_LEN
        &&& 0 <= self.p < TAPE_LEN
        &&& 0 <= self.pc
    }
}

/// The state in which every run starts.
pub open spec fn initial_state() -> State {
    State { tape: Seq::new(TAPE_LEN as nat, |i: int| 0u8), p: 0, pc: 0 }
}

/// A cell after `+`.
pub open spec fn cell_inc(v: u8) -> u8 {
    if v == 255 { 0 } else { (v + 1) as u8 }
}

/// A cell after `-`.
pub open spec fn cell_dec(v: u8) -> u8 {
    if v == 0 { 255 } else { (v - 1) as u8 }
}

/// Change of the nesting counter on one instruction, scanning forward.
pub open spec fn forward_delta(c: Command) -> int {
    match c {
        Command::JumpIfZero => 1,
        Command::JumpIfNonZero => -1,
        _ => 0,
    }
}

/// Scans forward from index `pos` with the nesting counter at `nesting`,
/// and gives the index just past the `]` at which the counter falls to zero,
/// or `None` where the program ends first.
pub open spec fn scan_forward(prog: Seq<Command>, pos: int, nesting: int) -> Option<int>
    decreases prog.len() - pos,
{
    if pos < 0 || pos >= prog.len() {
        None
    } else {
        let n = nesting + forward_delta(prog[pos]);
        if n == 0 {
            Some(pos + 1)
        } else {
            scan_forward(prog, pos + 1, n)
        }
    }
}

/// Scans backward from index `pos` with the nesting counter at `nesting`,
/// and gives the index just past the `[` at which the counter falls to zero,
/// or `None` where the program's start comes first.
pub open spec fn scan_backward(prog: Seq<Command>, pos: int, nesting: int) -> Option<int>
    decreases pos + 1,
{
    if pos < 0 || pos >= prog.len() {
        None
    } else {
        let n = nesting - forward_delta(prog[pos]);
        if n == 0 {
            Some(pos + 1)
        } else {
            scan_backward(prog, pos - 1, n)
        }
    }
}

/// Finds the index just past the `]` that matches the `[` at `at`.
fn find_forward(prog: &[Command], at: usize) -> (r: Option<usize>)
    requires
        at < prog@.len(),
    ensures
        r matches Some(t) ==> scan_forward(prog@, at + 1, 1) == Some(t as int),
        r is None ==> scan_forward(prog@, at + 1, 1) is None,
{
    let len: usize = prog.len();
    let mut i: usize = at + 1;
    let mut nesting: usize = 1;
    while i < len
        invariant
            at < i <= prog@.len(),
            len == prog@.len(),
            1 <= nesting <= i - at,
            scan_forward(prog@, at + 1, 1) == scan_forward(prog@, i as int, nesting as int),
        decreases prog@.len() - i,
    {
        match prog[i] {
            Command::JumpIfZero => {
                nesting += 1;
            },
            Command::JumpIfNonZero => {
                nesting -= 1;
                if nesting == 0 {
                    return Some(i + 1);
                }
            },
            _ => {},
        }
        i += 1;
    }
    None
}

/// Finds the index just past the `[` that matches the `]` at `at`.
fn find_backward(prog: &[Command], at: usize) -> (r: Option<usize>)
    requires
        at < prog@.len(),
    ensures
        r matches Some(t) ==> scan_backward(prog@, at - 1, 1) == Some(t as int),
        r is None ==> scan_backward(prog@, at - 1, 1) is None,
{
    // `k` is one more than the index about to be read.
    let mut k: usize = at;
    let mut nesting: usize = 1;
    while k > 0
        invariant
            k <= at < prog@.len(),
            1 <= nesting <= at - k + 1,
            scan_backward(prog@, at - 1, 1) == scan_backward(prog@, k - 1, nesting as int),
        decreases k,
    {
        match prog[k - 1] {
            Command::JumpIfZero => {
                nesting -= 1;
                if nesting == 0 {
                    return Some(k);
                }
            },
            Command::JumpIfNonZero => {
                nesting += 1;
            },
            _ => {},
        }
        k -= 1;
    }
    None
}

/// What a step asks of the world outside the machine.
#[derive(Clone, Copy, Debug, PartialEq, Eq, Structural)]
pub enum Action {
    /// Nothing: go on.
    Continue,
    /// Emit this byte.
    Output(u8),
    /// The program counter is past the last instruction: the run is over.
    Halt,
}

/// Why a run stopped early. Each error gives the index of the failing instruction.
#[derive(Clone, Copy, Debug, PartialEq, Eq, Structural)]
pub enum RunError {
    /// An input instruction found the input exhausted.
    EndOfInput { pc: usize },
    /// A jump found no matching bracket.
    UnbalancedBrackets { pc: usize },
    /// The data pointer would leave the tape.
    TapeBounds { pc: usize },
}

/// One step of the machine on the program `prog`, where `input` is the next
/// byte of input if there is one.
pub open spec fn step_spec(s: State, prog: Seq<Command>, input: Option<u8>) -> Result<(State, Action), RunError> {
    if s.pc >= prog.len() {
        Ok((s, Action::Halt))
    } else {
        let next = State { pc: s.pc + 1, ..s };
        let here = s.pc as usize;
        match prog[s.pc] {
            Command::MoveRight => if s.p + 1 >= TAPE_LEN {
                Err(RunError::TapeBounds { pc: here })
            } else {
                Ok((State { p: s.p + 1, ..next }, Action::Continue))
            },
            Command::MoveLeft => if s.p == 0 {
                Err(RunError::TapeBounds { pc: here })
            } else {
                Ok((State { p: s.p - 1, ..next }, Action::Continue))
            },
            Command::Increment => Ok(
                (State { tape: s.tape.update(s.p, cell_inc(s.tape[s.p])), ..next }, Action::Continue),
            ),
            Command::Decrement => Ok(
                (State { tape: s.tape.update(s.p, cell_dec(s.tape[s.p])), ..next }, Action::Continue),
            ),
            Command::Output => Ok((next, Action::Output(s.tape[s.p]))),
            Command::Input => match input {
                None => Err(RunError::EndOfInput { pc: here }),
                Some(b) => Ok((State { tape: s.tape.update(s.p, b), ..next }, Action::Continue)),
            },
            Command::JumpIfZero => if s.tape[s.p] == 0 {
                match scan_forward(prog, s.pc + 1, 1) {
                    None => Err(RunError::UnbalancedBrackets { pc: here }),
                    Some(t) => Ok((State { pc: t, ..s }, Action::Continue)),
                }
            } else {
                Ok((next, Action::Continue))
            },
            Command::JumpIfNonZero => if s.tape[s.p] != 0 {
                match scan_backward(prog, s.pc - 1, 1) {
                    None => Err(RunError::UnbalancedBrackets { pc: here }),
                    Some(t) => Ok((State { pc: t, ..s }, Action::Continue)),
                }
            } else {
                Ok((next, Action::Continue))
            },
        }
    }
}

/// How a run that met no error ended.
#[derive(Clone, Copy, Debug, PartialEq, Eq, Structural)]
pub enum Finish {
    /// The program counter went past the last instruction.
    Halted,
    /// The step budget ran out first.
    StepLimit,
}

/// At most `fuel` steps from `s` on `prog`, reading from `input`: the bytes
/// emitted, how the run ended, and the state it ended in (on an error, the
/// state before the failing instruction).
pub open spec fn run_spec(s: State, prog: Seq<Command>, input: Seq<u8>, fuel: nat) -> (
    Seq<u8>,
    Result<Finish, RunError>,
    State,
)
    decreases fuel,
{
    if s.pc >= prog.len() {
        (Seq::empty(), Ok(Finish::Halted), s)
    } else if fuel == 0 {
        (Seq::empty(), Ok(Finish::StepLimit), s)
    } else {
        let reads = prog[s.pc] is Input;
        let next_byte = if input.len() > 0 { Some(input[0]) } else { None };
        match step_spec(s, prog, next_byte) {
            Err(e) => (Seq::empty(), Err(e), s),
            Ok((t, a)) => {
                let rest_input = if reads { input.drop_first() } else { input };
                let rest = run_spec(t, prog, rest_input, (fuel - 1) as nat);
                let out = match a {
                    Action::Output(b) => seq![b] + rest.0,
                    _ => rest.0,
                };
                (out, rest.1, rest.2)
            },
        }
    }
}

/// The result of a bounded run: what was emitted up to where it stopped,
/// and how it stopped.
pub struct Execution {
    pub output: Vec<u8>,
    pub outcome: Result<Finish, RunError>,
}

/// The tape machine: the cells, the data pointer and the program counter.
pub struct Machine {
    cells: Vec<u8>,
    p: usize,
    pc: usize,
}

impl View for Machine {
    type V = State;

    closed spec fn view(&self) -> State {
        State { tape: self.cells@, p: self.p as int, pc: self.pc as int }
    }
}

impl Machine {
    /// The machine's state is a valid one.
    pub open spec fn wf(&self) -> bool {
        self@.valid()
    }

    /// A machine with a zeroed tape, the pointer on cell 0 and the program
    /// counter on the first instruction.
    pub fn new() -> (r: Machine)
        ensures
            r.wf(),
            r@ == initial_state(),
    {
        let cells: Vec<u8> = vec![0u8; TAPE_LEN];
        let r = Machine { cells, p: 0, pc: 0 };
        assert(r@.tape =~= initial_state().tape);
        r
    }
    /// The value of cell `i`.
    pub fn cell(&self, i: usize) -> (r: u8)
        requires
            self.wf(),
            i < TAPE_LEN,
        ensures
            r == self@.tape[i as int],
    {
        self.cells[i]
    }

    /// The data pointer.
    pub fn pointer(&self) -> (r: usize)
        ensures
            r == self@.p,
    {
        self.p
    }

    /// The program counter.
    pub fn pc(&self) -> (r: usize)
        ensures
            r == self@.pc,
    {
        self.pc
    }

    /// The current cell as a character.
    pub fn char_at_p(&self) -> (r: char)
        requires
            self.wf(),
        ensures
            r as u32 == self@.tape[self@.p] as u32,
    {
        self.cells[self.p] as char
    }

    /// Whether the next step executes an input instruction, and so needs
    /// the next input byte.
    pub fn wants_input(&self, program: &[Command]) -> (r: bool)
        ensures
            r == (self@.pc < program@.len() && program@[self@.pc] is Input),
    {
        self.pc < program.len() && matches!(program[self.pc], Command::Input)
    }

    /// Runs `program` from the machine's current state for at most
    /// `max_steps` steps, reading input bytes from `input` in order.
    pub fn run(&mut self, program: &[Command], input: &[u8], max_steps: u64) -> (r: Execution)
        requires
            old(self).wf(),
        ensures
            final(self).wf(),
            (r.output@, r.outcome, final(self)@) == run_spec(old(self)@, program@, input@, max_steps as nat),
    {
        let ghost start = self@;
        let mut output: Vec<u8> = Vec::new();
        let mut k: usize = 0;
        let mut fuel: u64 = max_steps;
        assert(input@.skip(0) =~= input@);
        let ghost whole = run_spec(start, program@, input@, max_steps as nat);
        assert(output@ + whole.0 =~= whole.0);
        // The whole run is what was emitted so far followed by the run from
        // the current state on the input not yet read.
        loop
            invariant
                self.wf(),
                start == old(self)@,
                k <= input@.len(),
                run_spec(start, program@, input@, max_steps as nat) == ({
                    let t = run_spec(self@, program@, input@.skip(k as int), fuel as nat);
                    (output@ + t.0, t.1, t.2)
                }),
            decreases fuel,
        {
            if self.pc >= program.len() {
                assert(output@ + Seq::<u8>::empty() =~= output@);
                return Execution { output, outcome: Ok(Finish::Halted) };
            }
            if fuel == 0 {
                assert(output@ + Seq::<u8>::empty() =~= output@);
                return Execution { output, outcome: Ok(Finish::StepLimit) };
            }
            let ghost rest_in = input@.skip(k as int);
            let reads = self.wants_input(program);
            let next_byte = if k < input.len() {
                Some(input[k])
            } else {
                None
            };
            match self.step(program, next_byte) {
                Err(e) => {
                    assert(output@ + Seq::<u8>::empty() =~= output@);
                    return Execution { output, outcome: Err(e) };
                },
                Ok(a) => {
                    let ghost old_out = output@;
                    if let Action::Output(b) = a {
                        output.push(b);
                    }
                    if reads {
                        assert(rest_in.drop_first() =~= input@.skip(k as int + 1));
                        k += 1;
                    }
                    fuel -= 1;
                    proof {
                        let t = run_spec(self@, program@, input@.skip(k as int), fuel as nat);
                        if let Action::Output(b) = a {
                            assert(old_out + (seq![b] + t.0) =~= output@ + t.0);
                        }
                    }
                },
            }
        }
    }

    /// Executes one instruction of `program`; `input` is the next input
    /// byte, if any is left. On an error the machine is left as it was.
    pub fn step(&mut self, program: &[Command], input: Option<u8>) -> (r: Result<Action, RunError>)
        requires
            old(self).wf(),
        ensures
            final(self).wf(),
            match step_spec(old(self)@, program@, input) {
                Ok((s, a)) => r == Ok::<Action, RunError>(a) && final(self)@ == s,
                Err(e) => r == Err::<Action, RunError>(e) && final(self)@ == old(self)@,
            },
    {
        if self.pc >= program.len() {
            return Ok(Action::Halt);
        }
        let here = self.pc;
        let p = self.p;
        match program[here] {
            Command::MoveRight => {
                if p + 1 >= TAPE_LEN {
                    return Err(RunError::TapeBounds { pc: here });
                }
                self.p = p + 1;
            },
            Command::MoveLeft => {
                if p == 0 {
                    return Err(RunError::TapeBounds { pc: here });
                }
                self.p = p - 1;
            },
            Command::Increment => {
                let v = self.cells[p];
                self.cells.set(p, v.wrapping_add(1));
            },
            Command::Decrement => {
                let v = self.cells[p];
                self.cells.set(p, v.wrapping_sub(1));
            },
            Command::Output => {
                self.pc = here + 1;
                return Ok(Action::Output(self.cells[p]));
            },
            Command::Input => {
                match input {
                    None => {
                        return Err(RunError::EndOfInput { pc: here });
                    },
                    Some(b) => {
                        self.cells.set(p, b);
                    },
                }
            },
            Command::JumpIfZero => {
                if self.cells[p] == 0 {
                    match find_forward(program, here) {
                        None => {
                            return Err(RunError::UnbalancedBrackets { pc: here });
                        },
                        Some(t) => {
                            self.pc = t;
                            return Ok(Action::Continue);
                        },
                    }
                }
            },
            Command::JumpIfNonZero => {
                if self.cells[p] != 0 {
                    match find_backward(program, here) {
                        None => {
                            return Err(RunError::UnbalancedBrackets { pc: here });
                        },
                        Some(t) => {
                            self.pc = t;
                            return Ok(Action::Continue);
                        },
                    }
                }
            },
        }
        self.pc = here + 1;
        Ok(Action::Continue)
    }
}

impl Default for Machine {
    fn default() -> (r: Machine)
        ensures
            r.wf(),
            r@ == initial_state(),
    {
        Machine::new()
    }
}

/// Parses `source` and runs it on a fresh machine for at most `max_steps`
/// steps, reading input bytes from `input`.
pub fn execute(source: &[u8], input: &[u8], max_steps: u64) -> (r: Execution)
    ensures
        ({
            let res = run_spec(initial_state(), parse_bytes(source@), input@, max_steps as nat);
            r.output@ == res.0 && r.outcome == res.1
        }),
{
    let program = parse_program(source);
    let mut m = Machine::new();
    m.run(program.as_slice(), input, max_steps)
}

} // verus!
