use vstd::prelude::*;
use crate::command::{command_of, parse_bytes, Command};
use crate::machine::{
    cell_dec, cell_inc, forward_delta, run_spec, scan_backward, scan_forward, step_spec, Finish,
    RunError, State,
};

verus! {

/// Parsing depends on the text alone: the same bytes always give the same
/// program.
pub proof fn lemma_parse_deterministic(a: Seq<u8>, b: Seq<u8>)
    requires
        a == b,
    ensures
        parse_bytes(a) == parse_bytes(b),
{
}

/// Parsing works byte by byte: the program of two texts one after the other
/// is the program of the first followed by that of the second, so a text
/// may be read again in pieces and give the same program.
pub proof fn lemma_parse_concat(a: Seq<u8>, b: Seq<u8>)
    ensures
        parse_bytes(a + b) == parse_bytes(a) + parse_bytes(b),
    decreases b.len(),
{
    if b.len() == 0 {
        assert(a + b =~= a);
        assert(parse_bytes(a) + parse_bytes(b) =~= parse_bytes(a));
    } else {
        lemma_parse_concat(a, b.drop_last());
        assert((a + b).drop_last() =~= a + b.drop_last());
        assert((a + b).last() == b.last());
        if let Some(c) = command_of(b.last()) {
            assert(parse_bytes(a) + parse_bytes(b.drop_last()).push(c) =~= (parse_bytes(a)
                + parse_bytes(b.drop_last())).push(c));
        }
    }
}

/// `+` and `-` undo each other on every cell value, across the wrap at 0
/// and 255.
pub proof fn lemma_cell_inc_dec_inverse(v: u8)
    ensures
        cell_dec(cell_inc(v)) == v,
        cell_inc(cell_dec(v)) == v,
{
}

/// On the machine, an increment followed by a decrement, or a decrement
/// followed by an increment, leaves the tape and the pointer as they were and
/// moves on past both instructions.
pub proof fn lemma_inc_dec_restores(s: State, prog: Seq<Command>, b1: Option<u8>, b2: Option<u8>)
    requires
        s.valid(),
        s.pc + 1 < prog.len(),
        (prog[s.pc] is Increment && prog[s.pc + 1] is Decrement) || (prog[s.pc] is Decrement
            && prog[s.pc + 1] is Increment),
    ensures
        match step_spec(s, prog, b1) {
            Ok((t, _)) => match step_spec(t, prog, b2) {
                Ok((u, _)) => u == State { pc: s.pc + 2, ..s },
                Err(_) => false,
            },
            Err(_) => false,
        },
{
    lemma_cell_inc_dec_inverse(s.tape[s.p]);
    let v = s.tape[s.p];
    if prog[s.pc] is Increment {
        assert(s.tape.update(s.p, cell_inc(v)).update(s.p, cell_dec(cell_inc(v))) =~= s.tape);
    } else {
        assert(s.tape.update(s.p, cell_dec(v)).update(s.p, cell_inc(cell_dec(v))) =~= s.tape);
    }
}

/// A program made of `n` increments adds `n`, modulo 256, to the current
/// cell, emits nothing, and halts.
pub proof fn lemma_increments_add(s: State, prog: Seq<Command>, input: Seq<u8>, fuel: nat)
    requires
        s.valid(),
        s.pc <= prog.len(),
        fuel >= prog.len() - s.pc,
        forall|i: int| 0 <= i < prog.len() ==> #[trigger] prog[i] is Increment,
    ensures
        run_spec(s, prog, input, fuel) == (
            Seq::<u8>::empty(),
            Ok::<Finish, RunError>(Finish::Halted),
            State {
                tape: s.tape.update(s.p, ((s.tape[s.p] + prog.len() - s.pc) % 256) as u8),
                pc: prog.len() as int,
                ..s
            },
        ),
    decreases prog.len() - s.pc,
{
    if s.pc == prog.len() {
        assert(s.tape.update(s.p, ((s.tape[s.p] + prog.len() - s.pc) % 256) as u8) =~= s.tape);
    } else {
        let v = s.tape[s.p];
        let t = State { tape: s.tape.update(s.p, cell_inc(v)), pc: s.pc + 1, ..s };
        lemma_increments_add(t, prog, input, (fuel - 1) as nat);
        assert(((cell_inc(v) + prog.len() - t.pc) % 256) as u8 == ((v + prog.len() - s.pc)
            % 256) as u8);
        assert(t.tape.update(s.p, ((cell_inc(v) + prog.len() - t.pc) % 256) as u8) =~= s.tape.update(
            s.p,
            ((v + prog.len() - s.pc) % 256) as u8,
        ));
    }
}

/// `+` run 256 times returns the current cell to the value it had; in
/// particular, a zeroed cell comes back to 0.
pub proof fn lemma_256_increments(s: State, prog: Seq<Command>, input: Seq<u8>, fuel: nat)
    requires
        s.valid(),
        s.pc == 0,
        prog.len() == 256,
        forall|i: int| 0 <= i < prog.len() ==> #[trigger] prog[i] is Increment,
        fuel >= 256,
    ensures
        run_spec(s, prog, input, fuel) == (
            Seq::<u8>::empty(),
            Ok::<Finish, RunError>(Finish::Halted),
            State { pc: 256, ..s },
        ),
{
    lemma_increments_add(s, prog, input, fuel);
    assert(s.tape.update(s.p, ((s.tape[s.p] + 256int) % 256) as u8) =~= s.tape);
}

/// The empty program halts at once, emits nothing, and leaves the machine
/// as it was.
pub proof fn lemma_empty_program(s: State, input: Seq<u8>, fuel: nat)
    requires
        s.valid(),
    ensures
        run_spec(s, Seq::<Command>::empty(), input, fuel) == (
            Seq::<u8>::empty(),
            Ok::<Finish, RunError>(Finish::Halted),
            s,
        ),
{
}

/// An input instruction reached with the input exhausted ends the run with
/// `EndOfInput` at that instruction, emitting nothing more.
pub proof fn lemma_exhausted_input(s: State, prog: Seq<Command>, fuel: nat)
    requires
        s.valid(),
        s.pc < prog.len(),
        prog[s.pc] is Input,
        fuel > 0,
    ensures
        run_spec(s, prog, Seq::<u8>::empty(), fuel) == (
            Seq::<u8>::empty(),
            Err::<Finish, RunError>(RunError::EndOfInput { pc: s.pc as usize }),
            s,
        ),
{
}

/// Net change of bracket nesting over the instructions at indices `a..b`:
/// one up for each `[`, one down for each `]`.
pub open spec fn bracket_depth(prog: Seq<Command>, a: int, b: int) -> int
    decreases b - a,
{
    if a >= b {
        0
    } else {
        bracket_depth(prog, a, b - 1) + forward_delta(prog[b - 1])
    }
}

proof fn lemma_depth_split_front(prog: Seq<Command>, a: int, b: int)
    requires
        a < b,
    ensures
        bracket_depth(prog, a, b) == forward_delta(prog[a]) + bracket_depth(prog, a + 1, b),
    decreases b - a,
{
    if a + 1 < b {
        lemma_depth_split_front(prog, a, b - 1);
    } else {
        assert(bracket_depth(prog, a, a) == 0);
    }
}

proof fn lemma_depth_split(prog: Seq<Command>, a: int, m: int, b: int)
    requires
        a <= m <= b,
    ensures
        bracket_depth(prog, a, b) == bracket_depth(prog, a, m) + bracket_depth(prog, m, b),
    decreases b - m,
{
    if m < b {
        lemma_depth_split(prog, a, m, b - 1);
    }
}

/// What a successful forward scan found: the first index from `pos` on at
/// which the nesting counter falls to zero, and that index holds a `]`.
proof fn lemma_scan_forward_found(prog: Seq<Command>, pos: int, nesting: int, t: int)
    requires
        0 <= pos,
        nesting >= 1,
        scan_forward(prog, pos, nesting) == Some(t),
    ensures
        pos < t <= prog.len(),
        prog[t - 1] is JumpIfNonZero,
        nesting + bracket_depth(prog, pos, t) == 0,
        forall|i: int| pos <= i < t - 1 ==> nesting + #[trigger] bracket_depth(prog, pos, i + 1) > 0,
    decreases prog.len() - pos,
{
    let n = nesting + forward_delta(prog[pos]);
    lemma_depth_split_front(prog, pos, pos + 1);
    if n != 0 {
        lemma_scan_forward_found(prog, pos + 1, n, t);
        lemma_depth_split_front(prog, pos, t);
        assert forall|i: int| pos <= i < t - 1 implies nesting + #[trigger] bracket_depth(
            prog,
            pos,
            i + 1,
        ) > 0 by {
            lemma_depth_split_front(prog, pos, i + 1);
            if i > pos {
                assert(n + bracket_depth(prog, pos + 1, (i - 1) + 1) > 0);
            }
        }
    }
}

/// A backward scan from `pos` stops just past index `j` when `j` is the
/// last index, going down from `pos`, at which the counter falls to zero.
proof fn lemma_scan_backward_reaches(prog: Seq<Command>, pos: int, nesting: int, j: int)
    requires
        0 <= j <= pos < prog.len(),
        nesting - bracket_depth(prog, j, pos + 1) == 0,
        forall|i: int| j < i <= pos ==> nesting - #[trigger] bracket_depth(prog, i, pos + 1) > 0,
    ensures
        scan_backward(prog, pos, nesting) == Some(j + 1),
    decreases pos - j,
{
    let n = nesting - forward_delta(prog[pos]);
    lemma_depth_split_front(prog, pos, pos + 1);
    if pos > j {
        assert(nesting - bracket_depth(prog, pos, pos + 1) > 0);
        lemma_depth_split(prog, j, pos, pos + 1);
        assert forall|i: int| j < i <= pos - 1 implies n - #[trigger] bracket_depth(prog, i, pos) > 0 by {
            lemma_depth_split(prog, i, pos, pos + 1);
            assert(nesting - bracket_depth(prog, i, pos + 1) > 0);
        }
        lemma_scan_backward_reaches(prog, pos - 1, n, j);
    }
}

/// Brackets are matched consistently, whatever lies nested between them:
/// when the forward jump from the `[` at index `j` lands at `t`, the
/// instruction at `t - 1` is a `]`, and the backward jump from that `]` lands
/// at `j + 1`, at the start of the same loop's body.
pub proof fn lemma_jumps_pair_up(prog: Seq<Command>, j: int, t: int)
    requires
        0 <= j < prog.len(),
        prog[j] is JumpIfZero,
        scan_forward(prog, j + 1, 1) == Some(t),
    ensures
        prog[t - 1] is JumpIfNonZero,
        scan_backward(prog, t - 2, 1) == Some(j + 1),
{
    lemma_scan_forward_found(prog, j + 1, 1, t);
    // The body j+1 .. t-1 is balanced.
    lemma_depth_split(prog, j + 1, t - 1, t);
    lemma_depth_split_front(prog, t - 1, t);
    lemma_depth_split_front(prog, j, t - 1);
    assert forall|i: int| j < i <= t - 2 implies 1 - #[trigger] bracket_depth(prog, i, t - 1) > 0 by {
        lemma_depth_split(prog, j + 1, i, t - 1);
        if i > j + 1 {
            assert(1 + bracket_depth(prog, j + 1, (i - 1) + 1) > 0);
        }
    }
    lemma_scan_backward_reaches(prog, t - 2, 1, j);
}

} // verus!
