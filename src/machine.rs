//! Executing an instruction tree one step at a time against a byte tape.
//!
//! The machine never performs input or output itself: a step that writes
//! hands the byte back to the caller, and a step at a read asks the caller for
//! the next input byte, which it then passes to [`Machine::supply`].
use vstd::prelude::*;
use crate::lexer::OpCode;
use crate::parser::Instruction;

verus! {

/// The number of cells on a fresh tape.
pub const TAPE_LEN: usize = 1024;

/// What a step did, for the caller to act on.
#[derive(Clone, Copy, Debug, PartialEq, Eq, Structural)]
pub enum Step {
    /// The machine moved on; nothing for the caller to do.
    Continue,
    /// The program wrote this byte.
    Output(u8),
    /// The program stands at a read and waits for [`Machine::supply`].
    NeedsInput,
    /// The program has finished.
    Halted,
}

/// Why execution stopped for good.
#[derive(Clone, Copy, Debug, PartialEq, Eq, Structural)]
pub enum RunError {
    /// A pointer move would have left the tape.
    PointerOutOfBounds,
    /// A read found no byte left on the input stream.
    InputExhausted,
}

/// The instruction sequence reached by following `path` from the program: each
/// entry picks a loop of the sequence reached so far and enters its body.
pub open spec fn enclosing(prog: Seq<Instruction>, path: Seq<usize>) -> Seq<Instruction>
    decreases path.len(),
{
    if path.len() == 0 {
        prog
    } else {
        let outer = enclosing(prog, path.drop_last());
        let i = path.last() as int;
        if i < outer.len() {
            match outer[i] {
                Instruction::Loop(body) => body@,
                _ => seq![],
            }
        } else {
            seq![]
        }
    }
}

/// Each frame but the last stands at a loop of its sequence; the last stands at
/// an instruction of the innermost body, or just past its end.
pub open spec fn frames_valid(prog: Seq<Instruction>, frames: Seq<usize>) -> bool {
    &&& frames.len() >= 1
    &&& forall|k: int|
        0 <= k < frames.len() - 1 ==> {
            let seq_k = #[trigger] enclosing(prog, frames.take(k));
            &&& frames[k] < seq_k.len()
            &&& seq_k[frames[k] as int] is Loop
        }
    &&& frames.last() <= enclosing(prog, frames.drop_last()).len()
}

/// The opcode that starts an instruction: a loop starts with its loop begin.
pub open spec fn leading_opcode(ins: Instruction) -> OpCode {
    match ins {
        Instruction::IncrementPointer => OpCode::IncrementPointer,
        Instruction::DecrementPointer => OpCode::DecrementPointer,
        Instruction::Increment => OpCode::Increment,
        Instruction::Decrement => OpCode::Decrement,
        Instruction::Write => OpCode::Write,
        Instruction::Read => OpCode::Read,
        Instruction::Loop(_) => OpCode::LoopBegin,
    }
}

/// A program in execution: the tape, the data pointer, and where in the
/// instruction tree execution stands, as one position per entered loop body.
pub struct Machine {
    pub program: Vec<Instruction>,
    pub tape: Vec<u8>,
    pub pointer: usize,
    pub frames: Vec<usize>,
}

impl Machine {
    /// The pointer is on the tape and the frames lead to a place in the
    /// program.
    pub open spec fn well_formed(&self) -> bool {
        &&& self.pointer < self.tape.len()
        &&& frames_valid(self.program@, self.frames@)
    }

    /// The instruction sequence that execution currently walks.
    pub open spec fn body(&self) -> Seq<Instruction> {
        enclosing(self.program@, self.frames@.drop_last())
    }

    /// The position of execution within [`Machine::body`].
    pub open spec fn position(&self) -> int {
        self.frames@.last() as int
    }

    /// The instruction about to run, or `None` at the end of a body.
    pub open spec fn current(&self) -> Option<Instruction> {
        if self.position() < self.body().len() {
            Some(self.body()[self.position()])
        } else {
            None
        }
    }

    /// The cell under the data pointer.
    pub open spec fn cell(&self) -> u8 {
        self.tape@[self.pointer as int]
    }

    /// The frames once the current instruction is done.
    pub open spec fn advanced(&self) -> Seq<usize> {
        self.frames@.update(self.frames@.len() - 1, (self.position() + 1) as usize)
    }

    /// Tape, pointer and frames are those of `other`.
    pub open spec fn same_state(&self, other: &Machine) -> bool {
        &&& self.tape@ == other.tape@
        &&& self.pointer == other.pointer
        &&& self.frames@ == other.frames@
    }

    /// A machine at the start of `program`, over a zeroed tape of
    /// [`TAPE_LEN`] cells with the pointer at cell 0.
    pub fn new(program: Vec<Instruction>) -> (m: Machine)
        ensures
            m.well_formed(),
            m.program@ == program@,
            m.tape@ == Seq::new(TAPE_LEN as nat, |i: int| 0u8),
            m.pointer == 0,
            m.frames@ == seq![0usize],
    {
        let tape: Vec<u8> = vec![0u8; TAPE_LEN];
        let mut frames: Vec<usize> = Vec::new();
        frames.push(0);
        let m = Machine { program, tape, pointer: 0, frames };
        proof {
            assert(m.tape@ =~= Seq::new(TAPE_LEN as nat, |i: int| 0u8));
            assert(m.frames@.drop_last() =~= seq![]);
        }
        m
    }

    /// The sequence that execution currently walks.
    fn current_body(&self) -> (r: &Vec<Instruction>)
        requires
            self.well_formed(),
        ensures
            r@ == self.body(),
    {
        let last = self.frames.len() - 1;
        let mut cur: &Vec<Instruction> = &self.program;
        let mut k: usize = 0;
        while k < last
            invariant
                k <= last,
                last == self.frames@.len() - 1,
                self.well_formed(),
                cur@ == enclosing(self.program@, self.frames@.take(k as int)),
            decreases last - k,
        {
            let idx = self.frames[k];
            proof {
                assert(self.frames@.take(k + 1).drop_last() =~= self.frames@.take(k as int));
                let seq_k = enclosing(self.program@, self.frames@.take(k as int));
                assert(idx < seq_k.len() && seq_k[idx as int] is Loop);
            }
            match &cur[idx] {
                Instruction::Loop(body) => {
                    cur = body;
                },
                _ => {},
            }
            k = k + 1;
        }
        proof {
            assert(self.frames@.take(last as int) =~= self.frames@.drop_last());
        }
        cur
    }

    /// The leading opcode of the instruction about to run, or `None` at the
    /// end of a body.
    fn current_opcode(&self) -> (r: Option<OpCode>)
        requires
            self.well_formed(),
        ensures
            r == match self.current() {
                Some(ins) => Some(leading_opcode(ins)),
                None => None::<OpCode>,
            },
    {
        let pos = self.frames[self.frames.len() - 1];
        let body = self.current_body();
        if pos >= body.len() {
            return None;
        }
        let op = match &body[pos] {
            Instruction::IncrementPointer => OpCode::IncrementPointer,
            Instruction::DecrementPointer => OpCode::DecrementPointer,
            Instruction::Increment => OpCode::Increment,
            Instruction::Decrement => OpCode::Decrement,
            Instruction::Write => OpCode::Write,
            Instruction::Read => OpCode::Read,
            Instruction::Loop(_) => OpCode::LoopBegin,
        };
        Some(op)
    }

    /// The position just past the instruction about to run.
    fn next_position(&self) -> (r: usize)
        requires
            self.well_formed(),
            self.current() is Some,
        ensures
            r == self.position() + 1,
    {
        let body = self.current_body();
        let pos = self.frames[self.frames.len() - 1];
        proof {
            assert(pos < body.len());
        }
        pos + 1
    }

    /// Runs the instruction at the current position, or leaves a finished
    /// loop body for its loop, which then tests its cell again.
    pub fn step(&mut self) -> (r: Result<Step, RunError>)
        requires
            old(self).well_formed(),
        ensures
            final(self).well_formed(),
            transition(*old(self), *final(self), r),
    {
        let depth = self.frames.len();
        let p = self.pointer;
        match self.current_opcode() {
            None => {
                if depth == 1 {
                    return Ok(Step::Halted);
                }
                self.frames.pop();
                proof {
                    let f = old(self).frames@;
                    let g = self.frames@;
                    assert(g.drop_last() =~= f.take(f.len() - 2));
                    assert(f.take(f.len() - 1) =~= f.drop_last());
                    assert forall|k: int| 0 <= k < g.len() - 1 implies #[trigger] g.take(k) == f.take(k) by {
                        assert(g.take(k) =~= f.take(k));
                    }
                }
                Ok(Step::Continue)
            },
            Some(op) => {
                let next = self.next_position();
                let r = match op {
                    OpCode::IncrementPointer => {
                        if p + 1 >= self.tape.len() {
                            return Err(RunError::PointerOutOfBounds);
                        }
                        self.pointer = p + 1;
                        Step::Continue
                    },
                    OpCode::DecrementPointer => {
                        if p == 0 {
                            return Err(RunError::PointerOutOfBounds);
                        }
                        self.pointer = p - 1;
                        Step::Continue
                    },
                    OpCode::Increment => {
                        self.tape[p] = self.tape[p].wrapping_add(1);
                        Step::Continue
                    },
                    OpCode::Decrement => {
                        self.tape[p] = self.tape[p].wrapping_sub(1);
                        Step::Continue
                    },
                    OpCode::Write => Step::Output(self.tape[p]),
                    OpCode::Read => {
                        return Ok(Step::NeedsInput);
                    },
                    _ => {
                        if self.tape[p] != 0 {
                            self.frames.push(0);
                            proof {
                                let f = old(self).frames@;
                                let g = self.frames@;
                                assert(g.drop_last() =~= f);
                                assert forall|k: int| 0 <= k < f.len() - 1 implies #[trigger] g.take(k) == f.take(k) by {
                                    assert(g.take(k) =~= f.take(k));
                                }
                                assert(g.take(f.len() - 1) =~= f.drop_last());
                                assert(g.take(f.len() as int) =~= f);
                                assert(f.take(f.len() as int) =~= f);
                            }
                            return Ok(Step::Continue);
                        }
                        Step::Continue
                    },
                };
                self.frames.set(depth - 1, next);
                proof {
                    let f = old(self).frames@;
                    let g = self.frames@;
                    assert(g.drop_last() =~= f.drop_last());
                    assert forall|k: int| 0 <= k < g.len() - 1 implies #[trigger] g.take(k) == f.take(k) by {
                        assert(g.take(k) =~= f.take(k));
                    }
                }
                Ok(r)
            },
        }
    }

    /// Completes a read with the next byte of the input stream, or with
    /// `None` when the stream has no byte left.
    pub fn supply(&mut self, input: Option<u8>) -> (r: Result<(), RunError>)
        requires
            old(self).well_formed(),
            old(self).current() == Some(Instruction::Read),
        ensures
            final(self).well_formed(),
            final(self).program@ == old(self).program@,
            match input {
                Some(byte) => {
                    &&& r == Ok::<(), RunError>(())
                    &&& final(self).tape@ == old(self).tape@.update(old(self).pointer as int, byte)
                    &&& final(self).pointer == old(self).pointer
                    &&& final(self).frames@ == old(self).advanced()
                },
                None => r == Err::<(), RunError>(RunError::InputExhausted) && final(self).same_state(
                    old(self),
                ),
            },
    {
        match input {
            Some(byte) => {
                let p = self.pointer;
                let next = self.next_position();
                self.tape[p] = byte;
                let depth = self.frames.len();
                self.frames.set(depth - 1, next);
                proof {
                    let f = old(self).frames@;
                    let g = self.frames@;
                    assert(g.drop_last() =~= f.drop_last());
                    assert forall|k: int| 0 <= k < g.len() - 1 implies #[trigger] g.take(k) == f.take(k) by {
                        assert(g.take(k) =~= f.take(k));
                    }
                }
                Ok(())
            },
            None => Err(RunError::InputExhausted),
        }
    }
}

/// What one step does: from machine `pre` it reaches `post` with outcome `r`.
/// Cells hold bytes, so increment and decrement wrap modulo 256.
pub open spec fn transition(pre: Machine, post: Machine, r: Result<Step, RunError>) -> bool {
    let p = pre.pointer as int;
    let moved_on = post.frames@ == pre.advanced();
    &&& post.program@ == pre.program@
    &&& match pre.current() {
        None => if pre.frames@.len() == 1 {
            r == Ok::<Step, RunError>(Step::Halted) && post.same_state(&pre)
        } else {
            &&& r == Ok::<Step, RunError>(Step::Continue)
            &&& post.tape@ == pre.tape@
            &&& post.pointer == pre.pointer
            &&& post.frames@ == pre.frames@.drop_last()
        },
        Some(Instruction::IncrementPointer) => if pre.pointer + 1 < pre.tape.len() {
            &&& r == Ok::<Step, RunError>(Step::Continue)
            &&& post.tape@ == pre.tape@
            &&& post.pointer == pre.pointer + 1
            &&& moved_on
        } else {
            r == Err::<Step, RunError>(RunError::PointerOutOfBounds) && post.same_state(&pre)
        },
        Some(Instruction::DecrementPointer) => if pre.pointer > 0 {
            &&& r == Ok::<Step, RunError>(Step::Continue)
            &&& post.tape@ == pre.tape@
            &&& post.pointer == pre.pointer - 1
            &&& moved_on
        } else {
            r == Err::<Step, RunError>(RunError::PointerOutOfBounds) && post.same_state(&pre)
        },
        Some(Instruction::Increment) => {
            &&& r == Ok::<Step, RunError>(Step::Continue)
            &&& post.tape@ == pre.tape@.update(p, ((pre.cell() + 1) % 256) as u8)
            &&& post.pointer == pre.pointer
            &&& moved_on
        },
        Some(Instruction::Decrement) => {
            &&& r == Ok::<Step, RunError>(Step::Continue)
            &&& post.tape@ == pre.tape@.update(p, ((pre.cell() - 1) % 256) as u8)
            &&& post.pointer == pre.pointer
            &&& moved_on
        },
        Some(Instruction::Write) => {
            &&& r == Ok::<Step, RunError>(Step::Output(pre.cell()))
            &&& post.tape@ == pre.tape@
            &&& post.pointer == pre.pointer
            &&& moved_on
        },
        Some(Instruction::Read) => r == Ok::<Step, RunError>(Step::NeedsInput) && post.same_state(
            &pre,
        ),
        Some(Instruction::Loop(_)) => {
            &&& r == Ok::<Step, RunError>(Step::Continue)
            &&& post.tape@ == pre.tape@
            &&& post.pointer == pre.pointer
            &&& if pre.cell() == 0 {
                moved_on
            } else {
                post.frames@ == pre.frames@.push(0)
            }
        },
    }
}

} // verus!
