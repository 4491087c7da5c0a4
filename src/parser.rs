//! Resolving the bracket structure of an opcode sequence into a tree of
//! instructions.
use vstd::prelude::*;
use crate::lexer::OpCode;

verus! {

/// A structurally resolved executable unit; a loop owns its body.
#[derive(Debug)]
pub enum Instruction {
    IncrementPointer,
    DecrementPointer,
    Increment,
    Decrement,
    Write,
    Read,
    Loop(Vec<Instruction>),
}

/// Why an opcode sequence has no tree of instructions; each holds the position
/// of the offending bracket in the sequence.
#[derive(Clone, Copy, Debug, PartialEq, Eq, Structural)]
pub enum ParseError {
    /// A loop end with no open loop before it.
    UnmatchedLoopEnd(usize),
    /// The outermost loop begin that is never closed.
    UnmatchedLoopStart(usize),
}

/// The opcodes that an instruction was built from: a loop gives its brackets
/// around the opcodes of its body.
pub open spec fn flatten_one(ins: Instruction) -> Seq<OpCode>
    decreases ins,
{
    match ins {
        Instruction::IncrementPointer => seq![OpCode::IncrementPointer],
        Instruction::DecrementPointer => seq![OpCode::DecrementPointer],
        Instruction::Increment => seq![OpCode::Increment],
        Instruction::Decrement => seq![OpCode::Decrement],
        Instruction::Write => seq![OpCode::Write],
        Instruction::Read => seq![OpCode::Read],
        Instruction::Loop(body) => seq![OpCode::LoopBegin] + flatten(body@) + seq![
            OpCode::LoopEnd,
        ],
    }
}

/// The opcodes that a sequence of instructions was built from, in order.
pub open spec fn flatten(prog: Seq<Instruction>) -> Seq<OpCode>
    decreases prog,
{
    if prog.len() == 0 {
        seq![]
    } else {
        flatten(prog.drop_last()) + flatten_one(prog.last())
    }
}

/// How a single opcode changes the loop nesting depth.
pub open spec fn bracket_delta(op: OpCode) -> int {
    match op {
        OpCode::LoopBegin => 1,
        OpCode::LoopEnd => -1,
        _ => 0,
    }
}

/// Loop begins minus loop ends among `ops[a..b]`.
pub open spec fn net(ops: Seq<OpCode>, a: int, b: int) -> int
    decreases b - a,
{
    if b <= a {
        0
    } else {
        net(ops, a, b - 1) + bracket_delta(ops[b - 1])
    }
}

/// No prefix of `ops[lo..hi]` closes more loops than it opens.
pub open spec fn never_below(ops: Seq<OpCode>, lo: int, hi: int) -> bool {
    forall|k: int| lo <= k <= hi ==> #[trigger] net(ops, lo, k) >= 0
}

/// `ops[lo..hi]` has properly nested, fully closed brackets.
pub open spec fn balanced_in(ops: Seq<OpCode>, lo: int, hi: int) -> bool {
    never_below(ops, lo, hi) && net(ops, lo, hi) == 0
}

/// Position `i` holds the first loop end of `ops[lo..hi]` that has no open
/// loop before it.
pub open spec fn unmatched_end_in(ops: Seq<OpCode>, lo: int, hi: int, i: int) -> bool {
    &&& lo <= i < hi
    &&& ops[i] == OpCode::LoopEnd
    &&& net(ops, lo, i) == 0
    &&& never_below(ops, lo, i)
}

/// No loop end of `ops[lo..hi]` lacks its begin, and position `j` holds the
/// outermost loop begin that stays open to the end of the range.
pub open spec fn unclosed_start_in(ops: Seq<OpCode>, lo: int, hi: int, j: int) -> bool {
    &&& lo <= j < hi
    &&& ops[j] == OpCode::LoopBegin
    &&& net(ops, lo, j) == 0
    &&& never_below(ops, lo, j)
    &&& forall|k: int| j < k <= hi ==> #[trigger] net(ops, lo, k) > 0
}

/// The whole sequence has properly nested, fully closed brackets.
pub open spec fn balanced(ops: Seq<OpCode>) -> bool {
    balanced_in(ops, 0, ops.len() as int)
}

/// Position `i` holds the first loop end of `ops` with no open loop before it.
pub open spec fn unmatched_end_at(ops: Seq<OpCode>, i: int) -> bool {
    unmatched_end_in(ops, 0, ops.len() as int, i)
}

/// Position `j` holds the outermost loop begin of `ops` that is never closed,
/// and every loop end of `ops` has its begin.
pub open spec fn unclosed_start_at(ops: Seq<OpCode>, j: int) -> bool {
    unclosed_start_in(ops, 0, ops.len() as int, j)
}

proof fn lemma_net_split(ops: Seq<OpCode>, a: int, b: int, c: int)
    requires
        a <= b <= c,
    ensures
        net(ops, a, c) == net(ops, a, b) + net(ops, b, c),
    decreases c - b,
{
    if c > b {
        lemma_net_split(ops, a, b, c - 1);
    }
}

proof fn lemma_flatten_push(prog: Seq<Instruction>, ins: Instruction)
    ensures
        flatten(prog.push(ins)) == flatten(prog) + flatten_one(ins),
{
    assert(prog.push(ins).drop_last() =~= prog);
}

/// Parses `ops[lo..hi]`; error positions are positions in `ops`.
fn parse_range(ops: &Vec<OpCode>, lo: usize, hi: usize) -> (r: Result<Vec<Instruction>, ParseError>)
    requires
        lo <= hi <= ops.len(),
    ensures
        balanced_in(ops@, lo as int, hi as int) ==> r is Ok,
        match r {
            Ok(program) => balanced_in(ops@, lo as int, hi as int) && flatten(program@)
                == ops@.subrange(lo as int, hi as int),
            Err(ParseError::UnmatchedLoopEnd(i)) => unmatched_end_in(
                ops@,
                lo as int,
                hi as int,
                i as int,
            ),
            Err(ParseError::UnmatchedLoopStart(j)) => unclosed_start_in(
                ops@,
                lo as int,
                hi as int,
                j as int,
            ),
        },
    decreases hi - lo,
{
    let mut program: Vec<Instruction> = Vec::new();
    let mut depth: usize = 0;
    let mut loop_start: usize = lo;
    let mut i: usize = lo;
    while i < hi
        invariant
            lo <= loop_start <= i <= hi <= ops.len(),
            depth as int == net(ops@, lo as int, i as int),
            depth <= i - lo,
            never_below(ops@, lo as int, i as int),
            depth == 0 ==> flatten(program@) == ops@.subrange(lo as int, i as int),
            depth > 0 ==> {
                &&& loop_start < i
                &&& ops@[loop_start as int] == OpCode::LoopBegin
                &&& net(ops@, lo as int, loop_start as int) == 0
                &&& flatten(program@) == ops@.subrange(lo as int, loop_start as int)
                &&& forall|k: int| loop_start < k <= i ==> #[trigger] net(ops@, lo as int, k) > 0
            },
        decreases hi - i,
    {
        let op = ops[i];
        let ghost prev = program@;
        assert(net(ops@, lo as int, i + 1) == net(ops@, lo as int, i as int) + bracket_delta(op));
        if depth == 0 {
            match op {
                OpCode::LoopBegin => {
                    loop_start = i;
                    depth = 1;
                },
                OpCode::LoopEnd => {
                    assert(!never_below(ops@, lo as int, hi as int)) by {
                        assert(net(ops@, lo as int, i + 1) < 0);
                    }
                    return Err(ParseError::UnmatchedLoopEnd(i));
                },
                _ => {
                    let ins = match op {
                        OpCode::IncrementPointer => Instruction::IncrementPointer,
                        OpCode::DecrementPointer => Instruction::DecrementPointer,
                        OpCode::Increment => Instruction::Increment,
                        OpCode::Decrement => Instruction::Decrement,
                        OpCode::Write => Instruction::Write,
                        _ => Instruction::Read,
                    };
                    proof {
                        lemma_flatten_push(prev, ins);
                        assert(ops@.subrange(lo as int, i + 1) =~= ops@.subrange(lo as int, i as int).push(op));
                    }
                    program.push(ins);
                },
            }
        } else {
            match op {
                OpCode::LoopBegin => {
                    depth = depth + 1;
                },
                OpCode::LoopEnd => {
                    depth = depth - 1;
                    if depth == 0 {
                        let start = loop_start + 1;
                        proof {
                            assert forall|k: int| start <= k <= i implies #[trigger] net(ops@, start as int, k) >= 0 by {
                                lemma_net_split(ops@, lo as int, start as int, k);
                                lemma_net_split(ops@, lo as int, loop_start as int, start as int);
                            }
                            lemma_net_split(ops@, lo as int, start as int, i as int);
                            lemma_net_split(ops@, lo as int, loop_start as int, start as int);
                        }
                        let body = match parse_range(ops, start, i) {
                            Ok(body) => body,
                            Err(e) => return Err(e),
                        };
                        let ghost inner = body@;
                        let ins = Instruction::Loop(body);
                        proof {
                            lemma_flatten_push(prev, ins);
                            assert(ops@.subrange(lo as int, i + 1) =~= ops@.subrange(lo as int, loop_start as int)
                                + seq![OpCode::LoopBegin] + ops@.subrange(start as int, i as int) + seq![OpCode::LoopEnd]);
                        }
                        program.push(ins);
                    }
                },
                _ => {},
            }
        }
        i = i + 1;
    }
    if depth != 0 {
        return Err(ParseError::UnmatchedLoopStart(loop_start));
    }
    Ok(program)
}

proof fn lemma_outcomes_exclusive(ops: Seq<OpCode>, lo: int, hi: int)
    requires
        lo <= hi <= ops.len(),
    ensures
        forall|i: int, j: int|
            #![auto]
            unmatched_end_in(ops, lo, hi, i) && unmatched_end_in(ops, lo, hi, j) ==> i == j,
        forall|i: int, j: int|
            #![auto]
            unclosed_start_in(ops, lo, hi, i) && unclosed_start_in(ops, lo, hi, j) ==> i == j,
        forall|i: int|
            #![auto]
            unmatched_end_in(ops, lo, hi, i) ==> !balanced_in(ops, lo, hi),
        forall|i: int, j: int|
            #![auto]
            unmatched_end_in(ops, lo, hi, i) ==> !unclosed_start_in(ops, lo, hi, j),
        forall|j: int| #![auto] unclosed_start_in(ops, lo, hi, j) ==> !balanced_in(ops, lo, hi),
{
    assert forall|i: int, j: int|
        #![auto]
        unmatched_end_in(ops, lo, hi, i) && unmatched_end_in(ops, lo, hi, j) implies i == j by {
        if i < j {
            assert(net(ops, lo, i + 1) < 0);
        } else if j < i {
            assert(net(ops, lo, j + 1) < 0);
        }
    }
    assert forall|i: int, j: int|
        #![auto]
        unclosed_start_in(ops, lo, hi, i) && unclosed_start_in(ops, lo, hi, j) implies i == j by {
        if i < j {
            assert(net(ops, lo, j) > 0);
        } else if j < i {
            assert(net(ops, lo, i) > 0);
        }
    }
    assert forall|i: int| #![auto] unmatched_end_in(ops, lo, hi, i) implies !balanced_in(ops, lo, hi) by {
        assert(net(ops, lo, i + 1) < 0);
    }
    assert forall|i: int, j: int|
        #![auto]
        unmatched_end_in(ops, lo, hi, i) implies !unclosed_start_in(ops, lo, hi, j) by {
        assert(net(ops, lo, i + 1) < 0);
    }
    assert forall|j: int| #![auto] unclosed_start_in(ops, lo, hi, j) implies !balanced_in(ops, lo, hi) by {
        assert(net(ops, lo, hi) > 0);
    }
}

/// Builds the instruction tree of an opcode sequence, with each loop owning
/// the instructions between its matching brackets.
pub fn parse(opcodes: Vec<OpCode>) -> (r: Result<Vec<Instruction>, ParseError>)
    ensures
        r is Ok <==> balanced(opcodes@),
        r matches Ok(program) ==> flatten(program@) == opcodes@,
        forall|i: usize|
            unmatched_end_at(opcodes@, i as int) <==> r == Err::<Vec<Instruction>, ParseError>(
                ParseError::UnmatchedLoopEnd(i),
            ),
        forall|j: usize|
            unclosed_start_at(opcodes@, j as int) <==> r == Err::<Vec<Instruction>, ParseError>(
                ParseError::UnmatchedLoopStart(j),
            ),
{
    let r = parse_range(&opcodes, 0, opcodes.len());
    proof {
        lemma_outcomes_exclusive(opcodes@, 0, opcodes@.len() as int);
        assert(opcodes@.subrange(0, opcodes@.len() as int) =~= opcodes@);
    }
    r
}

/// The number of opcodes other than loop begins and loop ends.
pub open spec fn plain_opcodes(ops: Seq<OpCode>) -> nat
    decreases ops.len(),
{
    if ops.len() == 0 {
        0
    } else {
        plain_opcodes(ops.drop_last()) + if bracket_delta(ops.last()) == 0 {
            1nat
        } else {
            0nat
        }
    }
}

/// The number of non-loop instructions in an instruction and, for a loop,
/// throughout its body at every depth.
pub open spec fn plain_instructions_in(ins: Instruction) -> nat
    decreases ins,
{
    match ins {
        Instruction::Loop(body) => plain_instructions(body@),
        _ => 1,
    }
}

/// The number of non-loop instructions in a sequence, counting the bodies of
/// its loops at every depth.
pub open spec fn plain_instructions(prog: Seq<Instruction>) -> nat
    decreases prog,
{
    if prog.len() == 0 {
        0
    } else {
        plain_instructions(prog.drop_last()) + plain_instructions_in(prog.last())
    }
}

proof fn lemma_plain_opcodes_concat(a: Seq<OpCode>, b: Seq<OpCode>)
    ensures
        plain_opcodes(a + b) == plain_opcodes(a) + plain_opcodes(b),
    decreases b.len(),
{
    if b.len() > 0 {
        assert((a + b).drop_last() =~= a + b.drop_last());
        lemma_plain_opcodes_concat(a, b.drop_last());
    }
}

proof fn lemma_plain_count_one(ins: Instruction)
    ensures
        plain_instructions_in(ins) == plain_opcodes(flatten_one(ins)),
    decreases ins,
{
    match ins {
        Instruction::Loop(body) => {
            lemma_plain_count(body@);
            let inner = flatten(body@);
            lemma_plain_opcodes_concat(seq![OpCode::LoopBegin], inner);
            lemma_plain_opcodes_concat(seq![OpCode::LoopBegin] + inner, seq![OpCode::LoopEnd]);
            let open_bracket = seq![OpCode::LoopBegin];
            let close_bracket = seq![OpCode::LoopEnd];
            assert(plain_opcodes(Seq::<OpCode>::empty()) == 0);
            assert(open_bracket.drop_last() =~= Seq::<OpCode>::empty());
            assert(close_bracket.drop_last() =~= Seq::<OpCode>::empty());
            assert(open_bracket.last() == OpCode::LoopBegin);
            assert(close_bracket.last() == OpCode::LoopEnd);
            assert(plain_opcodes(open_bracket) == 0);
            assert(plain_opcodes(close_bracket) == 0);
            assert(flatten_one(ins) == open_bracket + inner + close_bracket);
        },
        _ => {
            assert(plain_opcodes(Seq::<OpCode>::empty()) == 0);
            assert(flatten_one(ins).drop_last() =~= Seq::<OpCode>::empty());
            assert(bracket_delta(flatten_one(ins).last()) == 0);
        },
    }
}

proof fn lemma_plain_count(prog: Seq<Instruction>)
    ensures
        plain_instructions(prog) == plain_opcodes(flatten(prog)),
    decreases prog,
{
    if prog.len() > 0 {
        lemma_plain_count(prog.drop_last());
        lemma_plain_count_one(prog.last());
        lemma_plain_opcodes_concat(flatten(prog.drop_last()), flatten_one(prog.last()));
    }
}

/// Parsing loses no command: a tree whose opcodes are `ops`, as the tree that
/// [`parse`] returns for balanced `ops` is, holds as many non-loop
/// instructions, counted through every loop body, as `ops` holds opcodes other
/// than brackets.
pub proof fn lemma_parse_keeps_commands(ops: Seq<OpCode>, program: Seq<Instruction>)
    requires
        flatten(program) == ops,
    ensures
        plain_instructions(program) == plain_opcodes(ops),
{
    lemma_plain_count(program);
}

} // verus!
