//! Scanning source text into opcodes.
use vstd::prelude::*;

verus! {

/// One recognised command symbol of the source text.
#[derive(Clone, Copy, Debug, PartialEq, Eq, Structural)]
pub enum OpCode {
    IncrementPointer,
    DecrementPointer,
    Increment,
    Decrement,
    Write,
    Read,
    LoopBegin,
    LoopEnd,
}

/// The opcode that a source character stands for, if it is a command symbol.
pub open spec fn opcode_of(c: char) -> Option<OpCode> {
    if c == '>' {
        Some(OpCode::IncrementPointer)
    } else if c == '<' {
        Some(OpCode::DecrementPointer)
    } else if c == '+' {
        Some(OpCode::Increment)
    } else if c == '-' {
        Some(OpCode::Decrement)
    } else if c == '.' {
        Some(OpCode::Write)
    } else if c == ',' {
        Some(OpCode::Read)
    } else if c == '[' {
        Some(OpCode::LoopBegin)
    } else if c == ']' {
        Some(OpCode::LoopEnd)
    } else {
        None
    }
}

/// Whether a character is one of the eight command symbols.
pub open spec fn is_command(c: char) -> bool {
    opcode_of(c) is Some
}

/// The opcodes of a text: one per command symbol, in order; all other
/// characters are comments.
pub open spec fn scan(s: Seq<char>) -> Seq<OpCode>
    decreases s.len(),
{
    if s.len() == 0 {
        seq![]
    } else {
        let rest = scan(s.drop_last());
        match opcode_of(s.last()) {
            Some(op) => rest.push(op),
            None => rest,
        }
    }
}

/// The number of command symbols in a text.
pub open spec fn command_symbols(s: Seq<char>) -> nat
    decreases s.len(),
{
    if s.len() == 0 {
        0
    } else {
        command_symbols(s.drop_last()) + if is_command(s.last()) { 1nat } else { 0nat }
    }
}

fn opcode_for(c: char) -> (r: Option<OpCode>)
    ensures
        r == opcode_of(c),
{
    match c {
        '>' => Some(OpCode::IncrementPointer),
        '<' => Some(OpCode::DecrementPointer),
        '+' => Some(OpCode::Increment),
        '-' => Some(OpCode::Decrement),
        '.' => Some(OpCode::Write),
        ',' => Some(OpCode::Read),
        '[' => Some(OpCode::LoopBegin),
        ']' => Some(OpCode::LoopEnd),
        _ => None,
    }
}

/// Turns source text into its sequence of opcodes, skipping every character
/// that is not a command symbol.
pub fn lex(source: String) -> (operations: Vec<OpCode>)
    ensures
        operations@ == scan(source@),
{
    let mut operations: Vec<OpCode> = Vec::new();
    let text = source.as_str();
    for symbol in it: text.chars()
        invariant
            it.seq() == text@,
            operations@ == scan(text@.take(it.index() as int)),
    {
        proof {
            let i = it.index() as int;
            assert(text@.take(i + 1).drop_last() =~= text@.take(i));
        }
        match opcode_for(symbol) {
            Some(op) => operations.push(op),
            None => {},
        }
    }
    proof {
        assert(text@.take(text@.len() as int) =~= text@);
    }
    operations
}

/// A text in which no character is a command symbol is all comment: it scans
/// to no opcodes at all.
pub proof fn lemma_comments_scan_to_nothing(s: Seq<char>)
    requires
        forall|i: int| 0 <= i < s.len() ==> !is_command(#[trigger] s[i]),
    ensures
        scan(s) == Seq::<OpCode>::empty(),
    decreases s.len(),
{
    if s.len() > 0 {
        let t = s.drop_last();
        assert forall|i: int| 0 <= i < t.len() implies !is_command(#[trigger] t[i]) by {
            assert(t[i] == s[i]);
        }
        lemma_comments_scan_to_nothing(t);
    }
}

/// Scanning yields exactly one opcode per command symbol, so never more
/// opcodes than the text has characters.
pub proof fn lemma_scan_length(s: Seq<char>)
    ensures
        scan(s).len() == command_symbols(s),
        command_symbols(s) <= s.len(),
    decreases s.len(),
{
    if s.len() > 0 {
        lemma_scan_length(s.drop_last());
    }
}

} // verus!
