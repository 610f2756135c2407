//! A just-in-time compiler for the Brainfuck instruction set.
//!
//! The library holds the instruction model, the code buffer, and the
//! two-phase code generator that turns an instruction sequence into
//! x86-64 machine code.  The generated image is a plain byte buffer;
//! mapping it into executable pages and jumping into it is left to the
//! embedding program, which hands the host routine addresses in through
//! [`BfJitVM::set_host`].

pub mod vm;

pub use crate::vm::BfJitVM;
pub use crate::vm::jitmem::JitMemory;

use vstd::prelude::*;
use vstd::string::StrSliceExecFns;

verus! {

/// Errors surfaced by parsing, construction and compilation.
#[derive(Debug)]
pub enum JitVmError {
    /// An input or output primitive of the host failed; carries the OS error code.
    IoError(i32),
    /// The OS could not provide or protect memory pages; carries the OS error code.
    MapError(i32),
    /// An internal inconsistency of the virtual machine, described in words.
    JitVmError(String),
    /// A capacity request with no valid layout (for instance, zero bytes of code).
    LayoutError,
    /// A source character outside the recognized alphabet.
    InvalidInstruction(char),
}

/// Code-generator-internal operations: the fixed pieces of prologue,
/// epilogue and call bracketing that never appear in a parsed program.
#[derive(Debug, Clone, Copy, PartialEq, Eq, Hash, Structural)]
pub enum CustomInstr {
    /// Save the pointer register on the stack.
    Push,
    /// Restore the pointer register from the stack.
    Pop,
    /// Bind the pointer register to a fixed address.
    MovRsi,
    /// Software breakpoint.
    Debug,
    /// Return to the caller.
    Ret,
}

/// The eight program-visible Brainfuck operations.
#[derive(Debug, Clone, Copy, PartialEq, Eq, Hash, Structural)]
pub enum BrainfuckInstr {
    /// Increment the data pointer (`>`).
    IncPtr,
    /// Decrement the data pointer (`<`).
    DecPtr,
    /// Increment the byte at the data pointer (`+`).
    IncData,
    /// Decrement the byte at the data pointer (`-`).
    DecData,
    /// Output the byte at the data pointer (`.`).
    Output,
    /// Read a byte into the cell at the data pointer (`,`).
    Input,
    /// Jump forward past the matching `]` if the byte at the pointer is zero (`[`).
    LoopStart,
    /// Jump backward to the matching `[` if the byte at the pointer is nonzero (`]`).
    LoopEnd,
}

/// Does the character denote an instruction?
pub open spec fn spec_is_bf_char(c: char) -> bool {
    c == '>' || c == '<' || c == '+' || c == '-' || c == '.' || c == ',' || c == '[' || c == ']'
}

/// The instruction a recognized character denotes.
pub open spec fn spec_char_instr(c: char) -> BrainfuckInstr {
    if c == '>' {
        BrainfuckInstr::IncPtr
    } else if c == '<' {
        BrainfuckInstr::DecPtr
    } else if c == '+' {
        BrainfuckInstr::IncData
    } else if c == '-' {
        BrainfuckInstr::DecData
    } else if c == '.' {
        BrainfuckInstr::Output
    } else if c == ',' {
        BrainfuckInstr::Input
    } else if c == '[' {
        BrainfuckInstr::LoopStart
    } else {
        BrainfuckInstr::LoopEnd
    }
}

/// The instruction sequence a source text denotes: newlines dropped,
/// every other character translated.  Meaningful only when every
/// non-newline character is recognized.
pub open spec fn spec_instrs(s: Seq<char>) -> Seq<BrainfuckInstr>
    decreases s.len(),
{
    if s.len() == 0 {
        Seq::empty()
    } else if s.last() == '\n' {
        spec_instrs(s.drop_last())
    } else {
        spec_instrs(s.drop_last()) + seq![spec_char_instr(s.last())]
    }
}

impl BrainfuckInstr {
    /// Translate one source character, rejecting anything outside the alphabet.
    pub fn try_from_char(c: char) -> (r: Result<BrainfuckInstr, JitVmError>)
        ensures
            spec_is_bf_char(c) <==> r is Ok,
            r matches Ok(i) ==> i == spec_char_instr(c),
            r matches Err(e) ==> e matches JitVmError::InvalidInstruction(b) && b == c,
    {
        match c {
            '>' => Ok(BrainfuckInstr::IncPtr),
            '<' => Ok(BrainfuckInstr::DecPtr),
            '+' => Ok(BrainfuckInstr::IncData),
            '-' => Ok(BrainfuckInstr::DecData),
            '.' => Ok(BrainfuckInstr::Output),
            ',' => Ok(BrainfuckInstr::Input),
            '[' => Ok(BrainfuckInstr::LoopStart),
            ']' => Ok(BrainfuckInstr::LoopEnd),
            _ => Err(JitVmError::InvalidInstruction(c)),
        }
    }

    /// Translate a whole source text, ignoring newlines.  The first
    /// unrecognized character is reported, before any machine is built.
    pub fn from_str(src: &str) -> (r: Result<Vec<BrainfuckInstr>, JitVmError>)
        ensures
            (forall|i: int|
                0 <= i < src@.len() ==> src@[i] == '\n' || spec_is_bf_char(src@[i])) <==> r is Ok,
            r matches Ok(v) ==> v@ == spec_instrs(src@),
            r matches Err(e) ==> (exists|i: int|
                {
                    &&& 0 <= i < src@.len()
                    &&& !(src@[i] == '\n' || spec_is_bf_char(src@[i]))
                    &&& (forall|j: int| 0 <= j < i ==> src@[j] == '\n' || spec_is_bf_char(src@[j]))
                    &&& e == JitVmError::InvalidInstruction(src@[i])
                }),
    {
        let n = src.unicode_len();
        let mut out: Vec<BrainfuckInstr> = Vec::new();
        let mut i: usize = 0;
        while i < n
            invariant
                n == src@.len(),
                i <= n,
                out@ == spec_instrs(src@.subrange(0, i as int)),
                forall|j: int| 0 <= j < i ==> src@[j] == '\n' || spec_is_bf_char(src@[j]),
            decreases n - i,
        {
            let c = src.get_char(i);
            proof {
                assert(src@.subrange(0, i + 1).drop_last() =~= src@.subrange(0, i as int));
                assert(src@.subrange(0, i + 1).last() == src@[i as int]);
            }
            if c == '\n' {
            } else {
                match BrainfuckInstr::try_from_char(c) {
                    Ok(instr) => {
                        out.push(instr);
                    },
                    Err(e) => {
                        return Err(e);
                    },
                }
            }
            i = i + 1;
        }
        proof {
            assert(src@.subrange(0, n as int) =~= src@);
        }
        Ok(out)
    }
}

/// Build a machine with the canonical capacities, bind the host byte
/// output and input routines, and compile `code` into it.  A failed
/// compile is deliberately not an error here, matching the driver's
/// behaviour: the machine then still carries its previous, trivial
/// image.  Entering the image, after binding a tape base and
/// recompiling against it, is the embedding program's part.
pub fn run(code: &[BrainfuckInstr], putchar_addr: u64, getchar_addr: u64) -> (r: Result<
    BfJitVM,
    JitVmError,
>)
    requires
        vm::spec_required(code@) <= 0x7fff_ffff,
    ensures
        r is Ok,
        r matches Ok(m) ==> ({
            let outcome = vm::spec_compile_result(
                Seq::new(0x10000, |i: int| 0u8).update(0, 0xc3u8),
                code@,
                0,
                putchar_addr,
                getchar_addr,
            );
            &&& m@.code == outcome.1
            &&& m@.tape == Seq::new(0x10000, |i: int| 0u8)
            &&& m@.tape_base == 0
            &&& m@.putchar_addr == putchar_addr
            &&& m@.getchar_addr == getchar_addr
        }),
{
    let mut machine = match BfJitVM::new(0x10000, 0x10000) {
        Ok(v) => v,
        Err(e) => {
            return Err(e);
        },
    };
    machine.set_host(0, putchar_addr, getchar_addr);
    let _compiled = machine.compile(code);
    Ok(machine)
}

} // verus!
