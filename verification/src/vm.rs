//! The virtual machine: instruction encodings, the two-phase code
//! generator, and the façade that owns one code buffer and one data tape.
//!
//! The encodings target x86-64 with the System V calling convention:
//! `rsi` is the data pointer, so it is saved around every call into a
//! host routine, and the prologue reserves stack space with a block of
//! pushes so that call sites meet the convention's alignment rule.

pub mod jitmem;

use vstd::prelude::*;
use vstd::bytes::{spec_u32_to_le_bytes, spec_u64_to_le_bytes};
use crate::{BrainfuckInstr, CustomInstr, JitVmError};
use jitmem::{JitMemory, spec_i32_to_u32, zero_bytes};

verus! {

/// Number of register saves in the prologue; 128 bytes of stack space,
/// enough to keep every call site aligned as the convention demands.
pub const STACK_ALIGNMENT_BLOCKS: usize = 16;

/// Fixed bytes that every generated program carries around its body.
pub const PROGRAM_OVERHEAD: usize = 43;

/// Page granularity assumed when sizing the backing for a code buffer.
pub fn page_size() -> (r: usize)
    ensures
        r == 4096,
{
    4096
}

/// The fixed template for a code-generator-internal operation.
pub open spec fn spec_custom_template(c: CustomInstr) -> Seq<u8> {
    match c {
        CustomInstr::Debug => seq![0xCCu8],
        CustomInstr::Push => seq![0x56u8],
        CustomInstr::MovRsi => seq![0x48u8, 0xbe, 0, 0, 0, 0, 0, 0, 0, 0],
        CustomInstr::Pop => seq![0x5eu8],
        CustomInstr::Ret => seq![0xc3u8],
    }
}

/// The fixed template for a program instruction, operand slots zeroed.
pub open spec fn spec_instr_template(i: BrainfuckInstr) -> Seq<u8> {
    match i {
        BrainfuckInstr::IncPtr => seq![0x48u8, 0xff, 0xc6],
        BrainfuckInstr::DecPtr => seq![0x48u8, 0xff, 0xce],
        BrainfuckInstr::IncData => seq![0xfeu8, 0x06],
        BrainfuckInstr::DecData => seq![0xfeu8, 0x0e],
        BrainfuckInstr::LoopStart => seq![0x80u8, 0x3e, 0x00, 0x0f, 0x84, 0, 0, 0, 0],
        BrainfuckInstr::LoopEnd => seq![0x80u8, 0x3e, 0x00, 0x0f, 0x85, 0, 0, 0, 0],
        BrainfuckInstr::Output => seq![0x48u8, 0x0f, 0xb6, 0x3e, 0x48, 0xb8, 0, 0, 0, 0, 0, 0, 0, 0, 0x56, 0xff, 0xd0, 0x5e],
        BrainfuckInstr::Input => seq![0x48u8, 0xb8, 0, 0, 0, 0, 0, 0, 0, 0, 0x56, 0xff, 0xd0, 0x5e, 0x88, 0x06],
    }
}

/// Emitted length of one program instruction.
pub open spec fn spec_instr_len(i: BrainfuckInstr) -> int {
    spec_instr_template(i).len() as int
}

/// Total emitted length of an instruction sequence's body.
pub open spec fn spec_code_len(code: Seq<BrainfuckInstr>) -> int
    decreases code.len(),
{
    if code.len() == 0 {
        0
    } else {
        spec_instr_len(code[0]) + spec_code_len(code.skip(1))
    }
}

/// Bytes the whole generated program needs: prologue, body, epilogue.
pub open spec fn spec_required(code: Seq<BrainfuckInstr>) -> int {
    PROGRAM_OVERHEAD + spec_code_len(code)
}

/// Scanning `code` with `open` loops already open: no close without a
/// matching open, and nothing left open at the end.
pub open spec fn spec_wf_from(code: Seq<BrainfuckInstr>, open: int) -> bool
    decreases code.len(),
{
    if code.len() == 0 {
        open == 0
    } else {
        match code[0] {
            BrainfuckInstr::LoopStart => spec_wf_from(code.skip(1), open + 1),
            BrainfuckInstr::LoopEnd => open > 0 && spec_wf_from(code.skip(1), open - 1),
            _ => spec_wf_from(code.skip(1), open),
        }
    }
}

/// Brackets balance: every `]` closes an earlier `[`, and every `[` is closed.
pub open spec fn spec_balanced(code: Seq<BrainfuckInstr>) -> bool {
    spec_wf_from(code, 0)
}

/// A sequence an emitter frame may be entered on: it closes some number
/// of loops that are already open and is balanced beyond them.
pub open spec fn spec_frame_valid(code: Seq<BrainfuckInstr>) -> bool {
    exists|m: int| m >= 0 && spec_wf_from(code, m)
}

/// The output template with the host routine's address in its operand slot.
pub open spec fn spec_output_code(putchar_addr: u64) -> Seq<u8> {
    seq![0x48u8, 0x0f, 0xb6, 0x3e, 0x48, 0xb8] + spec_u64_to_le_bytes(putchar_addr)
        + seq![0x56u8, 0xff, 0xd0, 0x5e]
}

/// The input template with the host routine's address in its operand slot.
pub open spec fn spec_input_code(getchar_addr: u64) -> Seq<u8> {
    seq![0x48u8, 0xb8] + spec_u64_to_le_bytes(getchar_addr)
        + seq![0x56u8, 0xff, 0xd0, 0x5e, 0x88, 0x06]
}

/// The loop-start template with its forward displacement resolved:
/// jump `disp` bytes past the end of this template when the cell is zero.
pub open spec fn spec_loop_start_code(disp: int) -> Seq<u8> {
    seq![0x80u8, 0x3e, 0x00, 0x0f, 0x84] + spec_u32_to_le_bytes(disp as u32)
}

/// The loop-end template with its backward displacement resolved: jump
/// `disp` bytes back from the end of this template when the cell is nonzero.
pub open spec fn spec_loop_end_code(disp: int) -> Seq<u8> {
    seq![0x80u8, 0x3e, 0x00, 0x0f, 0x85] + spec_u32_to_le_bytes((0x1_0000_0000 - disp) as u32)
}

/// Emitted bytes of one non-loop instruction, operands resolved.
pub open spec fn spec_instr_code(i: BrainfuckInstr, putchar_addr: u64, getchar_addr: u64) -> Seq<u8> {
    match i {
        BrainfuckInstr::Output => spec_output_code(putchar_addr),
        BrainfuckInstr::Input => spec_input_code(getchar_addr),
        _ => spec_instr_template(i),
    }
}

/// One emitter frame over `code`, having already emitted `frame_len`
/// bytes since the frame began.  Emission runs until the loop-end that
/// closes this frame is consumed, or the input is exhausted.  Yields
/// the emitted bytes and the number of instructions consumed.
pub open spec fn spec_emit_frame(
    code: Seq<BrainfuckInstr>,
    putchar_addr: u64,
    getchar_addr: u64,
    frame_len: int,
) -> (Seq<u8>, int)
    decreases code.len(),
{
    if code.len() == 0 {
        (Seq::<u8>::empty(), 0)
    } else if code[0] is LoopEnd {
        (spec_loop_end_code(frame_len + 9), 1)
    } else if code[0] is LoopStart {
        let inner = spec_emit_frame(code.skip(1), putchar_addr, getchar_addr, 0);
        let k = if 1 + inner.1 < 1 {
            1
        } else if 1 + inner.1 > code.len() {
            code.len() as int
        } else {
            1 + inner.1
        };
        let rest = spec_emit_frame(code.skip(k), putchar_addr, getchar_addr,
            frame_len + 9 + inner.0.len());
        (spec_loop_start_code(inner.0.len() as int) + inner.0 + rest.0, k + rest.1)
    } else {
        let b = spec_instr_code(code[0], putchar_addr, getchar_addr);
        let rest = spec_emit_frame(code.skip(1), putchar_addr, getchar_addr,
            frame_len + b.len());
        (b + rest.0, 1 + rest.1)
    }
}

/// The prologue: the alignment block of register saves, then the
/// pointer register bound to the tape's base address.
pub open spec fn spec_prologue(tape_base: u64) -> Seq<u8> {
    Seq::new(16, |i: int| 0x56u8) + seq![0x48u8, 0xbe] + spec_u64_to_le_bytes(tape_base)
}

/// The epilogue: the matching restores and the trailing return.
pub open spec fn spec_epilogue() -> Seq<u8> {
    Seq::new(16, |i: int| 0x5eu8) + seq![0xc3u8]
}

/// The whole machine-code image generated for `code`.
pub open spec fn spec_program(
    code: Seq<BrainfuckInstr>,
    tape_base: u64,
    putchar_addr: u64,
    getchar_addr: u64,
) -> Seq<u8> {
    spec_prologue(tape_base) + spec_emit_frame(code, putchar_addr, getchar_addr, 0).0
        + spec_epilogue()
}

/// On balanced input the generated image is exactly as long as the
/// capacity pass demands: prologue, per-instruction templates, epilogue.
pub proof fn lemma_program_len(
    code: Seq<BrainfuckInstr>,
    tape_base: u64,
    putchar_addr: u64,
    getchar_addr: u64,
)
    requires
        spec_balanced(code),
    ensures
        spec_program(code, tape_base, putchar_addr, getchar_addr).len() == spec_required(code),
{
    lemma_emit_frame_wf(code, putchar_addr, getchar_addr, 0, 0);
    assert(code.subrange(0, code.len() as int) =~= code);
    vstd::bytes::lemma_auto_spec_u64_to_from_le_bytes();
    assert(spec_prologue(tape_base).len() == 26);
    assert(spec_epilogue().len() == 17);
}

/// Emitted body lengths add up over concatenation.
proof fn lemma_code_len_add(a: Seq<BrainfuckInstr>, b: Seq<BrainfuckInstr>)
    ensures
        spec_code_len(a + b) == spec_code_len(a) + spec_code_len(b),
    decreases a.len(),
{
    if a.len() == 0 {
        assert(a + b =~= b);
    } else {
        assert((a + b).skip(1) =~= a.skip(1) + b);
        lemma_code_len_add(a.skip(1), b);
    }
}

/// Every emitted body length is nonnegative.
proof fn lemma_code_len_nonneg(code: Seq<BrainfuckInstr>)
    ensures
        spec_code_len(code) >= 0,
    decreases code.len(),
{
    if code.len() > 0 {
        lemma_code_len_nonneg(code.skip(1));
    }
}

/// A prefix of the body never outweighs the whole body.
proof fn lemma_code_len_prefix(code: Seq<BrainfuckInstr>, k: int)
    requires
        0 <= k <= code.len(),
    ensures
        spec_code_len(code.subrange(0, k)) <= spec_code_len(code),
        spec_code_len(code) == spec_code_len(code.subrange(0, k)) + spec_code_len(code.skip(k)),
{
    assert(code =~= code.subrange(0, k) + code.skip(k));
    lemma_code_len_add(code.subrange(0, k), code.skip(k));
    lemma_code_len_nonneg(code.skip(k));
    assert(spec_code_len(code.subrange(0, k) + code.skip(k)) == spec_code_len(code));
}

/// Skipping in two steps is skipping once.
proof fn lemma_skip_add(s: Seq<u8>, a: int, b: int)
    requires
        0 <= a,
        0 <= b,
        a + b <= s.len(),
    ensures
        s.skip(a).skip(b) == s.skip(a + b),
{
    assert(s.skip(a).skip(b) =~= s.skip(a + b));
}

/// Dropping a concatenation's left part leaves its right part.
proof fn lemma_concat_skip(x: Seq<u8>, y: Seq<u8>)
    ensures
        (x + y).skip(x.len() as int) == y,
{
    assert((x + y).skip(x.len() as int) =~= y);
}

/// What one emitter frame does on well-formed input: it consumes a
/// prefix, emits exactly that prefix's encoding length, consumes
/// everything when no enclosing loop is open, and otherwise leaves a
/// sequence that still closes the remaining open loops.
proof fn lemma_emit_frame_wf(
    code: Seq<BrainfuckInstr>,
    putchar_addr: u64,
    getchar_addr: u64,
    frame_len: int,
    m: int,
)
    requires
        m >= 0,
        spec_wf_from(code, m),
    ensures
        ({
            let f = spec_emit_frame(code, putchar_addr, getchar_addr, frame_len);
            &&& 0 <= f.1 <= code.len()
            &&& f.0.len() == spec_code_len(code.subrange(0, f.1))
            &&& f.0.len() <= spec_code_len(code)
            &&& (m == 0 ==> f.1 == code.len())
            &&& (m >= 1 ==> spec_wf_from(code.skip(f.1), m - 1))
        }),
    decreases code.len(),
{
    let f = spec_emit_frame(code, putchar_addr, getchar_addr, frame_len);
    if code.len() == 0 {
        assert(f.0.len() == spec_code_len(code.subrange(0, 0)));
    } else if code[0] is LoopEnd {
        assert(m >= 1);
        assert(spec_wf_from(code.skip(1), m - 1));
        vstd::bytes::lemma_auto_spec_u32_to_from_le_bytes();
        assert(f.0.len() == 9);
        let p = code.subrange(0, 1);
        assert(p.len() == 1 && p[0] == code[0]);
        assert(p.skip(1) =~= Seq::<BrainfuckInstr>::empty());
        assert(spec_code_len(p.skip(1)) == 0);
        assert(spec_instr_len(p[0]) == 9);
        assert(spec_code_len(p) == 9);
        lemma_code_len_prefix(code, 1);
    } else if code[0] is LoopStart {
        assert(spec_wf_from(code.skip(1), m + 1));
        let inner = spec_emit_frame(code.skip(1), putchar_addr, getchar_addr, 0);
        lemma_emit_frame_wf(code.skip(1), putchar_addr, getchar_addr, 0, m + 1);
        assert(0 <= inner.1 <= code.len() - 1);
        let k = 1 + inner.1;
        assert(spec_wf_from(code.skip(1).skip(inner.1), m));
        assert(code.skip(1).skip(inner.1) =~= code.skip(k));
        let rest = spec_emit_frame(code.skip(k), putchar_addr, getchar_addr,
            frame_len + 9 + inner.0.len());
        lemma_emit_frame_wf(code.skip(k), putchar_addr, getchar_addr,
            frame_len + 9 + inner.0.len(), m);
        assert(f.1 == k + rest.1);
        assert(0 <= f.1 <= code.len());
        vstd::bytes::lemma_auto_spec_u32_to_from_le_bytes();
        assert(spec_loop_start_code(inner.0.len() as int).len() == 9);
        assert(inner.0.len() == spec_code_len(code.skip(1).subrange(0, inner.1)));
        assert(rest.0.len() == spec_code_len(code.skip(k).subrange(0, rest.1)));
        let p = code.subrange(0, f.1);
        assert(p.skip(1) =~= code.subrange(1, f.1));
        assert(spec_code_len(p) == 9 + spec_code_len(code.subrange(1, f.1)));
        assert(code.subrange(1, f.1) =~= code.subrange(1, k) + code.subrange(k, f.1));
        lemma_code_len_add(code.subrange(1, k), code.subrange(k, f.1));
        assert(code.skip(1).subrange(0, inner.1) =~= code.subrange(1, k));
        assert(code.skip(k).subrange(0, rest.1) =~= code.subrange(k, f.1));
        assert(f.0.len() == 9 + inner.0.len() + rest.0.len());
        assert(f.0.len() == spec_code_len(code.subrange(0, f.1)));
        lemma_code_len_prefix(code, f.1);
        if m == 0 {
            assert(rest.1 == code.skip(k).len());
            assert(f.1 == code.len());
        }
        if m >= 1 {
            assert(spec_wf_from(code.skip(k).skip(rest.1), m - 1));
            assert(code.skip(k).skip(rest.1) =~= code.skip(f.1));
        }
    } else {
        assert(spec_wf_from(code.skip(1), m));
        let b = spec_instr_code(code[0], putchar_addr, getchar_addr);
        let rest = spec_emit_frame(code.skip(1), putchar_addr, getchar_addr,
            frame_len + b.len());
        lemma_emit_frame_wf(code.skip(1), putchar_addr, getchar_addr,
            frame_len + b.len(), m);
        vstd::bytes::lemma_auto_spec_u64_to_from_le_bytes();
        assert(b.len() == spec_instr_len(code[0]));
        let p = code.subrange(0, f.1);
        assert(p.len() >= 1 && p[0] == code[0]);
        assert(p.skip(1) =~= code.subrange(1, f.1));
        assert(code.skip(1).subrange(0, rest.1) =~= code.subrange(1, f.1));
        assert(f.0.len() == spec_code_len(code.subrange(0, f.1)));
        lemma_code_len_prefix(code, f.1);
        if m >= 1 {
            assert(code.skip(1).skip(rest.1) =~= code.skip(f.1));
        }
    }
}

/// A machine as specifications see it: the code image, the tape, and
/// the host bindings that compilation embeds into generated code.
pub struct VmView {
    pub code: Seq<u8>,
    pub tape: Seq<u8>,
    pub tape_base: u64,
    pub putchar_addr: u64,
    pub getchar_addr: u64,
}

/// A virtual machine: one code buffer and one fixed-size data tape.
///
/// Freshly constructed, the buffer holds a single return instruction,
/// so an uncompiled machine is safe to enter.  A successful `compile`
/// replaces the image; a failed one changes nothing.
pub struct BfJitVM {
    code_mem: JitMemory,
    data_mem: Vec<u8>,
    tape_base: u64,
    putchar_addr: u64,
    getchar_addr: u64,
}

impl View for BfJitVM {
    type V = VmView;

    closed spec fn view(&self) -> VmView {
        VmView {
            code: self.code_mem@,
            tape: self.data_mem@,
            tape_base: self.tape_base,
            putchar_addr: self.putchar_addr,
            getchar_addr: self.getchar_addr,
        }
    }
}

impl BfJitVM {
    /// Build a machine with `code_size` bytes of code buffer and a
    /// `data_size`-byte zeroed tape, the buffer populated with the
    /// trivial return-only body and every host binding still null.
    pub fn new(code_size: usize, data_size: usize) -> (r: Result<BfJitVM, JitVmError>)
        ensures
            code_size == 0 <==> r is Err,
            r matches Err(e) ==> e is LayoutError,
            r matches Ok(vm) ==> ({
                &&& vm@.code == Seq::new(code_size as nat, |i: int| 0u8).update(0, 0xc3u8)
                &&& vm@.tape == Seq::new(data_size as nat, |i: int| 0u8)
                &&& vm@.tape_base == 0
                &&& vm@.putchar_addr == 0
                &&& vm@.getchar_addr == 0
            }),
    {
        match JitMemory::allocate(code_size) {
            Err(e) => Err(e),
            Ok(mut jit_mem) => {
                let mut ip: usize = 0;
                let ret = custom_instr_to_bin_code(CustomInstr::Ret);
                jit_mem.write_at(&mut ip, ret.as_slice());
                proof {
                    assert(jit_mem@ =~= Seq::new(code_size as nat, |i: int| 0u8).update(0, 0xc3u8));
                }
                let data_mem = zero_bytes(data_size);
                Ok(BfJitVM {
                    code_mem: jit_mem,
                    data_mem,
                    tape_base: 0,
                    putchar_addr: 0,
                    getchar_addr: 0,
                })
            },
        }
    }

    /// Record the addresses that compilation embeds into generated
    /// code: the tape's base and the two host byte-I/O routines.
    pub fn set_host(&mut self, tape_base: u64, putchar_addr: u64, getchar_addr: u64)
        ensures
            final(self)@.code == old(self)@.code,
            final(self)@.tape == old(self)@.tape,
            final(self)@.tape_base == tape_base,
            final(self)@.putchar_addr == putchar_addr,
            final(self)@.getchar_addr == getchar_addr,
    {
        self.tape_base = tape_base;
        self.putchar_addr = putchar_addr;
        self.getchar_addr = getchar_addr;
    }

    /// The data tape.  Its base address is what `set_host` expects as
    /// `tape_base` when generated code is meant to run against it.
    pub fn tape(&self) -> (r: &Vec<u8>)
        ensures
            r@ == self@.tape,
    {
        &self.data_mem
    }

    /// The code buffer holding the generated image.
    pub fn code(&self) -> (r: &JitMemory)
        ensures
            r@ == self@.code,
    {
        &self.code_mem
    }

    /// Zero-fill the tape, as every run of the machine must before
    /// control enters the generated program.
    pub fn clear_tape(&mut self)
        ensures
            final(self)@.tape == Seq::new(old(self)@.tape.len(), |i: int| 0u8),
            final(self)@.code == old(self)@.code,
            final(self)@.tape_base == old(self)@.tape_base,
            final(self)@.putchar_addr == old(self)@.putchar_addr,
            final(self)@.getchar_addr == old(self)@.getchar_addr,
    {
        let ghost n = self.data_mem@.len();
        let ghost code0 = self.code_mem@;
        let ghost tb0 = self.tape_base;
        let ghost pa0 = self.putchar_addr;
        let ghost ga0 = self.getchar_addr;
        let len = self.data_mem.len();
        let mut i: usize = 0;
        while i < len
            invariant
                i <= len,
                len == self.data_mem@.len() == n,
                self.code_mem@ == code0,
                self.tape_base == tb0,
                self.putchar_addr == pa0,
                self.getchar_addr == ga0,
                forall|k: int| 0 <= k < i ==> self.data_mem@[k] == 0u8,
            decreases len - i,
        {
            self.data_mem.set(i, 0u8);
            i = i + 1;
        }
        proof {
            assert(self.data_mem@ =~= Seq::new(n, |k: int| 0u8));
        }
    }

    /// Phase 1 of compilation: walk the sequence once, checking that
    /// brackets balance and that the full generated program — body plus
    /// prologue and epilogue — fits the code buffer.  Reads everything,
    /// writes nothing.
    fn check_before_compilation(&self, code: &[BrainfuckInstr]) -> (r: bool)
        requires
            spec_required(code@) <= 0x7fff_ffff,
        ensures
            r == (spec_balanced(code@) && spec_required(code@) <= self@.code.len()),
    {
        let n = code.len();
        let mut required_code_mem: usize = 0;
        let mut opened_loops: usize = 0;
        let mut idx: usize = 0;
        proof {
            lemma_code_len_nonneg(code@);
            assert(code@.skip(0) =~= code@);
        }
        while idx < n
            invariant
                n == code@.len(),
                idx <= n,
                opened_loops <= idx,
                spec_required(code@) <= 0x7fff_ffff,
                spec_wf_from(code@, 0) == spec_wf_from(code@.skip(idx as int), opened_loops as int),
                spec_code_len(code@) == required_code_mem + spec_code_len(code@.skip(idx as int)),
                required_code_mem <= spec_code_len(code@),
            decreases n - idx,
        {
            let instr = *vstd::slice::slice_index_get(code, idx);
            let ghost s = code@.skip(idx as int);
            proof {
                assert(s.len() == n - idx);
                assert(s[0] == code@[idx as int]);
                assert(s.skip(1) =~= code@.skip(idx as int + 1));
                lemma_code_len_nonneg(s.skip(1));
                assert(spec_code_len(s) == spec_instr_len(s[0]) + spec_code_len(s.skip(1)));
            }
            let t = instr_to_bin_code(instr);
            let enc = t.len();
            match instr {
                BrainfuckInstr::LoopStart => {
                    proof {
                        assert(spec_wf_from(s, opened_loops as int)
                            == spec_wf_from(s.skip(1), opened_loops + 1));
                    }
                    opened_loops = opened_loops + 1;
                    required_code_mem = required_code_mem + enc;
                },
                BrainfuckInstr::LoopEnd => {
                    if opened_loops == 0 {
                        proof {
                            assert(!spec_wf_from(s, 0));
                            assert(!spec_balanced(code@));
                        }
                        return false;
                    }
                    proof {
                        assert(spec_wf_from(s, opened_loops as int)
                            == spec_wf_from(s.skip(1), opened_loops - 1));
                    }
                    opened_loops = opened_loops - 1;
                    required_code_mem = required_code_mem + enc;
                },
                _ => {
                    proof {
                        assert(spec_wf_from(s, opened_loops as int)
                            == spec_wf_from(s.skip(1), opened_loops as int));
                    }
                    required_code_mem = required_code_mem + enc;
                },
            }
            idx = idx + 1;
        }
        proof {
            assert(code@.skip(n as int) =~= Seq::<BrainfuckInstr>::empty());
            assert(spec_code_len(Seq::<BrainfuckInstr>::empty()) == 0);
            assert(required_code_mem == spec_code_len(code@));
            assert(spec_balanced(code@) == (opened_loops == 0));
        }
        if opened_loops > 0 {
            return false;
        }
        let push = custom_instr_to_bin_code(CustomInstr::Push);
        let mov_rsi = custom_instr_to_bin_code(CustomInstr::MovRsi);
        let pop = custom_instr_to_bin_code(CustomInstr::Pop);
        let ret = custom_instr_to_bin_code(CustomInstr::Ret);
        let required_total = required_code_mem
            + push.len() * STACK_ALIGNMENT_BLOCKS
            + mov_rsi.len()
            + pop.len() * STACK_ALIGNMENT_BLOCKS
            + ret.len();
        assert(required_total == spec_required(code@));
        let vm_code_buffer_size = self.code_mem.len();
        required_total <= vm_code_buffer_size
    }

    /// Phase 2's recursive core: emit the templates for `code` at
    /// buffer offset `begin_ip`, resolving loop displacements by
    /// backpatching.  Emission stops after the loop-end that closes the
    /// frame the caller opened, or when the input runs out.  Returns
    /// the offset one past the emitted bytes and the count of
    /// instructions consumed.
    #[verifier::rlimit(60)]
    pub fn compile_loop_body(&mut self, code: &[BrainfuckInstr], begin_ip: usize) -> (r: (usize, usize))
        requires
            spec_frame_valid(code@),
            begin_ip
                + spec_emit_frame(code@, old(self)@.putchar_addr, old(self)@.getchar_addr, 0).0.len()
                <= old(self)@.code.len(),
            spec_emit_frame(code@, old(self)@.putchar_addr, old(self)@.getchar_addr, 0).0.len()
                < 0x8000_0000,
        ensures
            ({
                let f = spec_emit_frame(code@, old(self)@.putchar_addr, old(self)@.getchar_addr, 0);
                &&& r.0 == begin_ip + f.0.len()
                &&& r.1 == f.1
                &&& final(self)@.code == old(self)@.code.subrange(0, begin_ip as int) + f.0
                    + old(self)@.code.subrange(begin_ip + f.0.len(), old(self)@.code.len() as int)
                &&& final(self)@.code.len() == old(self)@.code.len()
                &&& final(self)@.tape == old(self)@.tape
                &&& final(self)@.tape_base == old(self)@.tape_base
                &&& final(self)@.putchar_addr == old(self)@.putchar_addr
                &&& final(self)@.getchar_addr == old(self)@.getchar_addr
            }),
        decreases code@.len(),
    {
        let ghost put = self.putchar_addr;
        let ghost get = self.getchar_addr;
        let ghost full = spec_emit_frame(code@, put, get, 0);
        let ghost orig = self.code_mem@;
        let ghost cap = self.code_mem@.len() as int;
        let ghost tape0 = self.data_mem@;
        let ghost tb0 = self.tape_base;
        let ghost m0 = choose|m: int| m >= 0 && spec_wf_from(code@, m);
        proof {
            assert(code@.skip(0) =~= code@);
            assert(full.0.skip(0) =~= full.0);
        }
        let n = code.len();
        let mut ip: usize = begin_ip;
        let mut chars_processed: usize = 0;
        let mut done: bool = false;
        while !done && chars_processed < n
            invariant
                n == code@.len(),
                chars_processed <= n,
                begin_ip <= ip,
                ip - begin_ip <= full.0.len(),
                self.putchar_addr == put,
                self.getchar_addr == get,
                self.data_mem@ == tape0,
                self.tape_base == tb0,
                self.code_mem@.len() == cap,
                orig.len() == cap,
                begin_ip + full.0.len() <= cap,
                full.0.len() < 0x8000_0000,
                full == spec_emit_frame(code@, put, get, 0),
                forall|k: int| 0 <= k < cap && !(begin_ip <= k < ip) ==> self.code_mem@[k] == orig[k],
                forall|k: int| begin_ip <= k < ip ==> self.code_mem@[k] == full.0[k - begin_ip],
                !done ==> ({
                    let rem = spec_emit_frame(code@.skip(chars_processed as int), put, get,
                        ip - begin_ip);
                    &&& m0 >= 0
                    &&& spec_wf_from(code@.skip(chars_processed as int), m0)
                    &&& rem.0 == full.0.skip(ip - begin_ip)
                    &&& full.1 == chars_processed + rem.1
                }),
                done ==> ip == begin_ip + full.0.len() && full.1 == chars_processed,
            decreases n - chars_processed,
        {
            let instr = *vstd::slice::slice_index_get(code, chars_processed);
            let ghost s = code@.skip(chars_processed as int);
            let ghost fl = ip - begin_ip;
            let ghost rem = spec_emit_frame(s, put, get, fl);
            let ghost pre = self.code_mem@;
            let ghost ip0 = ip as int;
            proof {
                assert(s.len() == n - chars_processed);
                assert(s[0] == code@[chars_processed as int]);
                assert(s.skip(1) =~= code@.skip(chars_processed as int + 1));
                vstd::bytes::lemma_auto_spec_u32_to_from_le_bytes();
                vstd::bytes::lemma_auto_spec_u64_to_from_le_bytes();
            }
            match instr {
                BrainfuckInstr::IncPtr
                | BrainfuckInstr::DecPtr
                | BrainfuckInstr::IncData
                | BrainfuckInstr::DecData => {
                    let ghost b = spec_instr_code(s[0], put, get);
                    let ghost rest = spec_emit_frame(s.skip(1), put, get, fl + b.len());
                    proof {
                        assert(b == spec_instr_template(s[0]));
                        assert(rem.0 == b + rest.0 && rem.1 == 1 + rest.1);
                        assert(fl + rem.0.len() == full.0.len());
                    }
                    let t = instr_to_bin_code(instr);
                    self.code_mem.write_at(&mut ip, t.as_slice());
                    proof {
                        let cur = self.code_mem@;
                        assert forall|k: int| begin_ip <= k < ip implies cur[k] == full.0[k
                            - begin_ip] by {
                            if k < ip0 {
                                assert(cur[k] == pre[k]);
                            } else {
                                assert(cur[k] == b[k - ip0]);
                                assert(full.0[k - begin_ip] == full.0.skip(fl)[k - ip0]);
                            }
                        }
                        lemma_concat_skip(b, rest.0);
                        lemma_skip_add(full.0, fl, b.len() as int);
                        assert(rest.0 == full.0.skip(fl).skip(b.len() as int));
                        assert(rest.0 == full.0.skip(fl + b.len() as int));
                    }
                    chars_processed = chars_processed + 1;
                },
                BrainfuckInstr::Output | BrainfuckInstr::Input => {
                    let ghost b = spec_instr_code(s[0], put, get);
                    let ghost rest = spec_emit_frame(s.skip(1), put, get, fl + b.len());
                    let ghost tmpl = spec_instr_template(s[0]);
                    proof {
                        assert(rem.0 == b + rest.0 && rem.1 == 1 + rest.1);
                        assert(fl + rem.0.len() == full.0.len());
                        assert(b.len() == tmpl.len());
                    }
                    let t = instr_to_bin_code(instr);
                    self.code_mem.write_at(&mut ip, t.as_slice());
                    let ghost mid = self.code_mem@;
                    if instr == BrainfuckInstr::Output {
                        self.code_mem.patch_addr_u64(ip - 12, self.putchar_addr);
                    } else {
                        self.code_mem.patch_addr_u64(ip - 14, self.getchar_addr);
                    }
                    proof {
                        let cur = self.code_mem@;
                        let slot = if s[0] is Output { ip0 + 6 } else { ip0 + 2 };
                        assert forall|k: int| 0 <= k < cap && !(ip0 <= k < ip) implies cur[k]
                            == pre[k] by {
                            assert(mid[k] == pre[k]);
                            assert(cur[k] == mid[k]);
                        }
                        assert forall|k: int| begin_ip <= k < ip implies cur[k] == full.0[k
                            - begin_ip] by {
                            if k < ip0 {
                                assert(cur[k] == mid[k] && mid[k] == pre[k]);
                            } else {
                                if slot <= k < slot + 8 {
                                    if s[0] is Output {
                                        assert(cur[k] == vstd::bytes::spec_u64_to_le_bytes(put)[k
                                            - slot]);
                                    } else {
                                        assert(cur[k] == vstd::bytes::spec_u64_to_le_bytes(get)[k
                                            - slot]);
                                    }
                                } else {
                                    assert(cur[k] == mid[k] && mid[k] == tmpl[k - ip0]);
                                }
                                assert(cur[k] == b[k - ip0]);
                                assert(full.0[k - begin_ip] == full.0.skip(fl)[k - ip0]);
                            }
                        }
                        lemma_concat_skip(b, rest.0);
                        lemma_skip_add(full.0, fl, b.len() as int);
                        assert(rest.0 == full.0.skip(fl).skip(b.len() as int));
                        assert(rest.0 == full.0.skip(fl + b.len() as int));
                    }
                    chars_processed = chars_processed + 1;
                },
                BrainfuckInstr::LoopStart => {
                    let ghost inner = spec_emit_frame(s.skip(1), put, get, 0);
                    let ghost d = inner.0.len() as int;
                    let ghost rest = spec_emit_frame(s.skip(1 + inner.1), put, get, fl + 9 + d);
                    proof {
                        assert(spec_wf_from(s.skip(1), m0 + 1));
                        lemma_emit_frame_wf(s.skip(1), put, get, 0, m0 + 1);
                        assert(0 <= inner.1 <= s.len() - 1);
                        assert(rem.0 == spec_loop_start_code(d) + inner.0 + rest.0);
                        assert(rem.1 == 1 + inner.1 + rest.1);
                        assert(fl + rem.0.len() == full.0.len());
                        assert(spec_loop_start_code(d).len() == 9);
                    }
                    let t = instr_to_bin_code(instr);
                    self.code_mem.write_at(&mut ip, t.as_slice());
                    let addr_to_patch = ip - 4;
                    let ghost mid = self.code_mem@;
                    let sub = vstd::slice::slice_subrange(code, chars_processed + 1, n);
                    proof {
                        assert(sub@ == s.skip(1));
                        assert(spec_frame_valid(sub@));
                        assert(ip + d <= cap);
                        assert(d < 0x8000_0000);
                    }
                    let rr = self.compile_loop_body(sub, ip);
                    let new_ip = rr.0;
                    let new_cp = rr.1;
                    let ghost post_rec = self.code_mem@;
                    let offset = new_ip - ip;
                    proof {
                        assert(offset == d);
                        assert(new_cp == inner.1);
                    }
                    self.code_mem.patch_addr_i32(addr_to_patch, offset as i32);
                    proof {
                        let cur = self.code_mem@;
                        assert(spec_i32_to_u32(offset as i32) == (d as u32));
                        assert forall|k: int| 0 <= k < cap && !(ip0 <= k < new_ip) implies cur[k]
                            == pre[k] by {
                            assert(mid[k] == pre[k]);
                            assert(post_rec[k] == mid[k]);
                            assert(cur[k] == post_rec[k]);
                        }
                        assert forall|k: int| begin_ip <= k < new_ip implies cur[k] == full.0[k
                            - begin_ip] by {
                            if k < ip0 {
                                assert(cur[k] == post_rec[k] && post_rec[k] == mid[k]
                                    && mid[k] == pre[k]);
                            } else {
                                if k < ip0 + 5 {
                                    assert(cur[k] == post_rec[k] && post_rec[k] == mid[k]);
                                    assert(mid[k] == spec_instr_template(s[0])[k - ip0]);
                                    assert(rem.0[k - ip0] == spec_loop_start_code(d)[k - ip0]);
                                } else if k < ip0 + 9 {
                                    assert(cur[k] == vstd::bytes::spec_u32_to_le_bytes(d as u32)[k
                                        - (ip0 + 5)]);
                                    assert(rem.0[k - ip0] == spec_loop_start_code(d)[k - ip0]);
                                } else {
                                    assert(cur[k] == post_rec[k]);
                                    assert(post_rec[k] == inner.0[k - (ip0 + 9)]);
                                    assert(rem.0[k - ip0] == inner.0[k - (ip0 + 9)]);
                                }
                                assert(cur[k] == rem.0[k - ip0]);
                                assert(rem.0[k - ip0] == full.0.skip(fl)[k - ip0]);
                                assert(full.0.skip(fl)[k - ip0] == full.0[fl + (k - ip0)]);
                            }
                        }
                        assert(s.skip(1).skip(inner.1) =~= s.skip(1 + inner.1));
                        assert(spec_wf_from(s.skip(1 + inner.1), m0));
                        assert(s.skip(1 + inner.1) =~= code@.skip(
                            chars_processed + 1 + new_cp as int));
                        lemma_concat_skip(spec_loop_start_code(d) + inner.0, rest.0);
                        assert((spec_loop_start_code(d) + inner.0).len() == 9 + d);
                        assert((spec_loop_start_code(d) + inner.0) + rest.0 == rem.0);
                        assert(rest.0 == rem.0.skip(9 + d));
                        lemma_skip_add(full.0, fl, 9 + d);
                        assert(rest.0 == full.0.skip(fl + 9 + d));
                    }
                    ip = new_ip;
                    chars_processed = chars_processed + 1 + new_cp;
                },
                BrainfuckInstr::LoopEnd => {
                    proof {
                        assert(rem.0 == spec_loop_end_code(fl + 9) && rem.1 == 1);
                        assert(fl + rem.0.len() == full.0.len());
                        assert(spec_loop_end_code(fl + 9).len() == 9);
                    }
                    let t = instr_to_bin_code(instr);
                    self.code_mem.write_at(&mut ip, t.as_slice());
                    let addr_to_patch = ip - 4;
                    let offset = ip - begin_ip;
                    let neg_disp: i32 = -(offset as i32);
                    let ghost mid = self.code_mem@;
                    self.code_mem.patch_addr_i32(addr_to_patch, neg_disp);
                    proof {
                        let cur = self.code_mem@;
                        assert(offset == fl + 9);
                        assert(spec_i32_to_u32(neg_disp)
                            == ((0x1_0000_0000 - (fl + 9)) as u32));
                        assert forall|k: int| 0 <= k < cap && !(ip0 <= k < ip) implies cur[k]
                            == pre[k] by {
                            assert(mid[k] == pre[k]);
                            assert(cur[k] == mid[k]);
                        }
                        assert forall|k: int| begin_ip <= k < ip implies cur[k] == full.0[k
                            - begin_ip] by {
                            if k < ip0 {
                                assert(cur[k] == mid[k] && mid[k] == pre[k]);
                            } else {
                                if k < ip0 + 5 {
                                    assert(cur[k] == mid[k]);
                                    assert(mid[k] == spec_instr_template(s[0])[k - ip0]);
                                    assert(rem.0[k - ip0] == spec_loop_end_code(fl + 9)[k - ip0]);
                                } else {
                                    assert(cur[k] == vstd::bytes::spec_u32_to_le_bytes(
                                        (0x1_0000_0000 - (fl + 9)) as u32)[k - (ip0 + 5)]);
                                    assert(rem.0[k - ip0] == spec_loop_end_code(fl + 9)[k - ip0]);
                                }
                                assert(cur[k] == rem.0[k - ip0]);
                                assert(rem.0[k - ip0] == full.0.skip(fl)[k - ip0]);
                                assert(full.0.skip(fl)[k - ip0] == full.0[fl + (k - ip0)]);
                            }
                        }
                    }
                    chars_processed = chars_processed + 1;
                    done = true;
                },
            }
        }
        proof {
            if !done {
                let rem = spec_emit_frame(code@.skip(chars_processed as int), put, get,
                    ip - begin_ip);
                assert(code@.skip(chars_processed as int) =~= Seq::<BrainfuckInstr>::empty());
                assert(rem.0.len() == 0 && rem.1 == 0);
                assert(full.0.skip(ip - begin_ip).len() == 0);
            }
            assert(self.code_mem@ =~= orig.subrange(0, begin_ip as int) + full.0
                + orig.subrange(begin_ip + full.0.len(), cap));
        }
        (ip, chars_processed)
    }

    /// Phase 2: emit the prologue, let the recursive emitter lay down
    /// the whole body, and close with the epilogue.  Entered only after
    /// phase 1 has proved balance and capacity.
    #[verifier::rlimit(60)]
    fn compile_helper(&mut self, code: &[BrainfuckInstr])
        requires
            spec_balanced(code@),
            spec_required(code@) <= old(self)@.code.len(),
            spec_required(code@) <= 0x7fff_ffff,
        ensures
            ({
                let prog = spec_program(code@, old(self)@.tape_base, old(self)@.putchar_addr,
                    old(self)@.getchar_addr);
                &&& prog.len() == spec_required(code@)
                &&& final(self)@.code == prog + old(self)@.code.skip(prog.len() as int)
            }),
            final(self)@.code.len() == old(self)@.code.len(),
            final(self)@.tape == old(self)@.tape,
            final(self)@.tape_base == old(self)@.tape_base,
            final(self)@.putchar_addr == old(self)@.putchar_addr,
            final(self)@.getchar_addr == old(self)@.getchar_addr,
    {
        let ghost put = self.putchar_addr;
        let ghost get = self.getchar_addr;
        let ghost tb = self.tape_base;
        let ghost tape0 = self.data_mem@;
        let ghost orig = self.code_mem@;
        let ghost cap = self.code_mem@.len() as int;
        let ghost body = spec_emit_frame(code@, put, get, 0);
        proof {
            lemma_emit_frame_wf(code@, put, get, 0, 0);
            assert(code@.subrange(0, code@.len() as int) =~= code@);
            assert(body.0.len() == spec_code_len(code@));
            lemma_code_len_nonneg(code@);
            vstd::bytes::lemma_auto_spec_u64_to_from_le_bytes();
        }
        let mut ip: usize = 0;
        let push = custom_instr_to_bin_code(CustomInstr::Push);
        let mut j: usize = 0;
        while j < STACK_ALIGNMENT_BLOCKS
            invariant
                j <= STACK_ALIGNMENT_BLOCKS,
                ip == j,
                self.putchar_addr == put,
                self.getchar_addr == get,
                self.data_mem@ == tape0,
                self.tape_base == tb,
                self.code_mem@.len() == cap,
                orig.len() == cap,
                cap >= spec_required(code@) >= 43,
                push@ == spec_custom_template(CustomInstr::Push),
                forall|k: int| 0 <= k < j ==> self.code_mem@[k] == 0x56u8,
                forall|k: int| j <= k < cap ==> self.code_mem@[k] == orig[k],
            decreases STACK_ALIGNMENT_BLOCKS - j,
        {
            self.code_mem.write_at(&mut ip, push.as_slice());
            j = j + 1;
        }
        let mov_rsi = custom_instr_to_bin_code(CustomInstr::MovRsi);
        self.code_mem.write_at(&mut ip, mov_rsi.as_slice());
        let addr_size: usize = 8;
        self.code_mem.patch_addr_u64(ip - addr_size, self.tape_base);
        let ghost after_pro = self.code_mem@;
        proof {
            assert(spec_prologue(tb).len() == 26);
            assert forall|k: int| 0 <= k < 26 implies after_pro[k] == spec_prologue(tb)[k] by {
                if k < 16 {
                    assert(after_pro[k] == 0x56u8);
                } else if k < 18 {
                    assert(after_pro[k] == spec_custom_template(CustomInstr::MovRsi)[k - 16]);
                } else {
                    assert(after_pro[k] == spec_u64_to_le_bytes(tb)[k - 18]);
                }
            }
            assert forall|k: int| 26 <= k < cap implies after_pro[k] == orig[k] by {}
            assert(spec_frame_valid(code@));
            assert(26 + body.0.len() <= cap);
        }
        let rr = self.compile_loop_body(code, ip);
        let mut ip = rr.0;
        let chars_processed = rr.1;
        proof {
            assert(chars_processed == code@.len());
            assert(ip == 26 + body.0.len());
        }
        let ghost after_body = self.code_mem@;
        let ghost ip1 = ip as int;
        let pop = custom_instr_to_bin_code(CustomInstr::Pop);
        let mut j: usize = 0;
        while j < STACK_ALIGNMENT_BLOCKS
            invariant
                j <= STACK_ALIGNMENT_BLOCKS,
                ip == ip1 + j,
                0 <= ip1,
                ip1 + 17 <= cap,
                self.putchar_addr == put,
                self.getchar_addr == get,
                self.data_mem@ == tape0,
                self.tape_base == tb,
                self.code_mem@.len() == cap,
                after_body.len() == cap,
                pop@ == spec_custom_template(CustomInstr::Pop),
                forall|k: int| ip1 <= k < ip1 + j ==> self.code_mem@[k] == 0x5eu8,
                forall|k: int| 0 <= k < cap && !(ip1 <= k < ip1 + j)
                    ==> self.code_mem@[k] == after_body[k],
            decreases STACK_ALIGNMENT_BLOCKS - j,
        {
            let ghost prev = self.code_mem@;
            let ghost at = ip as int;
            self.code_mem.write_at(&mut ip, pop.as_slice());
            j = j + 1;
            proof {
                let cur = self.code_mem@;
                assert forall|k: int| ip1 <= k < ip1 + j implies cur[k] == 0x5eu8 by {
                    if k < at {
                        assert(cur[k] == prev[k]);
                    } else {
                        assert(cur[k] == pop@[k - at]);
                    }
                }
            }
        }
        let ret = custom_instr_to_bin_code(CustomInstr::Ret);
        self.code_mem.write_at(&mut ip, ret.as_slice());
        proof {
            let prog = spec_program(code@, tb, put, get);
            assert(spec_epilogue().len() == 17);
            assert(prog.len() == 26 + body.0.len() + 17);
            assert(prog.len() == spec_required(code@));
            let cur = self.code_mem@;
            assert forall|k: int| 0 <= k < cap implies cur[k] == (prog + orig.skip(
                prog.len() as int))[k] by {
                if k < ip1 + 17 {
                    assert((prog + orig.skip(prog.len() as int))[k] == prog[k]);
                    if k < 26 {
                        assert(cur[k] == after_body[k]);
                        assert(after_body[k] == after_pro[k]);
                        assert(prog[k] == spec_prologue(tb)[k]);
                    } else if k < ip1 {
                        assert(cur[k] == after_body[k]);
                        assert(after_body[k] == body.0[k - 26]);
                        assert(prog[k] == body.0[k - 26]);
                    } else if k < ip1 + 16 {
                        assert(cur[k] == 0x5eu8);
                        assert(prog[k] == spec_epilogue()[k - ip1]);
                        assert(spec_epilogue()[k - ip1] == 0x5eu8);
                    } else {
                        assert(cur[k] == spec_custom_template(CustomInstr::Ret)[k - (ip1 + 16)]);
                        assert(prog[k] == spec_epilogue()[k - ip1]);
                        assert(spec_epilogue()[k - ip1] == 0xc3u8);
                    }
                } else {
                    assert(cur[k] == after_body[k]);
                    assert(after_body[k] == orig[k]);
                    assert((prog + orig.skip(prog.len() as int))[k] == orig.skip(
                        prog.len() as int)[k - prog.len()]);
                }
            }
            assert(cur =~= prog + orig.skip(prog.len() as int));
        }
    }

    /// Compile an instruction sequence into the machine.  True exactly
    /// when the brackets balance and the generated program fits the
    /// buffer; on failure nothing about the machine changes, so a prior
    /// image — trivial or compiled — stays runnable.
    pub fn compile(&mut self, code: &[BrainfuckInstr]) -> (ok: bool)
        requires
            spec_required(code@) <= 0x7fff_ffff,
        ensures
            ({
                let r = spec_compile_result(old(self)@.code, code@, old(self)@.tape_base,
                    old(self)@.putchar_addr, old(self)@.getchar_addr);
                &&& ok == r.0
                &&& ok == (spec_balanced(code@) && spec_required(code@) <= old(self)@.code.len())
                &&& final(self)@.code == r.1
                &&& final(self)@.code.len() == old(self)@.code.len()
                &&& final(self)@.tape == old(self)@.tape
                &&& final(self)@.tape_base == old(self)@.tape_base
                &&& final(self)@.putchar_addr == old(self)@.putchar_addr
                &&& final(self)@.getchar_addr == old(self)@.getchar_addr
            }),
    {
        if !self.check_before_compilation(code) {
            return false;
        }
        self.compile_helper(code);
        true
    }
}

/// What one `compile` call decides and leaves in the code buffer:
/// success exactly when the brackets balance and the program fits, the
/// generated image in front of the untouched remainder on success, and
/// the buffer untouched on failure.
pub open spec fn spec_compile_result(
    mem: Seq<u8>,
    code: Seq<BrainfuckInstr>,
    tape_base: u64,
    putchar_addr: u64,
    getchar_addr: u64,
) -> (bool, Seq<u8>) {
    if spec_balanced(code) && spec_required(code) <= mem.len() {
        (true, spec_program(code, tape_base, putchar_addr, getchar_addr)
            + mem.skip(spec_required(code)))
    } else {
        (false, mem)
    }
}

/// Compilation is deterministic: two machines whose buffers hold the
/// same bytes, given the same host bindings and the same instruction
/// sequence, reach the same verdict and the same code image.
pub proof fn lemma_compile_deterministic(
    mem1: Seq<u8>,
    mem2: Seq<u8>,
    code: Seq<BrainfuckInstr>,
    tape_base: u64,
    putchar_addr: u64,
    getchar_addr: u64,
)
    requires
        mem1 == mem2,
    ensures
        spec_compile_result(mem1, code, tape_base, putchar_addr, getchar_addr)
            == spec_compile_result(mem2, code, tape_base, putchar_addr, getchar_addr),
{
}

/// The fixed native template of a code-generator-internal operation.
pub fn custom_instr_to_bin_code(ch: CustomInstr) -> (r: Vec<u8>)
    ensures
        r@ == spec_custom_template(ch),
{
    let r: Vec<u8> = match ch {
        CustomInstr::Debug => vec![0xCCu8],
        CustomInstr::Push => vec![0x56u8],
        CustomInstr::MovRsi => vec![0x48u8, 0xbe, 0, 0, 0, 0, 0, 0, 0, 0],
        CustomInstr::Pop => vec![0x5eu8],
        CustomInstr::Ret => vec![0xc3u8],
    };
    proof {
        assert(r@ =~= spec_custom_template(ch));
    }
    r
}

/// The fixed native template of a program instruction, operand slots
/// zeroed until they are patched.
pub fn instr_to_bin_code(ch: BrainfuckInstr) -> (r: Vec<u8>)
    ensures
        r@ == spec_instr_template(ch),
{
    let r: Vec<u8> = match ch {
        BrainfuckInstr::IncPtr => vec![0x48u8, 0xff, 0xc6],
        BrainfuckInstr::DecPtr => vec![0x48u8, 0xff, 0xce],
        BrainfuckInstr::IncData => vec![0xfeu8, 0x06],
        BrainfuckInstr::DecData => vec![0xfeu8, 0x0e],
        BrainfuckInstr::LoopStart => vec![0x80u8, 0x3e, 0x00, 0x0f, 0x84, 0, 0, 0, 0],
        BrainfuckInstr::LoopEnd => vec![0x80u8, 0x3e, 0x00, 0x0f, 0x85, 0, 0, 0, 0],
        BrainfuckInstr::Output => vec![0x48u8, 0x0f, 0xb6, 0x3e, 0x48, 0xb8, 0, 0, 0, 0, 0, 0, 0, 0, 0x56, 0xff, 0xd0, 0x5e],
        BrainfuckInstr::Input => vec![0x48u8, 0xb8, 0, 0, 0, 0, 0, 0, 0, 0, 0x56, 0xff, 0xd0, 0x5e, 0x88, 0x06],
    };
    proof {
        assert(r@ =~= spec_instr_template(ch));
    }
    r
}

} // verus!
