use bf_jit::vm::{custom_instr_to_bin_code, instr_to_bin_code, page_size};
use bf_jit::{BfJitVM, BrainfuckInstr, CustomInstr, JitMemory, JitVmError};

fn parse(src: &str) -> Vec<BrainfuckInstr> {
    BrainfuckInstr::from_str(src).unwrap()
}

fn prologue(tape: u64) -> Vec<u8> {
    let mut v = vec![0x56u8; 16];
    v.extend_from_slice(&[0x48, 0xbe]);
    v.extend_from_slice(&tape.to_le_bytes());
    v
}

fn epilogue() -> Vec<u8> {
    let mut v = vec![0x5eu8; 16];
    v.push(0xc3);
    v
}

fn output_chunk(putchar: u64) -> Vec<u8> {
    let mut v = vec![0x48, 0x0f, 0xb6, 0x3e, 0x48, 0xb8];
    v.extend_from_slice(&putchar.to_le_bytes());
    v.extend_from_slice(&[0x56, 0xff, 0xd0, 0x5e]);
    v
}

fn input_chunk(getchar: u64) -> Vec<u8> {
    let mut v = vec![0x48, 0xb8];
    v.extend_from_slice(&getchar.to_le_bytes());
    v.extend_from_slice(&[0x56, 0xff, 0xd0, 0x5e, 0x88, 0x06]);
    v
}

fn loop_start_chunk(disp: i32) -> Vec<u8> {
    let mut v = vec![0x80, 0x3e, 0x00, 0x0f, 0x84];
    v.extend_from_slice(&disp.to_le_bytes());
    v
}

fn loop_end_chunk(disp: i32) -> Vec<u8> {
    let mut v = vec![0x80, 0x3e, 0x00, 0x0f, 0x85];
    v.extend_from_slice(&disp.to_le_bytes());
    v
}

#[test]
fn page_size_is_one_standard_page() {
    assert_eq!(page_size(), 4096);
}

#[test]
fn instruction_templates_are_fixed() {
    assert_eq!(
        instr_to_bin_code(BrainfuckInstr::IncPtr),
        vec![0x48, 0xff, 0xc6]
    );
    assert_eq!(
        instr_to_bin_code(BrainfuckInstr::DecPtr),
        vec![0x48, 0xff, 0xce]
    );
    assert_eq!(instr_to_bin_code(BrainfuckInstr::IncData), vec![0xfe, 0x06]);
    assert_eq!(instr_to_bin_code(BrainfuckInstr::DecData), vec![0xfe, 0x0e]);
    assert_eq!(
        instr_to_bin_code(BrainfuckInstr::LoopStart),
        vec![0x80, 0x3e, 0x00, 0x0f, 0x84, 0, 0, 0, 0]
    );
    assert_eq!(
        instr_to_bin_code(BrainfuckInstr::LoopEnd),
        vec![0x80, 0x3e, 0x00, 0x0f, 0x85, 0, 0, 0, 0]
    );
    assert_eq!(instr_to_bin_code(BrainfuckInstr::Output), output_chunk(0));
    assert_eq!(instr_to_bin_code(BrainfuckInstr::Input), input_chunk(0));
}

#[test]
fn internal_templates_are_fixed() {
    assert_eq!(custom_instr_to_bin_code(CustomInstr::Push), vec![0x56]);
    assert_eq!(custom_instr_to_bin_code(CustomInstr::Pop), vec![0x5e]);
    assert_eq!(custom_instr_to_bin_code(CustomInstr::Ret), vec![0xc3]);
    assert_eq!(custom_instr_to_bin_code(CustomInstr::Debug), vec![0xcc]);
    assert_eq!(
        custom_instr_to_bin_code(CustomInstr::MovRsi),
        vec![0x48, 0xbe, 0, 0, 0, 0, 0, 0, 0, 0]
    );
}

#[test]
fn buffer_refuses_zero_capacity() {
    assert!(matches!(JitMemory::allocate(0), Err(JitVmError::LayoutError)));
}

#[test]
fn buffer_write_advances_cursor() {
    let mut mem = JitMemory::allocate(8).unwrap();
    assert_eq!(mem.len(), 8);
    let mut cursor = 0usize;
    mem.write_at(&mut cursor, &[1, 2, 3]);
    assert_eq!(cursor, 3);
    mem.write_at(&mut cursor, &[4]);
    assert_eq!(cursor, 4);
    assert_eq!(mem.bytes().as_slice(), &[1, 2, 3, 4, 0, 0, 0, 0]);
}

#[test]
fn buffer_patches_eight_bytes_little_endian() {
    let mut mem = JitMemory::allocate(10).unwrap();
    mem.patch_addr_u64(1, 0x1122334455667788);
    assert_eq!(
        mem.bytes().as_slice(),
        &[0, 0x88, 0x77, 0x66, 0x55, 0x44, 0x33, 0x22, 0x11, 0]
    );
}

#[test]
fn buffer_patches_negative_displacement() {
    let mut mem = JitMemory::allocate(4).unwrap();
    mem.patch_addr_i32(0, -12);
    assert_eq!(mem.bytes().as_slice(), &(-12i32).to_le_bytes());
}

#[test]
fn fresh_machine_holds_trivial_return() {
    let vm = BfJitVM::new(32, 8).unwrap();
    let mut expected = vec![0u8; 32];
    expected[0] = 0xc3;
    assert_eq!(vm.code().bytes().as_slice(), expected.as_slice());
    assert_eq!(vm.code().len(), 32);
    assert_eq!(vm.tape().as_slice(), &[0u8; 8]);
}

#[test]
fn machine_refuses_zero_code_capacity() {
    assert!(matches!(BfJitVM::new(0, 8), Err(JitVmError::LayoutError)));
}

#[test]
fn empty_program_compiles_to_bare_frame() {
    let mut vm = BfJitVM::new(64, 8).unwrap();
    vm.set_host(0xdead_beef, 1, 2);
    assert!(vm.compile(&[]));
    let mut expected = prologue(0xdead_beef);
    expected.extend_from_slice(&epilogue());
    expected.resize(64, 0);
    assert_eq!(vm.code().bytes().as_slice(), expected.as_slice());
}

#[test]
fn output_call_embeds_host_address() {
    let mut vm = BfJitVM::new(128, 8).unwrap();
    let putchar = 0x0102_0304_0506_0708u64;
    vm.set_host(0x10, putchar, 0x20);
    assert!(vm.compile(&parse("+.")));
    let mut expected = prologue(0x10);
    expected.extend_from_slice(&[0xfe, 0x06]);
    expected.extend_from_slice(&output_chunk(putchar));
    expected.extend_from_slice(&epilogue());
    assert_eq!(&vm.code().bytes()[..expected.len()], expected.as_slice());
}

#[test]
fn input_call_embeds_host_address() {
    let mut vm = BfJitVM::new(128, 8).unwrap();
    let getchar = 0xa1a2_a3a4_a5a6_a7a8u64;
    vm.set_host(0x10, 0x20, getchar);
    assert!(vm.compile(&parse(",")));
    let mut expected = prologue(0x10);
    expected.extend_from_slice(&input_chunk(getchar));
    expected.extend_from_slice(&epilogue());
    assert_eq!(&vm.code().bytes()[..expected.len()], expected.as_slice());
}

#[test]
fn nested_loops_resolve_both_displacements() {
    let mut vm = BfJitVM::new(256, 16).unwrap();
    let tape = 0x7000_0000_0000u64;
    vm.set_host(tape, 0x11, 0x22);
    assert!(vm.compile(&parse("++[>+++[<]>-]")));
    let mut expected = prologue(tape);
    expected.extend_from_slice(&[0xfe, 0x06]); // +
    expected.extend_from_slice(&[0xfe, 0x06]); // +
    expected.extend_from_slice(&loop_start_chunk(44)); // outer [
    expected.extend_from_slice(&[0x48, 0xff, 0xc6]); // >
    expected.extend_from_slice(&[0xfe, 0x06]); // +
    expected.extend_from_slice(&[0xfe, 0x06]); // +
    expected.extend_from_slice(&[0xfe, 0x06]); // +
    expected.extend_from_slice(&loop_start_chunk(12)); // inner [
    expected.extend_from_slice(&[0x48, 0xff, 0xce]); // <
    expected.extend_from_slice(&loop_end_chunk(-12)); // inner ]
    expected.extend_from_slice(&[0x48, 0xff, 0xc6]); // >
    expected.extend_from_slice(&[0xfe, 0x0e]); // -
    expected.extend_from_slice(&loop_end_chunk(-44)); // outer ]
    expected.extend_from_slice(&epilogue());
    assert_eq!(expected.len(), 100);
    assert_eq!(&vm.code().bytes()[..100], expected.as_slice());
}

#[test]
fn stray_close_fails_and_preserves_prior_image() {
    let mut vm = BfJitVM::new(256, 16).unwrap();
    vm.set_host(1, 2, 3);
    assert!(vm.compile(&parse("+-")));
    let before = vm.code().bytes().clone();
    assert!(!vm.compile(&parse("+]+")));
    assert_eq!(vm.code().bytes().as_slice(), before.as_slice());
    assert!(vm.compile(&parse("[-]")));
}

#[test]
fn unclosed_open_fails() {
    let mut vm = BfJitVM::new(256, 16).unwrap();
    assert!(!vm.compile(&parse("[[+]")));
}

#[test]
fn capacity_is_checked_before_any_write() {
    // "+" needs 2 body bytes plus the fixed 43-byte frame: 45 in all.
    let mut small = BfJitVM::new(44, 16).unwrap();
    let before = small.code().bytes().clone();
    assert!(!small.compile(&parse("+")));
    assert_eq!(small.code().bytes().as_slice(), before.as_slice());
    let mut exact = BfJitVM::new(45, 16).unwrap();
    assert!(exact.compile(&parse("+")));
}

#[test]
fn recompiling_after_capacity_failure_succeeds_with_larger_buffer() {
    let code = parse("++[>+<-]");
    let mut small = BfJitVM::new(50, 16).unwrap();
    assert!(!small.compile(&code));
    let mut large = BfJitVM::new(256, 16).unwrap();
    assert!(large.compile(&code));
}

#[test]
fn compilation_is_deterministic_across_machines() {
    let code = parse("+[>,.<-]");
    let mut a = BfJitVM::new(512, 64).unwrap();
    let mut b = BfJitVM::new(512, 64).unwrap();
    a.set_host(0x1000, 0x2000, 0x3000);
    b.set_host(0x1000, 0x2000, 0x3000);
    assert!(a.compile(&code));
    assert!(b.compile(&code));
    assert_eq!(a.code().bytes().as_slice(), b.code().bytes().as_slice());
}

#[test]
fn clear_tape_zero_fills_before_a_run() {
    let mut vm = BfJitVM::new(64, 32).unwrap();
    assert!(vm.compile(&parse("+.")));
    vm.clear_tape();
    assert!(vm.tape().iter().all(|&b| b == 0));
    assert_eq!(vm.tape().len(), 32);
    vm.clear_tape();
    assert!(vm.tape().iter().all(|&b| b == 0));
}

#[test]
fn long_increment_run_compiles() {
    let source: String = std::iter::repeat('+').take(256).chain(".".chars()).collect();
    let mut vm = BfJitVM::new(0x10000, 0x10000).unwrap();
    vm.set_host(4, 5, 6);
    assert!(vm.compile(&parse(&source)));
}

#[test]
fn run_prepares_a_machine_like_the_explicit_sequence() {
    let code = parse("++[>+<-].");
    let vm = bf_jit::run(&code, 0x2000, 0x3000).unwrap();
    let mut explicit = BfJitVM::new(0x10000, 0x10000).unwrap();
    explicit.set_host(0, 0x2000, 0x3000);
    assert!(explicit.compile(&code));
    assert_eq!(
        vm.code().bytes().as_slice(),
        explicit.code().bytes().as_slice()
    );
    assert_eq!(vm.tape().len(), 0x10000);
}

#[test]
fn run_keeps_trivial_image_when_compilation_fails() {
    let vm = bf_jit::run(&parse("]"), 7, 8).unwrap();
    let mut expected = vec![0u8; 0x10000];
    expected[0] = 0xc3;
    assert_eq!(vm.code().bytes().as_slice(), expected.as_slice());
}
