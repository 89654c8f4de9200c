use bfvm::error::BfError;
use bfvm::lexer;
use bfvm::opcodes::{OpCode, OpCodeType};
use bfvm::parser;
use bfvm::vm::{Step, Vm, DEFAULT_VM_MEM_SIZE};

fn run_to_end(vm: &mut Vm, input: &[u8]) -> Result<Vec<u8>, BfError> {
    let mut out = Vec::new();
    let mut next = 0;
    loop {
        match vm.step()? {
            Step::Continue => {}
            Step::Output(bytes) => out.extend(bytes),
            Step::Input => {
                vm.input_char(input[next]);
                next += 1;
            }
            Step::Halt => return Ok(out),
        }
    }
}

#[test]
fn cells_wrap_around() {
    let mut vm = Vm::from_program(vec![]).unwrap();
    vm.add_to_cell(250);
    vm.add_to_cell(10);
    assert_eq!(vm.get_cell(), 4);
    vm.sub_to_cell(2);
    vm.sub_to_cell(5);
    assert_eq!(vm.get_cell(), 253);
    vm.add_to_cell(256 + 3);
    assert_eq!(vm.get_cell(), 0);
}

#[test]
fn shift_left_saturates() {
    let mut vm = Vm::from_program(vec![]).unwrap();
    vm.shift_left(5);
    assert_eq!(vm.get_cursor(), 0);
    vm.shift_right(7).unwrap();
    vm.shift_left(3);
    assert_eq!(vm.get_cursor(), 4);
}

#[test]
fn shift_right_past_tape_fails() {
    let mut vm = Vm::from_program_with_tape_size(vec![], 1).unwrap();
    assert_eq!(
        vm.shift_right(2),
        Err(BfError::TapeOverflow { tape_len: 1, overflow: 1 })
    );
    assert_eq!(vm.get_cursor(), 0);
    let mut vm = Vm::from_program_with_tape_size(vec![], 3).unwrap();
    assert_eq!(
        vm.shift_right(3),
        Err(BfError::TapeOverflow { tape_len: 3, overflow: 0 })
    );
    assert_eq!(vm.shift_right(2), Ok(()));
    assert_eq!(vm.get_cursor(), 2);
    vm.shift_right_alt(0);
    assert_eq!(vm.get_cursor(), 2);
}

#[test]
fn run_fails_on_overflow() {
    let program = vec![OpCode::new(OpCodeType::ShiftRight, 2)];
    let mut vm = Vm::from_program_with_tape_size(program, 1).unwrap();
    assert_eq!(
        run_to_end(&mut vm, &[]),
        Err(BfError::TapeOverflow { tape_len: 1, overflow: 1 })
    );
}

#[test]
fn folded_input_reads_one_byte() {
    let program = parser::parse(lexer::parse(",,,.")).unwrap();
    assert_eq!(program[0], OpCode::new(OpCodeType::InputChar, 3));
    let mut vm = Vm::from_program(program).unwrap();
    assert_eq!(vm.step(), Ok(Step::Input));
    vm.input_char(b'x');
    assert_eq!(vm.step(), Ok(Step::Output(vec![b'x'])));
    assert_eq!(vm.step(), Ok(Step::Halt));
}

#[test]
fn hello_world() {
    let src = "++++++++[>++++[>++>+++>+++>+<<<<-]>+>+>->>+[<]<-]>>.>---.+++++++..+++.>>.<-.<.+++.------.--------.>>+.>++.";
    let mut vm = Vm::new(src).unwrap();
    assert_eq!(vm.tape_len(), DEFAULT_VM_MEM_SIZE);
    let out = run_to_end(&mut vm, &[]).unwrap();
    assert_eq!(out, b"Hello World!\n".to_vec());
}

#[test]
fn operand_of_255_is_rejected() {
    let ok = "+".repeat(254);
    assert!(Vm::new(&ok).is_ok());
    let too_many = "-".repeat(255);
    assert_eq!(
        Vm::new(&too_many).err(),
        Some(BfError::OperandOutOfRange { data: 255 })
    );
    let program = vec![
        OpCode::new(OpCodeType::ShiftLeft, 900),
        OpCode::new(OpCodeType::Add, 300),
    ];
    assert_eq!(
        Vm::from_program(program).err(),
        Some(BfError::OperandOutOfRange { data: 300 })
    );
}

#[test]
fn new_reports_bracket_errors() {
    assert!(matches!(Vm::new("]"), Err(BfError::UnexpectedClose { .. })));
    assert!(matches!(Vm::new("[+"), Err(BfError::Unclosed { count: 1, .. })));
}

#[test]
fn jumps_follow_the_cell() {
    let program = parser::parse(lexer::parse("[-]+[-]")).unwrap();
    let mut vm = Vm::from_program(program).unwrap();
    assert_eq!(vm.step(), Ok(Step::Continue));
    assert_eq!(vm.get_pc(), 3);
    assert_eq!(vm.step(), Ok(Step::Continue));
    assert_eq!(vm.get_cell(), 1);
    assert_eq!(vm.step(), Ok(Step::Continue));
    assert_eq!(vm.get_pc(), 5);
    vm.jump_not_zero(0);
    assert_eq!(vm.get_pc(), 0);
    vm.jump_zero(4);
    assert_eq!(vm.get_pc(), 0);
    assert_eq!(vm.program().len(), 7);
    assert_eq!(vm.print_chars(2), vec![1, 1]);
    assert!(vm.verify_program().is_ok());
}

#[test]
fn first_bad_operand_is_reported() {
    let program = vec![
        OpCode::new(OpCodeType::Sub, 400),
        OpCode::new(OpCodeType::Add, 300),
    ];
    assert_eq!(
        Vm::from_program(program).err(),
        Some(BfError::OperandOutOfRange { data: 400 })
    );
}
