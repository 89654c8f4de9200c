use vstd::prelude::*;
use crate::error::BfError;
use crate::lexer::{self, lex, Token};
use crate::opcodes::{OpCode, OpCodeType};
use crate::parser::{self, compiles_to, depth, folded, never_unmatched_close, parse_result, syms};
use vstd::string::StringSliceAdditionalSpecFns;
use vstd::arithmetic::div_mod::{
    lemma_add_mod_noop_right, lemma_mod_add_multiples_vanish, lemma_sub_mod_noop_right,
};

verus! {

/// The tape length used when none is given.
pub const DEFAULT_VM_MEM_SIZE: usize = 30000;

/// The largest count accepted for `Add` and `Sub`, plus one.
///
/// A known quirk, kept on purpose: a program with a run of 255 or more `+` or `-` is
/// rejected before it runs, although the cells' wraparound arithmetic would handle
/// such a count.
pub const MAX_CELL_OPERAND: usize = 255;

/// The cell value after adding `n`, modulo 256.
pub open spec fn cell_add(c: u8, n: usize) -> u8 {
    ((c + n) % 256) as u8
}

/// The cell value after subtracting `n`, modulo 256.
pub open spec fn cell_sub(c: u8, n: usize) -> u8 {
    ((c - n) % 256) as u8
}

/// The program counter after moving past `pc`; it stays put at the largest index.
pub open spec fn next_pc(pc: usize) -> usize {
    if pc < usize::MAX {
        (pc + 1) as usize
    } else {
        pc
    }
}

/// An instruction that would be rejected before a run.
pub open spec fn operand_out_of_range(op: OpCode) -> bool {
    (op.ty == OpCodeType::Add || op.ty == OpCodeType::Sub) && op.data >= MAX_CELL_OPERAND
}

/// The instruction at `i` is the first of `p` that would be rejected before a run.
pub open spec fn first_out_of_range(p: Seq<OpCode>, i: int) -> bool {
    &&& 0 <= i < p.len()
    &&& operand_out_of_range(p[i])
    &&& forall|j: int| 0 <= j < i ==> !operand_out_of_range(#[trigger] p[j])
}

/// Every `Add` and `Sub` of `p` has a count below 255.
pub open spec fn operands_in_range(p: Seq<OpCode>) -> bool {
    forall|i: int| 0 <= i < p.len() ==> !operand_out_of_range(#[trigger] p[i])
}

/// Every run of `+` or `-` in `s` is shorter than 255.
pub open spec fn runs_in_range(s: Seq<Token>) -> bool {
    let f = folded(s);
    forall|k: int|
        0 <= k < f.len() && ((#[trigger] f[k]).0 == Token::Plus || f[k].0 == Token::Minus)
            ==> f[k].1 < MAX_CELL_OPERAND
}

/// The run at `k` is the first run of `+` or `-` among `f` that is 255 or longer.
pub open spec fn first_long_run(f: Seq<(Token, nat)>, k: int) -> bool {
    &&& 0 <= k < f.len()
    &&& (f[k].0 == Token::Plus || f[k].0 == Token::Minus)
    &&& f[k].1 >= MAX_CELL_OPERAND
    &&& forall|j: int|
        0 <= j < k ==> !(((#[trigger] f[j]).0 == Token::Plus || f[j].0 == Token::Minus)
            && f[j].1 >= MAX_CELL_OPERAND)
}

/// The program of `s` passes the check before a run exactly when its runs of `+` and
/// `-` are shorter than 255.
pub proof fn lemma_check_on_runs(s: Seq<Token>, p: Seq<OpCode>)
    requires
        compiles_to(s, p),
    ensures
        operands_in_range(p) <==> runs_in_range(s),
{
    let f = folded(s);
    if operands_in_range(p) {
        assert forall|k: int|
            0 <= k < f.len() && ((#[trigger] f[k]).0 == Token::Plus || f[k].0 == Token::Minus)
                implies f[k].1 < MAX_CELL_OPERAND by {
            let _ = p[k];
        }
    }
    if runs_in_range(s) {
        assert forall|i: int| 0 <= i < p.len() implies !operand_out_of_range(#[trigger] p[i]) by {
            let _ = f[i];
        }
    }
}

/// What a step of the machine asks of the world around it.
#[derive(Debug, PartialEq, Eq)]
pub enum Step {
    /// Nothing: the instruction only changed the machine.
    Continue,
    /// These bytes go to the output.
    Output(Vec<u8>),
    /// One byte is to be read into the current cell.
    Input,
    /// The program counter has left the program: the run is over.
    Halt,
}

/// A machine: a program, its counter, a tape of byte cells and a cursor on it.
#[derive(Debug)]
pub struct Vm {
    program: Vec<OpCode>,
    pc: usize,
    mem: Vec<u8>,
    mem_ptr: usize,
}

impl Vm {
    pub closed spec fn code(&self) -> Seq<OpCode> {
        self.program@
    }

    pub closed spec fn counter(&self) -> usize {
        self.pc
    }

    pub closed spec fn tape(&self) -> Seq<u8> {
        self.mem@
    }

    pub closed spec fn cursor(&self) -> usize {
        self.mem_ptr
    }

    /// The cursor stands on the tape.
    pub open spec fn wf(&self) -> bool {
        self.cursor() < self.tape().len()
    }

    /// The cell under the cursor.
    pub open spec fn cell(&self) -> u8 {
        self.tape()[self.cursor() as int]
    }

    /// Compiles a source text and builds a machine for it with the default tape.
    pub fn new(src: &str) -> (r: Result<Self, BfError>)
        requires
            src.spec_bytes().len() < usize::MAX,
        ensures
            ({
                let t = lex(src.spec_bytes());
                let s = syms(t);
                let f = folded(s);
                &&& (r is Ok <==> never_unmatched_close(s) && depth(s, s.len() as int) == 0
                    && runs_in_range(s))
                &&& r matches Ok(vm) ==> vm.wf() && compiles_to(s, vm.code()) && vm.counter() == 0
                    && vm.cursor() == 0 && vm.tape() == Seq::new(
                    DEFAULT_VM_MEM_SIZE as nat,
                    |i: int| 0u8,
                )
                &&& r matches Err(e) ==> match e {
                    BfError::OperandOutOfRange { data } => {
                        &&& never_unmatched_close(s)
                        &&& depth(s, s.len() as int) == 0
                        &&& exists|k: int| first_long_run(f, k) && (#[trigger] f[k]).1 == data
                    },
                    _ => parse_result(t, Err(e)),
                }
            }),
    {
        let tokens = lexer::parse(src);
        let ghost s = syms(tokens@);
        match parser::parse(tokens) {
            Ok(program) => {
                let ghost p = program@;
                proof {
                    lemma_check_on_runs(s, p);
                }
                let r = Self::from_program(program);
                proof {
                    if let Err(e) = r {
                        let f = folded(s);
                        let i = choose|i: int|
                            first_out_of_range(p, i) && (#[trigger] p[i]).data == e->data;
                        let _ = f[i];
                        assert forall|j: int| 0 <= j < i implies !(((#[trigger] f[j]).0
                            == Token::Plus || f[j].0 == Token::Minus) && f[j].1
                            >= MAX_CELL_OPERAND) by {
                            let _ = p[j];
                        }
                        assert(first_long_run(f, i));
                    }
                }
                r
            },
            Err(e) => Err(e),
        }
    }

    /// Builds a machine for `program` with the default tape, after checking the program.
    pub fn from_program(program: Vec<OpCode>) -> (r: Result<Self, BfError>)
        ensures
            r is Ok <==> operands_in_range(program@),
            r matches Ok(vm) ==> vm.wf() && vm.code() == program@ && vm.counter() == 0
                && vm.cursor() == 0 && vm.tape() == Seq::new(DEFAULT_VM_MEM_SIZE as nat, |i: int| 0u8),
            r matches Err(e) ==> e matches BfError::OperandOutOfRange { data } && exists|i: int|
                first_out_of_range(program@, i) && (#[trigger] program@[i]).data == data,
    {
        Self::from_program_with_tape_size(program, DEFAULT_VM_MEM_SIZE)
    }

    /// Builds a machine for `program` with a tape of `tape_size` zero cells, after
    /// checking the program.
    pub fn from_program_with_tape_size(program: Vec<OpCode>, tape_size: usize) -> (r: Result<
        Self,
        BfError,
    >)
        requires
            tape_size > 0,
        ensures
            r is Ok <==> operands_in_range(program@),
            r matches Ok(vm) ==> vm.wf() && vm.code() == program@ && vm.counter() == 0
                && vm.cursor() == 0 && vm.tape() == Seq::new(tape_size as nat, |i: int| 0u8),
            r matches Err(e) ==> e matches BfError::OperandOutOfRange { data } && exists|i: int|
                first_out_of_range(program@, i) && (#[trigger] program@[i]).data == data,
    {
        let vm = Vm { program, pc: 0, mem: vec![0u8; tape_size], mem_ptr: 0 };
        assert(vm.mem@ =~= Seq::new(tape_size as nat, |i: int| 0u8));
        match vm.verify_program() {
            Ok(()) => Ok(vm),
            Err(e) => Err(e),
        }
    }

    pub fn program(&self) -> (r: &Vec<OpCode>)
        ensures
            r@ == self.code(),
    {
        &self.program
    }

    /// Checks that every `Add` and `Sub` has a count below 255; reports the first that has not.
    pub fn verify_program(&self) -> (r: Result<(), BfError>)
        ensures
            r is Ok <==> operands_in_range(self.code()),
            r matches Err(e) ==> e matches BfError::OperandOutOfRange { data } && exists|i: int|
                first_out_of_range(self.code(), i) && (#[trigger] self.code()[i]).data == data,
    {
        let mut i: usize = 0;
        while i < self.program.len()
            invariant
                i <= self.program@.len(),
                forall|j: int| 0 <= j < i ==> !operand_out_of_range(#[trigger] self.program@[j]),
            decreases self.program@.len() - i,
        {
            let (inst, data) = self.program[i].to_tuple();
            match inst {
                OpCodeType::Add | OpCodeType::Sub => {
                    if data >= MAX_CELL_OPERAND {
                        assert(operand_out_of_range(self.program@[i as int]));
                        assert(self.code()[i as int].data == data);
                        assert(first_out_of_range(self.code(), i as int));
                        return Err(BfError::OperandOutOfRange { data });
                    }
                },
                _ => {},
            }
            i = i + 1;
        }
        Ok(())
    }

    /// The cell under the cursor.
    pub fn get_cell(&self) -> (r: u8)
        requires
            self.wf(),
        ensures
            r == self.cell(),
    {
        self.mem[self.mem_ptr]
    }

    /// The cursor's position on the tape.
    pub fn get_cursor(&self) -> (r: usize)
        ensures
            r == self.cursor(),
    {
        self.mem_ptr
    }

    /// The program counter.
    pub fn get_pc(&self) -> (r: usize)
        ensures
            r == self.counter(),
    {
        self.pc
    }

    /// The length of the tape.
    pub fn tape_len(&self) -> (r: usize)
        ensures
            r == self.tape().len(),
    {
        self.mem.len()
    }

    /// Adds `amount` to the current cell, modulo 256.
    pub fn add_to_cell(&mut self, amount: usize)
        requires
            old(self).wf(),
        ensures
            final(self).wf(),
            final(self).tape() == old(self).tape().update(
                old(self).cursor() as int,
                cell_add(old(self).cell(), amount),
            ),
            final(self).cursor() == old(self).cursor(),
            final(self).counter() == old(self).counter(),
            final(self).code() == old(self).code(),
    {
        let c = self.mem[self.mem_ptr];
        let v = ((c as usize + amount % 256) % 256) as u8;
        proof {
            lemma_add_mod_noop_right(c as int, amount as int, 256);
        }
        self.mem.set(self.mem_ptr, v);
    }

    /// Subtracts `amount` from the current cell, modulo 256.
    pub fn sub_to_cell(&mut self, amount: usize)
        requires
            old(self).wf(),
        ensures
            final(self).wf(),
            final(self).tape() == old(self).tape().update(
                old(self).cursor() as int,
                cell_sub(old(self).cell(), amount),
            ),
            final(self).cursor() == old(self).cursor(),
            final(self).counter() == old(self).counter(),
            final(self).code() == old(self).code(),
    {
        let c = self.mem[self.mem_ptr];
        let v = ((c as usize + 256 - amount % 256) % 256) as u8;
        proof {
            lemma_sub_mod_noop_right(c + 256, amount as int, 256);
            lemma_mod_add_multiples_vanish(c - amount, 256);
            assert(c + 256 - amount == 256 + (c - amount));
        }
        self.mem.set(self.mem_ptr, v);
    }

    /// Moves the cursor left by `amount`, stopping at the first cell.
    pub fn shift_left(&mut self, amount: usize)
        requires
            old(self).wf(),
        ensures
            final(self).wf(),
            final(self).cursor() == (if old(self).cursor() >= amount {
                old(self).cursor() - amount
            } else {
                0
            }),
            final(self).tape() == old(self).tape(),
            final(self).counter() == old(self).counter(),
            final(self).code() == old(self).code(),
    {
        self.mem_ptr = if self.mem_ptr >= amount {
            self.mem_ptr - amount
        } else {
            0
        };
    }

    /// Moves the cursor right by `amount`; fails, and leaves the cursor, where that
    /// would reach or pass the end of the tape.
    pub fn shift_right(&mut self, amount: usize) -> (r: Result<(), BfError>)
        requires
            old(self).wf(),
        ensures
            final(self).wf(),
            r is Ok <==> old(self).cursor() + amount < old(self).tape().len(),
            r is Ok ==> final(self).cursor() == old(self).cursor() + amount,
            r is Err ==> final(self).cursor() == old(self).cursor(),
            r matches Err(e) ==> e == (BfError::TapeOverflow {
                tape_len: old(self).tape().len() as usize,
                overflow: (old(self).cursor() + amount - old(self).tape().len()) as usize,
            }),
            final(self).tape() == old(self).tape(),
            final(self).counter() == old(self).counter(),
            final(self).code() == old(self).code(),
    {
        let mem_count = self.mem.len();
        let room = mem_count - self.mem_ptr;
        if amount >= room {
            let overflowed_count = amount - room;
            Err(BfError::TapeOverflow { tape_len: mem_count, overflow: overflowed_count })
        } else {
            self.mem_ptr = self.mem_ptr + amount;
            Ok(())
        }
    }

    /// Moves the cursor right by `amount`, which must keep it on the tape.
    pub fn shift_right_alt(&mut self, amount: usize)
        requires
            old(self).cursor() + amount < old(self).tape().len(),
        ensures
            final(self).wf(),
            final(self).cursor() == old(self).cursor() + amount,
            final(self).tape() == old(self).tape(),
            final(self).counter() == old(self).counter(),
            final(self).code() == old(self).code(),
    {
        let tape_len = self.mem.len();
        assert(self.mem_ptr + amount < tape_len);
        self.mem_ptr = self.mem_ptr + amount;
    }

    /// Sets the program counter to `to` where the current cell is zero.
    pub fn jump_zero(&mut self, to: usize)
        requires
            old(self).wf(),
        ensures
            final(self).wf(),
            final(self).counter() == (if old(self).cell() == 0 {
                to
            } else {
                old(self).counter()
            }),
            final(self).tape() == old(self).tape(),
            final(self).cursor() == old(self).cursor(),
            final(self).code() == old(self).code(),
    {
        if self.get_cell() == 0 {
            self.pc = to;
        }
    }

    /// Sets the program counter to `to` where the current cell is not zero.
    pub fn jump_not_zero(&mut self, to: usize)
        requires
            old(self).wf(),
        ensures
            final(self).wf(),
            final(self).counter() == (if old(self).cell() != 0 {
                to
            } else {
                old(self).counter()
            }),
            final(self).tape() == old(self).tape(),
            final(self).cursor() == old(self).cursor(),
            final(self).code() == old(self).code(),
    {
        if self.get_cell() != 0 {
            self.pc = to;
        }
    }

    /// The bytes that writing the current cell `amount` times sends.
    pub fn print_chars(&self, amount: usize) -> (r: Vec<u8>)
        requires
            self.wf(),
        ensures
            r@ == Seq::new(amount as nat, |i: int| self.cell()),
    {
        let ch = self.get_cell();
        let mut out: Vec<u8> = Vec::new();
        let mut i: usize = 0;
        while i < amount
            invariant
                i <= amount,
                ch == self.cell(),
                out@ == Seq::new(i as nat, |j: int| self.cell()),
            decreases amount - i,
        {
            out.push(ch);
            i = i + 1;
            assert(out@ =~= Seq::new(i as nat, |j: int| self.cell()));
        }
        out
    }

    /// Stores a byte read from the input in the current cell.
    pub fn input_char(&mut self, byte: u8)
        requires
            old(self).wf(),
        ensures
            final(self).wf(),
            final(self).tape() == old(self).tape().update(old(self).cursor() as int, byte),
            final(self).cursor() == old(self).cursor(),
            final(self).counter() == old(self).counter(),
            final(self).code() == old(self).code(),
    {
        self.mem.set(self.mem_ptr, byte);
    }

    /// Runs the instruction under the program counter and moves the counter past it
    /// (past the jump target where a jump is taken). Output and input are left to the
    /// caller: `Output` carries the bytes to write, and `Input` asks for one byte to be
    /// handed to `input_char`, whatever count the instruction holds.
    pub fn step(&mut self) -> (r: Result<Step, BfError>)
        requires
            old(self).wf(),
        ensures
            final(self).wf(),
            final(self).code() == old(self).code(),
            old(self).counter() >= old(self).code().len() ==> r == Ok::<Step, BfError>(Step::Halt)
                && *final(self) == *old(self),
            old(self).counter() < old(self).code().len() ==> {
                let op = old(self).code()[old(self).counter() as int];
                let n = op.data;
                let c = old(self).cell();
                let p = old(self).cursor();
                let t = old(self).tape();
                let moved = final(self).counter() == next_pc(old(self).counter());
                match op.ty {
                    OpCodeType::Add => r == Ok::<Step, BfError>(Step::Continue) && moved
                        && final(self).tape() == t.update(p as int, cell_add(c, n))
                        && final(self).cursor() == p,
                    OpCodeType::Sub => r == Ok::<Step, BfError>(Step::Continue) && moved
                        && final(self).tape() == t.update(p as int, cell_sub(c, n))
                        && final(self).cursor() == p,
                    OpCodeType::ShiftLeft => r == Ok::<Step, BfError>(Step::Continue) && moved
                        && final(self).tape() == t && final(self).cursor() == (if p >= n {
                        p - n
                    } else {
                        0
                    }),
                    OpCodeType::ShiftRight => final(self).tape() == t && (if p + n < t.len() {
                        r == Ok::<Step, BfError>(Step::Continue) && moved && final(self).cursor()
                            == p + n
                    } else {
                        r == Err::<Step, BfError>(
                            BfError::TapeOverflow {
                                tape_len: t.len() as usize,
                                overflow: (p + n - t.len()) as usize,
                            },
                        )
                    }),
                    OpCodeType::JmpZero => r == Ok::<Step, BfError>(Step::Continue)
                        && final(self).tape() == t && final(self).cursor() == p
                        && final(self).counter() == next_pc(
                        if c == 0 {
                            n
                        } else {
                            old(self).counter()
                        },
                    ),
                    OpCodeType::JmpNotZero => r == Ok::<Step, BfError>(Step::Continue)
                        && final(self).tape() == t && final(self).cursor() == p
                        && final(self).counter() == next_pc(
                        if c != 0 {
                            n
                        } else {
                            old(self).counter()
                        },
                    ),
                    OpCodeType::PrintChar => r matches Ok(Step::Output(bytes)) && bytes@ == Seq::new(
                        n as nat,
                        |i: int| c,
                    ) && moved && final(self).tape() == t && final(self).cursor() == p,
                    OpCodeType::InputChar => r == Ok::<Step, BfError>(Step::Input) && moved
                        && final(self).tape() == t && final(self).cursor() == p,
                }
            },
    {
        if self.pc >= self.program.len() {
            return Ok(Step::Halt);
        }
        let (inst, data) = self.program[self.pc].to_tuple();
        let out = match inst {
            OpCodeType::Add => {
                self.add_to_cell(data);
                Step::Continue
            },
            OpCodeType::Sub => {
                self.sub_to_cell(data);
                Step::Continue
            },
            OpCodeType::ShiftLeft => {
                self.shift_left(data);
                Step::Continue
            },
            OpCodeType::ShiftRight => {
                match self.shift_right(data) {
                    Ok(()) => Step::Continue,
                    Err(e) => {
                        return Err(e);
                    },
                }
            },
            OpCodeType::JmpZero => {
                self.jump_zero(data);
                Step::Continue
            },
            OpCodeType::JmpNotZero => {
                self.jump_not_zero(data);
                Step::Continue
            },
            OpCodeType::PrintChar => Step::Output(self.print_chars(data)),
            OpCodeType::InputChar => Step::Input,
        };
        self.advance_pc();
        Ok(out)
    }

    fn advance_pc(&mut self)
        ensures
            final(self).counter() == next_pc(old(self).counter()),
            final(self).tape() == old(self).tape(),
            final(self).cursor() == old(self).cursor(),
            final(self).code() == old(self).code(),
    {
        if self.pc < usize::MAX {
            self.pc = self.pc + 1;
        }
    }
}

} // verus!
