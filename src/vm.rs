use vstd::prelude::*;
use vstd::string::StringSliceAdditionalSpecFns;
use crate::chunk::{Chunk, ChunkModel, Opcode, decode};
use crate::compiler::{compile, compile_result, number_literals_of, CompileError};
use crate::value::{
    Value,
    spec_is_falsey,
    spec_values_equal,
    spec_num_lt,
    spec_negate,
    num_lt,
    negate,
};

verus! {

/// How an interpretation ended.
#[derive(Clone, Copy, Debug, PartialEq, Eq, Structural)]
pub enum InterpretResult {
    Finished,
    CompileError,
    RuntimeError,
}

/// The process exit code for each ending.
pub open spec fn spec_exit_code(r: InterpretResult) -> u8 {
    match r {
        InterpretResult::Finished => 0,
        InterpretResult::CompileError => 65,
        InterpretResult::RuntimeError => 70,
    }
}

impl InterpretResult {
    pub fn exit_code(self) -> (r: u8)
        ensures
            r == spec_exit_code(self),
    {
        match self {
            InterpretResult::Finished => 0,
            InterpretResult::CompileError => 65,
            InterpretResult::RuntimeError => 70,
        }
    }

    /// How a run that stopped on `outcome` ends (`None`: it is not over).
    pub fn of_outcome(outcome: Outcome) -> (r: Option<InterpretResult>)
        ensures
            r == match outcome {
                Outcome::Returned(_) => Some(InterpretResult::Finished),
                Outcome::Failed(_) => Some(InterpretResult::RuntimeError),
                Outcome::Arithmetic { .. } => None,
                Outcome::Invalid => Some(InterpretResult::CompileError),
            },
    {
        match outcome {
            Outcome::Returned(_) => Some(InterpretResult::Finished),
            Outcome::Failed(_) => Some(InterpretResult::RuntimeError),
            Outcome::Arithmetic { .. } => None,
            Outcome::Invalid => Some(InterpretResult::CompileError),
        }
    }
}

/// The floating-point operations that the machine hands out.
#[derive(Clone, Copy, Debug, PartialEq, Eq, Structural)]
pub enum ArithOp {
    Add,
    Subtract,
    Multiply,
    Divide,
}

/// What a runtime error says.
#[derive(Clone, Copy, Debug, PartialEq, Eq, Structural)]
pub enum RuntimeMessage {
    OperandsMustBeNumbers,
    OperandMustBeNumber,
}

impl RuntimeMessage {
    pub fn text(&self) -> (r: &'static str)
        ensures
            *self == RuntimeMessage::OperandsMustBeNumbers ==> r@ == "Operands must be numbers."@,
            *self == RuntimeMessage::OperandMustBeNumber ==> r@ == "Operand must be a number."@,
    {
        match self {
            RuntimeMessage::OperandsMustBeNumbers => "Operands must be numbers.",
            RuntimeMessage::OperandMustBeNumber => "Operand must be a number.",
        }
    }
}

/// A runtime error and the line of the instruction that raised it.
#[derive(Clone, Copy, Debug, PartialEq, Eq, Structural)]
pub struct RuntimeError {
    pub message: RuntimeMessage,
    pub line: usize,
}

/// Where a run stopped.
#[derive(Clone, Copy, Debug, PartialEq, Eq, Structural)]
pub enum Outcome {
    /// `Return` popped this value.
    Returned(Value),
    /// A type error halted the program.
    Failed(RuntimeError),
    /// An arithmetic instruction popped two numbers (`a` below `b`); the run goes
    /// on once the result of `a op b` is supplied with `resume`.
    Arithmetic { op: ArithOp, a: u32, b: u32 },
    /// The code ended without `Return`, held a byte that is no instruction, or
    /// popped an empty stack.
    Invalid,
}

pub open spec fn arith_op(op: Opcode) -> Option<ArithOp> {
    match op {
        Opcode::Add => Some(ArithOp::Add),
        Opcode::Subtract => Some(ArithOp::Subtract),
        Opcode::Multiply => Some(ArithOp::Multiply),
        Opcode::Divide => Some(ArithOp::Divide),
        _ => None,
    }
}

/// Replaces the top two values `a` (below) and `b` (top) by `r`.
pub open spec fn replace2(st: Seq<Value>, r: Value) -> Seq<Value> {
    st.subrange(0, st.len() - 2).push(r)
}

/// Executes the instruction at `ip` (which must be in the code): `None` to go
/// on, or where the run stops; then the next `ip` and the stack.
pub open spec fn step(c: ChunkModel, ip: int, st: Seq<Value>) -> (Option<Outcome>, int, Seq<Value>) {
    let ip1 = ip + 1;
    let n = st.len();
    let failed = |m: RuntimeMessage| Some(Outcome::Failed(RuntimeError { message: m, line: c.lines[ip] }));
    match decode(c.code[ip]) {
        None => (Some(Outcome::Invalid), ip1, st),
        Some(op) => match op {
            Opcode::Constant => if ip1 < c.code.len() && (c.code[ip1] as int) < c.constants.len() {
                (None, ip + 2, st.push(c.constants[c.code[ip1] as int]))
            } else {
                (Some(Outcome::Invalid), ip1, st)
            },
            Opcode::Nil => (None, ip1, st.push(Value::Nil)),
            Opcode::True => (None, ip1, st.push(Value::Bool(true))),
            Opcode::False => (None, ip1, st.push(Value::Bool(false))),
            Opcode::Not => if n >= 1 {
                (None, ip1, st.drop_last().push(Value::Bool(spec_is_falsey(st.last()))))
            } else {
                (Some(Outcome::Invalid), ip1, st)
            },
            Opcode::Negate => if n < 1 {
                (Some(Outcome::Invalid), ip1, st)
            } else if st.last() is Number {
                (None, ip1, st.drop_last().push(Value::Number(spec_negate(st.last()->Number_0))))
            } else {
                (failed(RuntimeMessage::OperandMustBeNumber), ip1, st)
            },
            Opcode::Return => if n >= 1 {
                (Some(Outcome::Returned(st.last())), ip1, st.drop_last())
            } else {
                (Some(Outcome::Invalid), ip1, st)
            },
            Opcode::Equal => if n >= 2 {
                (None, ip1, replace2(st, Value::Bool(spec_values_equal(st[n - 2], st[n - 1]))))
            } else {
                (Some(Outcome::Invalid), ip1, st)
            },
            _ => if n < 2 {
                (Some(Outcome::Invalid), ip1, st)
            } else if !(st[n - 2] is Number && st[n - 1] is Number) {
                (failed(RuntimeMessage::OperandsMustBeNumbers), ip1, st)
            } else {
                let a = st[n - 2]->Number_0;
                let b = st[n - 1]->Number_0;
                if op == Opcode::Greater {
                    (None, ip1, replace2(st, Value::Bool(spec_num_lt(b, a))))
                } else if op == Opcode::Less {
                    (None, ip1, replace2(st, Value::Bool(spec_num_lt(a, b))))
                } else {
                    (
                        Some(Outcome::Arithmetic { op: arith_op(op).unwrap(), a, b }),
                        ip1,
                        st.subrange(0, n - 2),
                    )
                }
            },
        },
    }
}

/// Runs from `ip` until the machine stops: the outcome, the next `ip` and the stack.
pub open spec fn run_from(c: ChunkModel, ip: int, st: Seq<Value>) -> (Outcome, int, Seq<Value>)
    decreases c.code.len() - ip,
{
    if 0 <= ip < c.code.len() {
        let (o, ip2, st2) = step(c, ip, st);
        match o {
            Some(o) => (o, ip2, st2),
            None => if ip < ip2 {
                run_from(c, ip2, st2)
            } else {
                (Outcome::Invalid, ip2, st2)
            },
        }
    } else {
        (Outcome::Invalid, ip, st)
    }
}

/// Binary instructions take their left operand from below the right one: with
/// `x` pushed before `y`, `Less` computes `x < y`, `Greater` computes `x > y`,
/// `Equal` compares `x` with `y`, and arithmetic hands out `a = x`, `b = y`.
pub proof fn lemma_binary_operand_order(c: ChunkModel, ip: int, st: Seq<Value>, x: u32, y: u32)
    requires
        0 <= ip < c.code.len(),
        st.len() >= 2,
        st[st.len() - 2] == Value::Number(x),
        st[st.len() - 1] == Value::Number(y),
    ensures
        decode(c.code[ip]) == Some(Opcode::Less) ==> step(c, ip, st) == (
            None::<Outcome>,
            ip + 1,
            replace2(st, Value::Bool(spec_num_lt(x, y))),
        ),
        decode(c.code[ip]) == Some(Opcode::Greater) ==> step(c, ip, st) == (
            None::<Outcome>,
            ip + 1,
            replace2(st, Value::Bool(spec_num_lt(y, x))),
        ),
        decode(c.code[ip]) == Some(Opcode::Equal) ==> step(c, ip, st) == (
            None::<Outcome>,
            ip + 1,
            replace2(st, Value::Bool(spec_values_equal(Value::Number(x), Value::Number(y)))),
        ),
        forall|op: Opcode|
            decode(c.code[ip]) == Some(op) && #[trigger] arith_op(op) is Some ==> step(c, ip, st)
                == (
                Some(Outcome::Arithmetic { op: arith_op(op).unwrap(), a: x, b: y }),
                ip + 1,
                st.subrange(0, st.len() - 2),
            ),
{
}

/// `Not` after a comparison negates it: on two numbers, `Equal`, `Less` or
/// `Greater` followed by `Not` leaves the negation of what the comparison alone leaves.
pub proof fn lemma_not_after_comparison(c: ChunkModel, ip: int, st: Seq<Value>, x: u32, y: u32)
    requires
        0 <= ip,
        ip + 1 < c.code.len(),
        decode(c.code[ip]) == Some(Opcode::Equal) || decode(c.code[ip]) == Some(Opcode::Less)
            || decode(c.code[ip]) == Some(Opcode::Greater),
        decode(c.code[ip + 1]) == Some(Opcode::Not),
        st.len() >= 2,
        st[st.len() - 2] == Value::Number(x),
        st[st.len() - 1] == Value::Number(y),
    ensures
        ({
            let (o1, ip1, st1) = step(c, ip, st);
            let (o2, ip2, st2) = step(c, ip1, st1);
            &&& o1.is_none() && o2.is_none()
            &&& ip2 == ip + 2
            &&& st1.last() is Bool
            &&& st2 == st1.drop_last().push(Value::Bool(!(st1.last()->Bool_0)))
            &&& st2.len() == st.len() - 1
        }),
{
}

/// The machine's content.
pub struct VmModel {
    pub chunk: ChunkModel,
    pub ip: int,
    pub stack: Seq<Value>,
}

/// The stack's initial capacity; it grows beyond it when needed.
pub const STACK_MAX: usize = 256;

/// A stack machine over one chunk.
pub struct VM {
    pub chunk: Chunk,
    pub ip: usize,
    pub stack: Vec<Value>,
}

impl View for VM {
    type V = VmModel;

    open spec fn view(&self) -> VmModel {
        VmModel { chunk: self.chunk@, ip: self.ip as int, stack: self.stack@ }
    }
}

impl VM {
    pub open spec fn wf(&self) -> bool {
        self.chunk@.code.len() == self.chunk@.lines.len()
    }

    pub fn new(chunk: Chunk) -> (r: Self)
        ensures
            r@ == (VmModel { chunk: chunk@, ip: 0, stack: seq![] }),
    {
        Self { chunk, ip: 0, stack: Vec::with_capacity(STACK_MAX) }
    }

    pub fn push(&mut self, value: Value)
        ensures
            final(self)@ == (VmModel { stack: old(self)@.stack.push(value), ..old(self)@ }),
    {
        self.stack.push(value);
    }

    pub fn pop(&mut self) -> (r: Value)
        requires
            old(self)@.stack.len() >= 1,
        ensures
            r == old(self)@.stack.last(),
            final(self)@ == (VmModel { stack: old(self)@.stack.drop_last(), ..old(self)@ }),
    {
        match self.stack.pop() {
            Some(v) => v,
            None => Value::Nil,
        }
    }

    /// The value `distance` places below the top of the stack.
    pub fn peek(&self, distance: usize) -> (r: &Value)
        requires
            distance < self@.stack.len(),
        ensures
            *r == self@.stack[self@.stack.len() - 1 - distance],
    {
        &self.stack[self.stack.len() - 1 - distance]
    }

    /// Compiles `source` (the i-th number literal having the value `numbers[i]`)
    /// and loads the chunk, with `ip` at 0 and an empty stack; or returns the
    /// compile error and leaves the machine as it was.
    pub fn interpret(&mut self, source: &str, numbers: &[u32]) -> (r: Result<(), CompileError>)
        requires
            source.spec_bytes().len() < usize::MAX,
            number_literals_of(source.spec_bytes()).len() <= numbers@.len(),
        ensures
            r matches Err(e) ==> compile_result(source.spec_bytes(), numbers@) == Err::<
                ChunkModel,
                CompileError,
            >(e) && *final(self) == *old(self),
            r is Ok ==> compile_result(source.spec_bytes(), numbers@) == Ok::<
                ChunkModel,
                CompileError,
            >(final(self)@.chunk) && final(self)@.ip == 0 && final(self)@.stack.len() == 0
                && final(self)@.chunk.wf() && final(self).wf(),
    {
        match compile(source, numbers) {
            Err(e) => Err(e),
            Ok(chunk) => {
                self.chunk = chunk;
                self.ip = 0;
                self.stack.clear();
                Ok(())
            },
        }
    }

    /// Reads the byte at `ip` and moves past it.
    pub fn read_byte(&mut self) -> (r: u8)
        requires
            old(self)@.ip < old(self)@.chunk.code.len(),
        ensures
            r == old(self)@.chunk.code[old(self)@.ip],
            final(self)@ == (VmModel { ip: old(self)@.ip + 1, ..old(self)@ }),
    {
        let instruction = self.chunk.code[self.ip];
        proof {
            assert(self.chunk.code@.len() == self.chunk.code.len());
        }
        self.ip += 1;
        instruction
    }

    /// Reads the byte at `ip` as an instruction.
    pub fn read_instruction(&mut self) -> (r: Option<Opcode>)
        requires
            old(self)@.ip < old(self)@.chunk.code.len(),
        ensures
            r == decode(old(self)@.chunk.code[old(self)@.ip]),
            final(self)@ == (VmModel { ip: old(self)@.ip + 1, ..old(self)@ }),
    {
        Opcode::from_byte(self.read_byte())
    }

    /// Reads a constant operand; `None`, moving nothing, past the end of the
    /// code or for an index outside the constants.
    pub fn read_constant(&mut self) -> (r: Option<Value>)
        requires
            old(self)@.ip <= old(self)@.chunk.code.len(),
        ensures
            ({
                let c = old(self)@.chunk;
                let ip = old(self)@.ip;
                if ip < c.code.len() && (c.code[ip] as int) < c.constants.len() {
                    r == Some(c.constants[c.code[ip] as int]) && final(self)@ == (VmModel {
                        ip: ip + 1,
                        ..old(self)@
                    })
                } else {
                    r.is_none() && final(self)@ == old(self)@
                }
            }),
    {
        if self.ip < self.chunk.code.len() && (self.chunk.code[self.ip] as usize)
            < self.chunk.constants.len() {
            let idx = self.read_byte() as usize;
            Some(self.chunk.constants[idx])
        } else {
            None
        }
    }

    /// Both operands of a binary instruction, if they are numbers: `a` (below)
    /// and `b` (top), popped. Otherwise the error, with the stack untouched.
    pub fn pop_numbers(&mut self) -> (r: Result<(u32, u32), RuntimeError>)
        requires
            old(self).wf(),
            1 <= old(self)@.ip <= old(self)@.chunk.code.len(),
            old(self)@.stack.len() >= 2,
        ensures
            ({
                let st = old(self)@.stack;
                let n = st.len();
                if st[n - 2] is Number && st[n - 1] is Number {
                    r == Ok::<(u32, u32), RuntimeError>((st[n - 2]->Number_0, st[n - 1]->Number_0))
                        && final(self)@ == (VmModel { stack: st.subrange(0, n - 2), ..old(self)@ })
                } else {
                    r == Err::<(u32, u32), RuntimeError>(
                        RuntimeError {
                            message: RuntimeMessage::OperandsMustBeNumbers,
                            line: old(self)@.chunk.lines[old(self)@.ip - 1],
                        },
                    ) && final(self)@ == old(self)@
                }
            }),
    {
        if !self.peek(0).is_number() || !self.peek(1).is_number() {
            return Err(self.runtime_error(RuntimeMessage::OperandsMustBeNumbers));
        }
        let ghost st = self@.stack;
        let b = self.pop().as_number();
        let a = self.pop().as_number();
        assert(self@.stack =~= st.subrange(0, st.len() - 2));
        Ok((a, b))
    }

    /// Executes instructions until `Return`, a runtime error, an arithmetic
    /// instruction (whose result `resume` then supplies), or invalid code.
    #[verifier::rlimit(80)]
    pub fn run(&mut self) -> (r: Outcome)
        requires
            old(self).wf(),
            old(self)@.ip <= old(self)@.chunk.code.len(),
        ensures
            final(self).wf(),
            final(self)@.chunk == old(self)@.chunk,
            final(self)@.ip <= final(self)@.chunk.code.len(),
            (r, final(self)@.ip, final(self)@.stack) == run_from(
                old(self)@.chunk,
                old(self)@.ip,
                old(self)@.stack,
            ),
    {
        let ghost c = self@.chunk;
        while self.ip < self.chunk.code.len()
            invariant
                self.wf(),
                self@.chunk == c,
                c == old(self)@.chunk,
                self@.ip <= c.code.len(),
                run_from(c, self@.ip, self@.stack) == run_from(c, old(self)@.ip, old(self)@.stack),
            decreases c.code.len() - self@.ip,
        {
            let ghost ip = self@.ip;
            let ghost st = self@.stack;
            let ghost n = st.len();
            let instruction = self.read_instruction();
            match instruction {
                None => return Outcome::Invalid,
                Some(Opcode::Constant) => match self.read_constant() {
                    Some(value) => self.push(value),
                    None => return Outcome::Invalid,
                },
                Some(Opcode::Nil) => self.push(Value::Nil),
                Some(Opcode::True) => self.push(Value::Bool(true)),
                Some(Opcode::False) => self.push(Value::Bool(false)),
                Some(Opcode::Equal) => {
                    if self.stack.len() < 2 {
                        return Outcome::Invalid;
                    }
                    let b = self.pop();
                    let a = self.pop();
                    self.push(Value::Bool(a.is_equal(&b)));
                    assert(self@.stack =~= replace2(st, Value::Bool(spec_values_equal(a, b))));
                },
                Some(Opcode::Greater) => {
                    if self.stack.len() < 2 {
                        return Outcome::Invalid;
                    }
                    match self.pop_numbers() {
                        Ok((a, b)) => self.push(Value::Bool(num_lt(b, a))),
                        Err(e) => return Outcome::Failed(e),
                    }
                },
                Some(Opcode::Less) => {
                    if self.stack.len() < 2 {
                        return Outcome::Invalid;
                    }
                    match self.pop_numbers() {
                        Ok((a, b)) => self.push(Value::Bool(num_lt(a, b))),
                        Err(e) => return Outcome::Failed(e),
                    }
                },
                Some(Opcode::Add) => {
                    if self.stack.len() < 2 {
                        return Outcome::Invalid;
                    }
                    match self.pop_numbers() {
                        Ok((a, b)) => return Outcome::Arithmetic { op: ArithOp::Add, a, b },
                        Err(e) => return Outcome::Failed(e),
                    }
                },
                Some(Opcode::Subtract) => {
                    if self.stack.len() < 2 {
                        return Outcome::Invalid;
                    }
                    match self.pop_numbers() {
                        Ok((a, b)) => return Outcome::Arithmetic { op: ArithOp::Subtract, a, b },
                        Err(e) => return Outcome::Failed(e),
                    }
                },
                Some(Opcode::Multiply) => {
                    if self.stack.len() < 2 {
                        return Outcome::Invalid;
                    }
                    match self.pop_numbers() {
                        Ok((a, b)) => return Outcome::Arithmetic { op: ArithOp::Multiply, a, b },
                        Err(e) => return Outcome::Failed(e),
                    }
                },
                Some(Opcode::Divide) => {
                    if self.stack.len() < 2 {
                        return Outcome::Invalid;
                    }
                    match self.pop_numbers() {
                        Ok((a, b)) => return Outcome::Arithmetic { op: ArithOp::Divide, a, b },
                        Err(e) => return Outcome::Failed(e),
                    }
                },
                Some(Opcode::Not) => {
                    if self.stack.len() < 1 {
                        return Outcome::Invalid;
                    }
                    let value = self.pop();
                    self.push(Value::Bool(value.is_falsey()));
                },
                Some(Opcode::Negate) => {
                    if self.stack.len() < 1 {
                        return Outcome::Invalid;
                    }
                    if !self.peek(0).is_number() {
                        return Outcome::Failed(
                            self.runtime_error(RuntimeMessage::OperandMustBeNumber),
                        );
                    }
                    let bits = self.pop().as_number();
                    self.push(Value::Number(negate(bits)));
                },
                Some(Opcode::Return) => {
                    if self.stack.len() < 1 {
                        return Outcome::Invalid;
                    }
                    return Outcome::Returned(self.pop());
                },
            }
        }
        Outcome::Invalid
    }

    /// The error `message`, on the line of the instruction just read.
    pub fn runtime_error(&self, message: RuntimeMessage) -> (r: RuntimeError)
        requires
            self.wf(),
            1 <= self@.ip <= self@.chunk.code.len(),
        ensures
            r == (RuntimeError { message, line: self@.chunk.lines[self@.ip - 1] }),
    {
        RuntimeError { message, line: self.chunk.lines[self.ip - 1] }
    }

    /// Pushes the result of the arithmetic that the last run stopped on.
    pub fn resume(&mut self, result: u32)
        ensures
            final(self)@ == (VmModel {
                stack: old(self)@.stack.push(Value::Number(result)),
                ..old(self)@
            }),
    {
        self.push(Value::Number(result));
    }
}

} // verus!
