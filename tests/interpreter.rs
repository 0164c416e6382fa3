use clox::chunk::{Chunk, Opcode};
use clox::compiler::{compile, number_literals, CompileError, Locus, Message};
use clox::scanner::LexError;
use clox::value::Value;
use clox::vm::{ArithOp, InterpretResult, Outcome, RuntimeError, RuntimeMessage, VM};

fn literal_bits(source: &str) -> Vec<u32> {
    number_literals(source)
        .iter()
        .map(|t| {
            source[t.start..t.start + t.length]
                .parse::<f32>()
                .unwrap()
                .to_bits()
        })
        .collect()
}

fn arith(op: ArithOp, a: u32, b: u32) -> u32 {
    let (x, y) = (f32::from_bits(a), f32::from_bits(b));
    let r = match op {
        ArithOp::Add => x + y,
        ArithOp::Subtract => x - y,
        ArithOp::Multiply => x * y,
        ArithOp::Divide => x / y,
    };
    r.to_bits()
}

fn render(v: Value) -> String {
    match v {
        Value::Bool(b) => b.to_string(),
        Value::Nil => "nil".to_string(),
        Value::Number(bits) => f32::from_bits(bits).to_string(),
    }
}

fn render_error(e: &CompileError, source: &str) -> String {
    let locus = match e.locus {
        Locus::AtEnd => " at end".to_string(),
        Locus::Bare => String::new(),
        Locus::At { start, length } => format!(" at '{}'", &source[start..start + length]),
    };
    format!("[line {}] Error{}: {}", e.line, locus, e.message.text())
}

#[derive(Debug, PartialEq)]
enum Run {
    Printed(String),
    Compile(CompileError),
    Runtime(RuntimeError),
    Invalid,
}

fn interpret(source: &str) -> Run {
    let nums = literal_bits(source);
    let mut vm = VM::new(Chunk::new());
    if let Err(e) = vm.interpret(source, &nums) {
        return Run::Compile(e);
    }
    loop {
        match vm.run() {
            Outcome::Arithmetic { op, a, b } => vm.resume(arith(op, a, b)),
            Outcome::Returned(v) => return Run::Printed(render(v)),
            Outcome::Failed(e) => return Run::Runtime(e),
            Outcome::Invalid => return Run::Invalid,
        }
    }
}

fn exit_code(run: &Run) -> u8 {
    let r = match run {
        Run::Printed(_) => InterpretResult::Finished,
        Run::Compile(_) | Run::Invalid => InterpretResult::CompileError,
        Run::Runtime(_) => InterpretResult::RuntimeError,
    };
    r.exit_code()
}

fn printed(source: &str) -> String {
    match interpret(source) {
        Run::Printed(s) => s,
        other => panic!("{:?}", other),
    }
}

#[test]
fn scenario_one_plus_two() {
    let r = interpret("1 + 2");
    assert_eq!(exit_code(&r), 0);
    assert_eq!(r, Run::Printed("3".to_string()));
}

#[test]
fn scenario_grouping_and_negation() {
    let r = interpret("(-1 + 2) * 3 - -4");
    assert_eq!(exit_code(&r), 0);
    assert_eq!(r, Run::Printed("7".to_string()));
}

#[test]
fn scenario_not_nil() {
    assert_eq!(printed("!nil"), "true");
}

#[test]
fn scenario_comparison_chain() {
    assert_eq!(printed("!(5 - 4 > 3 * 2 == !nil)"), "true");
}

#[test]
fn scenario_type_error() {
    let r = interpret("1 + true");
    assert_eq!(exit_code(&r), 70);
    match r {
        Run::Runtime(e) => {
            assert_eq!(e.message, RuntimeMessage::OperandsMustBeNumbers);
            assert!(e.message.text().starts_with("Operands must be numbers."));
            assert_eq!(e.line, 1);
        }
        other => panic!("{:?}", other),
    }
}

#[test]
fn scenario_missing_operand() {
    let r = interpret("1 +");
    assert_eq!(exit_code(&r), 65);
    match r {
        Run::Compile(e) => {
            assert_eq!(
                e,
                CompileError { line: 1, locus: Locus::AtEnd, message: Message::ExpectExpression }
            );
            assert_eq!(render_error(&e, "1 +"), "[line 1] Error at end: Expect expression.");
        }
        other => panic!("{:?}", other),
    }
}

#[test]
fn missing_operand_reports_line_of_trailing_token() {
    match interpret("1 +\n\n") {
        Run::Compile(e) => {
            assert_eq!(e.message, Message::ExpectExpression);
            assert_eq!(e.locus, Locus::AtEnd);
            assert_eq!(e.line, 3);
        }
        other => panic!("{:?}", other),
    }
}

fn sum_of_ones(n: usize) -> String {
    vec!["1"; n].join("+")
}

#[test]
fn exactly_256_constants_compile() {
    assert_eq!(printed(&sum_of_ones(256)), "256");
}

#[test]
fn constant_257_is_too_many() {
    let source = sum_of_ones(257);
    match interpret(&source) {
        Run::Compile(e) => {
            assert_eq!(e.message, Message::TooManyConstants);
            assert_eq!(e.message.text(), "Too many constants in one chunk.");
            assert_eq!(e.locus, Locus::At { start: 512, length: 1 });
        }
        other => panic!("{:?}", other),
    }
}

#[test]
fn unterminated_string_single_error() {
    let source = "\"abc";
    match interpret(source) {
        Run::Compile(e) => {
            assert_eq!(
                e,
                CompileError {
                    line: 1,
                    locus: Locus::Bare,
                    message: Message::Lex(LexError::UnterminatedString),
                }
            );
            assert_eq!(render_error(&e, source), "[line 1] Error: Unterminated string");
        }
        other => panic!("{:?}", other),
    }
}

#[test]
fn string_has_no_prefix_rule() {
    let source = "\"a\"";
    match interpret(source) {
        Run::Compile(e) => {
            assert_eq!(e.message, Message::ExpectExpression);
            assert_eq!(render_error(&e, source), "[line 1] Error at '\"a\"': Expect expression.");
        }
        other => panic!("{:?}", other),
    }
}

#[test]
fn missing_right_paren() {
    match interpret("(1") {
        Run::Compile(e) => {
            assert_eq!(e.message, Message::ExpectRightParen);
            assert_eq!(e.message.text(), "Expect ')' after expression.");
            assert_eq!(e.locus, Locus::AtEnd);
        }
        other => panic!("{:?}", other),
    }
}

#[test]
fn trailing_token_is_error() {
    match interpret("1 2") {
        Run::Compile(e) => {
            assert_eq!(e.message, Message::ExpectEnd);
            assert_eq!(e.message.text(), "Expected end of expression.");
            assert_eq!(e.locus, Locus::At { start: 2, length: 1 });
        }
        other => panic!("{:?}", other),
    }
}

#[test]
fn unexpected_character_error() {
    match interpret("1 + @") {
        Run::Compile(e) => {
            assert_eq!(e.message, Message::Lex(LexError::UnexpectedCharacter));
            assert_eq!(e.locus, Locus::Bare);
        }
        other => panic!("{:?}", other),
    }
}

#[test]
fn negate_non_number() {
    match interpret("-true") {
        Run::Runtime(e) => {
            assert_eq!(e.message, RuntimeMessage::OperandMustBeNumber);
            assert_eq!(e.message.text(), "Operand must be a number.");
        }
        other => panic!("{:?}", other),
    }
}

#[test]
fn runtime_error_line_is_operator_line() {
    match interpret("1 +\n true") {
        Run::Runtime(e) => assert_eq!(e.line, 2),
        other => panic!("{:?}", other),
    }
}

#[test]
fn operands_left_to_right() {
    assert_eq!(printed("10 - 4"), "6");
    assert_eq!(printed("8 / 2"), "4");
    assert_eq!(printed("2 < 3"), "true");
    assert_eq!(printed("2 > 3"), "false");
}

#[test]
fn comparison_negations() {
    assert_eq!(printed("1 != 1"), "false");
    assert_eq!(printed("1 == 1"), "true");
    assert_eq!(printed("1 <= 2"), "true");
    assert_eq!(printed("2 <= 1"), "false");
    assert_eq!(printed("2 >= 3"), "false");
    assert_eq!(printed("3 >= 3"), "true");
    assert_eq!(printed("0/0 >= 0/0"), "true");
    assert_eq!(printed("0/0 < 0/0"), "false");
    assert_eq!(printed("0/0 == 0/0"), "false");
    assert_eq!(printed("0/0 != 0/0"), "true");
}

#[test]
fn equality_across_types() {
    assert_eq!(printed("nil == false"), "false");
    assert_eq!(printed("true == true"), "true");
    assert_eq!(printed("nil == nil"), "true");
    assert_eq!(printed("true == 1"), "false");
    assert_eq!(printed("!0"), "false");
    assert_eq!(printed("-0 == 0"), "true");
}

#[test]
fn precedence_of_factor_over_term() {
    assert_eq!(printed("1 + 2 * 3"), "7");
    assert_eq!(printed("(1 + 2) * 3"), "9");
    assert_eq!(printed("10 - 2 - 3"), "5");
}

#[test]
fn bytecode_layout() {
    let source = "1 + 2";
    let nums = literal_bits(source);
    assert_eq!(nums, vec![1.0f32.to_bits(), 2.0f32.to_bits()]);
    let chunk = compile(source, &nums).unwrap();
    assert_eq!(
        chunk.code,
        vec![
            Opcode::Constant.to_byte(),
            0,
            Opcode::Constant.to_byte(),
            1,
            Opcode::Add.to_byte(),
            Opcode::Return.to_byte(),
        ]
    );
    assert_eq!(chunk.lines, vec![1; 6]);
    assert_eq!(chunk.constants, vec![Value::Number(nums[0]), Value::Number(nums[1])]);
}

#[test]
fn bang_equal_emits_equal_not() {
    let chunk = compile("true != nil", &[]).unwrap();
    assert_eq!(
        chunk.code,
        vec![
            Opcode::True.to_byte(),
            Opcode::Nil.to_byte(),
            Opcode::Equal.to_byte(),
            Opcode::Not.to_byte(),
            Opcode::Return.to_byte(),
        ]
    );
}

#[test]
fn compile_is_deterministic() {
    let source = "(1 + 2.5) * -3 >= !nil";
    let nums = literal_bits(source);
    let a = compile(source, &nums).unwrap();
    let b = compile(source, &nums).unwrap();
    assert_eq!(a.code, b.code);
    assert_eq!(a.lines, b.lines);
    assert_eq!(a.constants, b.constants);
}

#[test]
fn opcode_bytes_round_trip() {
    for b in 0u8..=20 {
        match Opcode::from_byte(b) {
            Some(op) => assert_eq!(op.to_byte(), b),
            None => assert!(b == 0 || b > 14),
        }
    }
}

#[test]
fn exit_codes() {
    assert_eq!(InterpretResult::Finished.exit_code(), 0);
    assert_eq!(InterpretResult::CompileError.exit_code(), 65);
    assert_eq!(InterpretResult::RuntimeError.exit_code(), 70);
}

#[test]
fn value_predicates() {
    assert!(Value::Nil.is_falsey());
    assert!(Value::Bool(false).is_falsey());
    assert!(!Value::Bool(true).is_falsey());
    assert!(!Value::Number(0).is_falsey());
    assert!(Value::Number(0x8000_0000).is_equal(&Value::Number(0)));
    assert!(!Value::Number(f32::NAN.to_bits()).is_equal(&Value::Number(f32::NAN.to_bits())));
    assert!(!Value::Bool(true).is_equal(&Value::Number(1.0f32.to_bits())));
    assert!(Value::Number(1).is_number() && Value::Nil.is_nil() && Value::Bool(true).is_bool());
}

#[test]
fn invalid_code_is_reported() {
    let mut chunk = Chunk::new();
    chunk.write(200, 1);
    let mut vm = VM::new(chunk);
    assert_eq!(vm.run(), Outcome::Invalid);
    let mut empty = VM::new(Chunk::new());
    assert_eq!(empty.run(), Outcome::Invalid);
}

#[test]
fn disassembly_listing() {
    let source = "1 +\n2";
    let nums = literal_bits(source);
    let chunk = compile(source, &nums).unwrap();
    let texts: Vec<Vec<u8>> = vec![b"1".to_vec(), b"2".to_vec()];
    let listing = String::from_utf8(chunk.disassemble_chunk("code", &texts)).unwrap();
    let expected = format!(
        "== code ==\n0000    1 {:<16} {:>4} '1'\n0002    2 {:<16} {:>4} '2'\n0004    | OP_ADD\n0005    | OP_RETURN\n",
        "OP_CONSTANT", 0, "OP_CONSTANT", 1
    );
    assert_eq!(listing, expected);
}

#[test]
fn disassemble_less_and_unknown() {
    let mut chunk = Chunk::new();
    chunk.write_instruction(Opcode::Less, 12);
    chunk.write(99, 12);
    let mut out = Vec::new();
    let next = chunk.disassemble_instruction(0, &[], &mut out);
    assert_eq!(next, 1);
    let next = chunk.disassemble_instruction(next, &[], &mut out);
    assert_eq!(next, 2);
    assert_eq!(
        String::from_utf8(out).unwrap(),
        "0000   12 OP_LESS\n0001    | Unknown opcode 99\n"
    );
}

#[test]
fn add_constant_limit() {
    let mut chunk = Chunk::new();
    for i in 0..256usize {
        assert_eq!(chunk.add_constant(Value::Nil), Some(i as u8));
    }
    assert_eq!(chunk.add_constant(Value::Nil), None);
    assert_eq!(chunk.constants.len(), 256);
}
