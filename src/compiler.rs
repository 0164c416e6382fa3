use vstd::prelude::*;
use vstd::string::StringSliceAdditionalSpecFns;
use crate::chunk::{
    Chunk,
    ChunkModel,
    Opcode,
    Precedence,
    opcode_byte,
    level,
    spec_next,
    valid_from,
    lemma_valid_append,
    lemma_valid_grow,
    MAX_CONSTANTS,
};
use crate::scanner::{Scanner, Token, TokenKind, Lexed, LexError, scan, lemma_scan_bounds};
use crate::value::Value;

verus! {

/// What a compile error says.
#[derive(Clone, Copy, Debug, PartialEq, Eq, Structural)]
pub enum Message {
    ExpectExpression,
    ExpectRightParen,
    ExpectEnd,
    TooManyConstants,
    Lex(LexError),
}

impl Message {
    pub fn text(&self) -> (r: &'static str)
        ensures
            *self == Message::ExpectExpression ==> r@ == "Expect expression."@,
            *self == Message::ExpectRightParen ==> r@ == "Expect ')' after expression."@,
            *self == Message::ExpectEnd ==> r@ == "Expected end of expression."@,
            *self == Message::TooManyConstants ==> r@ == "Too many constants in one chunk."@,
            *self == Message::Lex(LexError::UnterminatedString) ==> r@ == "Unterminated string"@,
            *self == Message::Lex(LexError::UnexpectedCharacter) ==> r@
                == "Unexpected character."@,
    {
        match self {
            Message::ExpectExpression => "Expect expression.",
            Message::ExpectRightParen => "Expect ')' after expression.",
            Message::ExpectEnd => "Expected end of expression.",
            Message::TooManyConstants => "Too many constants in one chunk.",
            Message::Lex(e) => e.message(),
        }
    }
}

/// Where an error is reported: at the end of the input, at a lexical error
/// (no lexeme shown), or at the token over the given source bytes.
#[derive(Clone, Copy, Debug, PartialEq, Eq, Structural)]
pub enum Locus {
    AtEnd,
    Bare,
    At { start: usize, length: usize },
}

/// A compile error: `[line N] Error{locus}: {message}`.
#[derive(Clone, Copy, Debug, PartialEq, Eq, Structural)]
pub struct CompileError {
    pub line: usize,
    pub locus: Locus,
    pub message: Message,
}

pub open spec fn error_at(t: Lexed, message: Message) -> CompileError {
    CompileError {
        line: t.line as usize,
        locus: if t.kind == TokenKind::Eof {
            Locus::AtEnd
        } else if t.kind == TokenKind::Error {
            Locus::Bare
        } else {
            Locus::At { start: t.start as usize, length: t.length as usize }
        },
        message,
    }
}

// ---------------------------------------------------------------------------
// The Pratt table.
// ---------------------------------------------------------------------------

#[derive(Clone, Copy, Debug, PartialEq, Eq, Structural)]
pub enum PrefixRule {
    Grouping,
    Unary,
    Number,
    Literal,
}

#[derive(Clone, Copy, Debug, PartialEq, Eq, Structural)]
pub enum InfixRule {
    Binary,
}

/// The prefix rule, infix rule and infix precedence of a token kind.
#[derive(Clone, Copy, Debug)]
pub struct ParseRule {
    pub prefix: Option<PrefixRule>,
    pub infix: Option<InfixRule>,
    pub precedence: Precedence,
}

pub open spec fn parse_rule(
    prefix: Option<PrefixRule>,
    infix: Option<InfixRule>,
    precedence: Precedence,
) -> ParseRule {
    ParseRule { prefix, infix, precedence }
}

/// The table that drives the parser.
pub open spec fn rule(kind: TokenKind) -> ParseRule {
    match kind {
        TokenKind::LeftParen => parse_rule(Some(PrefixRule::Grouping), None, Precedence::Lowest),
        TokenKind::Minus => parse_rule(
            Some(PrefixRule::Unary),
            Some(InfixRule::Binary),
            Precedence::Term,
        ),
        TokenKind::Plus => parse_rule(None, Some(InfixRule::Binary), Precedence::Term),
        TokenKind::Slash => parse_rule(None, Some(InfixRule::Binary), Precedence::Factor),
        TokenKind::Star => parse_rule(None, Some(InfixRule::Binary), Precedence::Factor),
        TokenKind::Bang => parse_rule(Some(PrefixRule::Unary), None, Precedence::Lowest),
        TokenKind::BangEqual => parse_rule(None, Some(InfixRule::Binary), Precedence::Equality),
        TokenKind::EqualEqual => parse_rule(None, Some(InfixRule::Binary), Precedence::Equality),
        TokenKind::Greater => parse_rule(None, Some(InfixRule::Binary), Precedence::Comparison),
        TokenKind::GreaterEqual => parse_rule(
            None,
            Some(InfixRule::Binary),
            Precedence::Comparison,
        ),
        TokenKind::Less => parse_rule(None, Some(InfixRule::Binary), Precedence::Comparison),
        TokenKind::LessEqual => parse_rule(None, Some(InfixRule::Binary), Precedence::Comparison),
        TokenKind::Number => parse_rule(Some(PrefixRule::Number), None, Precedence::Lowest),
        TokenKind::False => parse_rule(Some(PrefixRule::Literal), None, Precedence::Lowest),
        TokenKind::Nil => parse_rule(Some(PrefixRule::Literal), None, Precedence::Lowest),
        TokenKind::True => parse_rule(Some(PrefixRule::Literal), None, Precedence::Lowest),
        _ => parse_rule(None, None, Precedence::Lowest),
    }
}

/// The instructions that a binary operator compiles to.
pub open spec fn binary_ops(kind: TokenKind) -> Seq<Opcode> {
    match kind {
        TokenKind::Plus => seq![Opcode::Add],
        TokenKind::Minus => seq![Opcode::Subtract],
        TokenKind::Star => seq![Opcode::Multiply],
        TokenKind::Slash => seq![Opcode::Divide],
        TokenKind::BangEqual => seq![Opcode::Equal, Opcode::Not],
        TokenKind::EqualEqual => seq![Opcode::Equal],
        TokenKind::Greater => seq![Opcode::Greater],
        TokenKind::GreaterEqual => seq![Opcode::Less, Opcode::Not],
        TokenKind::Less => seq![Opcode::Less],
        TokenKind::LessEqual => seq![Opcode::Greater, Opcode::Not],
        _ => seq![],
    }
}

// ---------------------------------------------------------------------------
// The compiler as a function on states.
// ---------------------------------------------------------------------------

/// Everything the compiler tracks: the scanner's position and line, the current
/// and previous tokens, the panic flag and first error, the chunk being built,
/// and how many number literals have passed through `previous`.
pub struct PState {
    pub pos: int,
    pub line: int,
    pub current: Lexed,
    pub previous: Lexed,
    pub panic: bool,
    pub error: Option<CompileError>,
    pub code: Seq<u8>,
    pub lines: Seq<usize>,
    pub constants: Seq<Value>,
    pub numerals: int,
}

/// The number tokens of the input from `pos` on, in order.
pub open spec fn number_tokens(s: Seq<u8>, pos: int, line: int) -> Seq<Lexed>
    decreases s.len() - pos,
    when 0 <= pos <= s.len()
{
    let (t, p, l) = scan(s, pos, line);
    proof {
        lemma_scan_bounds(s, pos, line);
    }
    if t.kind == TokenKind::Eof {
        seq![]
    } else if t.kind == TokenKind::Number {
        seq![t] + number_tokens(s, p, l)
    } else {
        number_tokens(s, p, l)
    }
}

/// The number literals of a whole source, in order.
pub open spec fn number_literals_of(s: Seq<u8>) -> Seq<Lexed> {
    number_tokens(s, 0, 1)
}

/// Input left to read, plus one while the current token is not the final `Eof`.
pub open spec fn measure(s: Seq<u8>, st: PState) -> nat {
    ((s.len() - st.pos) + if st.current.kind == TokenKind::Eof && st.pos == s.len() {
        0int
    } else {
        1int
    }) as nat
}

/// Records the first error; later ones are suppressed.
pub open spec fn report(st: PState, t: Lexed, message: Message) -> PState {
    if st.panic {
        st
    } else {
        PState { panic: true, error: Some(error_at(t, message)), ..st }
    }
}

/// Scans into `current`, reporting and skipping error tokens.
pub open spec fn scan_loop(s: Seq<u8>, st: PState) -> PState
    decreases s.len() - st.pos,
    when 0 <= st.pos <= s.len()
{
    let (t, p, l) = scan(s, st.pos, st.line);
    let next = PState { current: t, pos: p, line: l, ..st };
    proof {
        lemma_scan_bounds(s, st.pos, st.line);
    }
    if t.kind == TokenKind::Error {
        scan_loop(s, report(next, t, Message::Lex(t.error.unwrap())))
    } else {
        next
    }
}

pub open spec fn advance(s: Seq<u8>, st: PState) -> PState {
    scan_loop(
        s,
        PState {
            previous: st.current,
            numerals: st.numerals + if st.current.kind == TokenKind::Number {
                1int
            } else {
                0int
            },
            ..st
        },
    )
}

pub open spec fn consume(s: Seq<u8>, st: PState, kind: TokenKind, message: Message) -> PState {
    if st.current.kind == kind {
        advance(s, st)
    } else {
        report(st, st.current, message)
    }
}

pub open spec fn emit(st: PState, b: u8) -> PState {
    PState { code: st.code.push(b), lines: st.lines.push(st.previous.line as usize), ..st }
}

pub open spec fn emit_op(st: PState, op: Opcode) -> PState {
    emit(st, opcode_byte(op))
}

/// Adds a constant and emits `Constant <index>`; with the table full, reports
/// the overflow and emits index 0.
pub open spec fn emit_constant(st: PState, v: Value) -> PState {
    if st.constants.len() < MAX_CONSTANTS {
        emit(
            emit_op(PState { constants: st.constants.push(v), ..st }, Opcode::Constant),
            st.constants.len() as u8,
        )
    } else {
        emit(emit_op(report(st, st.previous, Message::TooManyConstants), Opcode::Constant), 0)
    }
}

pub open spec fn emit_binary(st: PState, kind: TokenKind) -> PState {
    let ops = binary_ops(kind);
    if ops.len() == 1 {
        emit_op(st, ops[0])
    } else if ops.len() == 2 {
        emit_op(emit_op(st, ops[0]), ops[1])
    } else {
        st
    }
}

pub open spec fn literal(st: PState) -> PState {
    if st.previous.kind == TokenKind::True {
        emit_op(st, Opcode::True)
    } else if st.previous.kind == TokenKind::False {
        emit_op(st, Opcode::False)
    } else if st.previous.kind == TokenKind::Nil {
        emit_op(st, Opcode::Nil)
    } else {
        st
    }
}

/// Parses an expression whose operators bind at least as tightly as `prec`.
pub open spec fn parse_prec(s: Seq<u8>, nums: Seq<u32>, st: PState, prec: Precedence) -> PState
    decreases measure(s, st), 1nat,
{
    let st1 = advance(s, st);
    match rule(st1.previous.kind).prefix {
        None => report(st1, st1.previous, Message::ExpectExpression),
        Some(r) => if measure(s, st1) < measure(s, st) {
            let st2 = apply_prefix(s, nums, st1, r);
            if measure(s, st2) < measure(s, st) {
                infix_loop(s, nums, st2, prec)
            } else {
                st2
            }
        } else {
            st1
        },
    }
}

/// Applies infix rules while the current token binds at least as tightly as `prec`.
pub open spec fn infix_loop(s: Seq<u8>, nums: Seq<u32>, st: PState, prec: Precedence) -> PState
    decreases measure(s, st), 0nat,
{
    if level(prec) <= level(rule(st.current.kind).precedence) {
        let st1 = advance(s, st);
        if measure(s, st1) < measure(s, st) {
            let st2 = apply_infix(s, nums, st1);
            if measure(s, st2) < measure(s, st) {
                infix_loop(s, nums, st2, prec)
            } else {
                st2
            }
        } else {
            st1
        }
    } else {
        st
    }
}

pub open spec fn apply_prefix(s: Seq<u8>, nums: Seq<u32>, st: PState, r: PrefixRule) -> PState
    decreases measure(s, st), 2nat,
{
    match r {
        PrefixRule::Grouping => consume(
            s,
            parse_prec(s, nums, st, Precedence::Assignment),
            TokenKind::RightParen,
            Message::ExpectRightParen,
        ),
        PrefixRule::Unary => {
            let op = st.previous.kind;
            let st1 = parse_prec(s, nums, st, Precedence::Unary);
            if op == TokenKind::Minus {
                emit_op(st1, Opcode::Negate)
            } else if op == TokenKind::Bang {
                emit_op(st1, Opcode::Not)
            } else {
                st1
            }
        },
        PrefixRule::Number => emit_constant(st, Value::Number(nums[st.numerals - 1])),
        PrefixRule::Literal => literal(st),
    }
}

pub open spec fn apply_infix(s: Seq<u8>, nums: Seq<u32>, st: PState) -> PState
    decreases measure(s, st), 2nat,
{
    let op = st.previous.kind;
    let st1 = parse_prec(s, nums, st, spec_next(rule(op).precedence));
    emit_binary(st1, op)
}

/// The state before the first token is read.
pub open spec fn initial(nums: Seq<u32>) -> PState {
    PState {
        pos: 0,
        line: 1,
        current: Lexed { kind: TokenKind::Eof, start: 0, length: 0, line: 0, error: None },
        previous: Lexed { kind: TokenKind::Eof, start: 0, length: 0, line: 0, error: None },
        panic: false,
        error: None,
        code: seq![],
        lines: seq![],
        constants: seq![],
        numerals: 0,
    }
}

/// The state after compiling a whole source: one expression, then the end of
/// the input, then `Return`.
pub open spec fn compiled(s: Seq<u8>, nums: Seq<u32>) -> PState {
    let st1 = advance(s, initial(nums));
    let st2 = parse_prec(s, nums, st1, Precedence::Assignment);
    let st3 = consume(s, st2, TokenKind::Eof, Message::ExpectEnd);
    emit_op(st3, Opcode::Return)
}

/// What compiling `s` yields, the i-th number literal having the value `nums[i]`:
/// the chunk, or the first error.
pub open spec fn compile_result(s: Seq<u8>, nums: Seq<u32>) -> Result<ChunkModel, CompileError> {
    let st = compiled(s, nums);
    match st.error {
        Some(e) => Err(e),
        None => Ok(ChunkModel { code: st.code, lines: st.lines, constants: st.constants }),
    }
}


// ---------------------------------------------------------------------------
// Laws of the compiler.
// ---------------------------------------------------------------------------

/// `b` starts with `a`.
pub open spec fn extends(a: Seq<u8>, b: Seq<u8>) -> bool {
    a.len() <= b.len() && forall|i: int| 0 <= i < a.len() ==> a[i] == b[i]
}

/// The bytes of a sequence of instructions.
pub open spec fn op_bytes(ops: Seq<Opcode>) -> Seq<u8> {
    ops.map_values(|op: Opcode| opcode_byte(op))
}

/// `!=`, `>=` and `<=` compile to `==`, `<` and `>` followed by `Not`.
pub proof fn lemma_negated_comparisons()
    ensures
        binary_ops(TokenKind::BangEqual) == binary_ops(TokenKind::EqualEqual).push(Opcode::Not),
        binary_ops(TokenKind::GreaterEqual) == binary_ops(TokenKind::Less).push(Opcode::Not),
        binary_ops(TokenKind::LessEqual) == binary_ops(TokenKind::Greater).push(Opcode::Not),
{
    assert(binary_ops(TokenKind::BangEqual) =~= binary_ops(TokenKind::EqualEqual).push(Opcode::Not));
    assert(binary_ops(TokenKind::GreaterEqual) =~= binary_ops(TokenKind::Less).push(Opcode::Not));
    assert(binary_ops(TokenKind::LessEqual) =~= binary_ops(TokenKind::Greater).push(Opcode::Not));
}

proof fn lemma_scan_loop_keeps_code(s: Seq<u8>, st: PState)
    requires
        0 <= st.pos <= s.len(),
    ensures
        scan_loop(s, st).code == st.code,
        0 <= scan_loop(s, st).pos <= s.len(),
    decreases s.len() - st.pos,
{
    let (t, p, l) = scan(s, st.pos, st.line);
    lemma_scan_bounds(s, st.pos, st.line);
    if t.kind == TokenKind::Error {
        let next = PState { current: t, pos: p, line: l, ..st };
        lemma_scan_loop_keeps_code(s, report(next, t, Message::Lex(t.error.unwrap())));
    }
}

proof fn lemma_advance_keeps_code(s: Seq<u8>, st: PState)
    requires
        0 <= st.pos <= s.len(),
    ensures
        advance(s, st).code == st.code,
        0 <= advance(s, st).pos <= s.len(),
{
    lemma_scan_loop_keeps_code(
        s,
        PState {
            previous: st.current,
            numerals: st.numerals + if st.current.kind == TokenKind::Number {
                1int
            } else {
                0int
            },
            ..st
        },
    );
}

/// Parsing only appends to the code.
pub proof fn lemma_parse_prec_extends(s: Seq<u8>, nums: Seq<u32>, st: PState, prec: Precedence)
    requires
        0 <= st.pos <= s.len(),
    ensures
        extends(st.code, parse_prec(s, nums, st, prec).code),
        0 <= parse_prec(s, nums, st, prec).pos <= s.len(),
    decreases measure(s, st), 1nat,
{
    lemma_advance_keeps_code(s, st);
    let st1 = advance(s, st);
    match rule(st1.previous.kind).prefix {
        None => {},
        Some(r) => if measure(s, st1) < measure(s, st) {
            lemma_apply_prefix_extends(s, nums, st1, r);
            let st2 = apply_prefix(s, nums, st1, r);
            if measure(s, st2) < measure(s, st) {
                lemma_infix_loop_extends(s, nums, st2, prec);
            }
        },
    }
}

proof fn lemma_infix_loop_extends(s: Seq<u8>, nums: Seq<u32>, st: PState, prec: Precedence)
    requires
        0 <= st.pos <= s.len(),
    ensures
        extends(st.code, infix_loop(s, nums, st, prec).code),
        0 <= infix_loop(s, nums, st, prec).pos <= s.len(),
    decreases measure(s, st), 0nat,
{
    if level(prec) <= level(rule(st.current.kind).precedence) {
        lemma_advance_keeps_code(s, st);
        let st1 = advance(s, st);
        if measure(s, st1) < measure(s, st) {
            lemma_apply_infix_extends(s, nums, st1);
            let st2 = apply_infix(s, nums, st1);
            if measure(s, st2) < measure(s, st) {
                lemma_infix_loop_extends(s, nums, st2, prec);
            }
        }
    }
}

proof fn lemma_apply_prefix_extends(s: Seq<u8>, nums: Seq<u32>, st: PState, r: PrefixRule)
    requires
        0 <= st.pos <= s.len(),
    ensures
        extends(st.code, apply_prefix(s, nums, st, r).code),
        0 <= apply_prefix(s, nums, st, r).pos <= s.len(),
    decreases measure(s, st), 2nat,
{
    match r {
        PrefixRule::Grouping => {
            lemma_parse_prec_extends(s, nums, st, Precedence::Assignment);
            lemma_advance_keeps_code(s, parse_prec(s, nums, st, Precedence::Assignment));
        },
        PrefixRule::Unary => {
            lemma_parse_prec_extends(s, nums, st, Precedence::Unary);
        },
        _ => {},
    }
}

proof fn lemma_apply_infix_extends(s: Seq<u8>, nums: Seq<u32>, st: PState)
    requires
        0 <= st.pos <= s.len(),
    ensures
        extends(st.code, apply_infix(s, nums, st).code),
        0 <= apply_infix(s, nums, st).pos <= s.len(),
    decreases measure(s, st), 2nat,
{
    lemma_parse_prec_extends(s, nums, st, spec_next(rule(st.previous.kind).precedence));
}

/// A binary operator's operands are emitted left to right: the code already
/// emitted (ending with the left operand) is kept, the right operand's code
/// follows it, and the operator's instructions come last.
pub proof fn lemma_operands_left_to_right(s: Seq<u8>, nums: Seq<u32>, st: PState)
    requires
        0 <= st.pos <= s.len(),
        binary_ops(st.previous.kind).len() > 0,
    ensures
        ({
            let right = parse_prec(s, nums, st, spec_next(rule(st.previous.kind).precedence));
            &&& extends(st.code, right.code)
            &&& apply_infix(s, nums, st).code == right.code + op_bytes(
                binary_ops(st.previous.kind),
            )
        }),
{
    let kind = st.previous.kind;
    let right = parse_prec(s, nums, st, spec_next(rule(kind).precedence));
    lemma_parse_prec_extends(s, nums, st, spec_next(rule(kind).precedence));
    let ops = binary_ops(kind);
    if ops.len() == 1 {
        assert(emit_binary(right, kind).code =~= right.code + op_bytes(ops));
    } else {
        assert(emit_binary(right, kind).code =~= right.code + op_bytes(ops));
    }
}

// ---------------------------------------------------------------------------
// The parser.
// ---------------------------------------------------------------------------

/// Looks up a token kind in the Pratt table.
pub fn get_rule(kind: TokenKind) -> (r: ParseRule)
    ensures
        r == rule(kind),
{
    match kind {
        TokenKind::LeftParen => ParseRule {
            prefix: Some(PrefixRule::Grouping),
            infix: None,
            precedence: Precedence::Lowest,
        },
        TokenKind::Minus => ParseRule {
            prefix: Some(PrefixRule::Unary),
            infix: Some(InfixRule::Binary),
            precedence: Precedence::Term,
        },
        TokenKind::Plus => ParseRule {
            prefix: None,
            infix: Some(InfixRule::Binary),
            precedence: Precedence::Term,
        },
        TokenKind::Slash => ParseRule {
            prefix: None,
            infix: Some(InfixRule::Binary),
            precedence: Precedence::Factor,
        },
        TokenKind::Star => ParseRule {
            prefix: None,
            infix: Some(InfixRule::Binary),
            precedence: Precedence::Factor,
        },
        TokenKind::Bang => ParseRule {
            prefix: Some(PrefixRule::Unary),
            infix: None,
            precedence: Precedence::Lowest,
        },
        TokenKind::BangEqual => ParseRule {
            prefix: None,
            infix: Some(InfixRule::Binary),
            precedence: Precedence::Equality,
        },
        TokenKind::EqualEqual => ParseRule {
            prefix: None,
            infix: Some(InfixRule::Binary),
            precedence: Precedence::Equality,
        },
        TokenKind::Greater => ParseRule {
            prefix: None,
            infix: Some(InfixRule::Binary),
            precedence: Precedence::Comparison,
        },
        TokenKind::GreaterEqual => ParseRule {
            prefix: None,
            infix: Some(InfixRule::Binary),
            precedence: Precedence::Comparison,
        },
        TokenKind::Less => ParseRule {
            prefix: None,
            infix: Some(InfixRule::Binary),
            precedence: Precedence::Comparison,
        },
        TokenKind::LessEqual => ParseRule {
            prefix: None,
            infix: Some(InfixRule::Binary),
            precedence: Precedence::Comparison,
        },
        TokenKind::Number => ParseRule {
            prefix: Some(PrefixRule::Number),
            infix: None,
            precedence: Precedence::Lowest,
        },
        TokenKind::False | TokenKind::Nil | TokenKind::True => ParseRule {
            prefix: Some(PrefixRule::Literal),
            infix: None,
            precedence: Precedence::Lowest,
        },
        _ => ParseRule { prefix: None, infix: None, precedence: Precedence::Lowest },
    }
}

/// Single-pass compiler state: scanner, one token of lookahead, error flags,
/// and the chunk being emitted. `numbers[i]` is the value of the i-th number
/// literal of the source.
pub struct Parser<'a> {
    pub scanner: Scanner<'a>,
    pub current: Token<'a>,
    pub previous: Token<'a>,
    pub had_error: bool,
    pub chunk: Chunk,
    pub panic: bool,
    pub error: Option<CompileError>,
    pub numbers: &'a [u32],
    pub numerals: usize,
}

impl<'a> View for Parser<'a> {
    type V = PState;

    open spec fn view(&self) -> PState {
        PState {
            pos: self.scanner.current as int,
            line: self.scanner.line as int,
            current: self.current@,
            previous: self.previous@,
            panic: self.panic,
            error: self.error,
            code: self.chunk.code@,
            lines: self.chunk.lines@,
            constants: self.chunk.constants@,
            numerals: self.numerals as int,
        }
    }
}

impl<'a> Parser<'a> {
    pub open spec fn src(&self) -> Seq<u8> {
        self.scanner.bytes()
    }

    /// Everything but the chunk's instruction structure.
    pub open spec fn sound(&self) -> bool {
        &&& self.scanner.wf()
        &&& self.numbers@.len() <= usize::MAX
        &&& self.had_error == self.panic
        &&& self.panic == self.error.is_some()
        &&& self.chunk@.code.len() == self.chunk@.lines.len()
        &&& self.chunk@.constants.len() <= MAX_CONSTANTS
        &&& self.numerals + (if self.current.kind == TokenKind::Number {
            1int
        } else {
            0int
        }) + number_tokens(self.src(), self.scanner.current as int, self.scanner.line as int).len()
            <= self.numbers@.len()
        &&& self.previous.kind == TokenKind::Number ==> self.numerals >= 1
    }

    pub open spec fn inv(&self) -> bool {
        &&& self.sound()
        &&& self.chunk@.wf()
    }

    /// The same source and literal values.
    pub open spec fn same_input(&self, other: &Parser<'a>) -> bool {
        &&& self.scanner.source == other.scanner.source
        &&& self.numbers == other.numbers
    }

    pub fn new(source: &'a str, numbers: &'a [u32]) -> (r: Self)
        requires
            source.spec_bytes().len() < usize::MAX,
            number_literals_of(source.spec_bytes()).len() <= numbers@.len(),
        ensures
            r.inv(),
            r.scanner.source == source,
            r.numbers == numbers,
            r@ == initial(numbers@),
    {
        proof {
            assert(numbers@.len() == numbers.len());
        }
        let r = Self {
            scanner: Scanner::new(source),
            current: Token::dummy(),
            previous: Token::dummy(),
            had_error: false,
            panic: false,
            error: None,
            chunk: Chunk::new(),
            numbers,
            numerals: 0,
        };
        assert(r.chunk@.code =~= seq![]);
        assert(r.chunk@.lines =~= seq![]);
        assert(r.chunk@.constants =~= seq![]);
        r
    }

    /// Moves to the next token, reporting and skipping error tokens.
    pub fn advance(&mut self)
        requires
            old(self).sound(),
        ensures
            final(self).sound(),
            final(self).same_input(old(self)),
            final(self).chunk@ == old(self).chunk@,
            final(self).previous == old(self).current,
            final(self)@ == advance(old(self).src(), old(self)@),
            measure(old(self).src(), final(self)@) <= measure(old(self).src(), old(self)@),
            measure(old(self).src(), old(self)@) > 0 ==> measure(old(self).src(), final(self)@)
                < measure(old(self).src(), old(self)@),
    {
        let ghost s = self.src();
        let ghost pos0 = self.scanner.current as int;
        if self.current.kind == TokenKind::Number {
            self.numerals += 1;
        }
        self.previous = self.current;
        let ghost entry = self@;
        loop
            invariant_except_break
                scan_loop(s, self@) == scan_loop(s, entry),
                self.numerals + number_tokens(s, self.scanner.current as int, self.scanner.line as int).len()
                    <= self.numbers@.len(),
            invariant
                self.scanner.wf(),
                self.numbers@.len() <= usize::MAX,
                self.same_input(old(self)),
                s == self.src(),
                self.chunk@ == old(self).chunk@,
                self.chunk@.code.len() == self.chunk@.lines.len(),
                self.chunk@.constants.len() <= MAX_CONSTANTS,
                self.had_error == self.panic,
                self.panic == self.error.is_some(),
                self.previous.kind == TokenKind::Number ==> self.numerals >= 1,
                self@.previous == entry.previous,
                self.previous == old(self).current,
                self@.numerals == entry.numerals,
                pos0 <= self.scanner.current,
            ensures
                self@ == scan_loop(s, entry),
                self.numerals + (if self.current.kind == TokenKind::Number {
                    1int
                } else {
                    0int
                }) + number_tokens(s, self.scanner.current as int, self.scanner.line as int).len()
                    <= self.numbers@.len(),
                (self.current.kind == TokenKind::Eof && self.scanner.current == s.len())
                    || self.scanner.current > pos0,
            decreases s.len() - self.scanner.current,
        {
            let ghost before = self@;
            proof {
                lemma_scan_bounds(s, before.pos, before.line);
            }
            self.current = self.scanner.scan_token();
            if self.current.kind != TokenKind::Error {
                break;
            }
            assert(number_tokens(s, before.pos, before.line) == number_tokens(
                s,
                self.scanner.current as int,
                self.scanner.line as int,
            ));
            match self.current.error {
                Some(e) => self.report_error_at_current(Message::Lex(e)),
                None => {},
            }
        }
    }

    /// Advances past a token of the expected kind, or reports `message` at the current token.
    pub fn consume(&mut self, kind: TokenKind, message: Message)
        requires
            old(self).sound(),
        ensures
            final(self).sound(),
            final(self).same_input(old(self)),
            final(self).chunk@ == old(self).chunk@,
            final(self)@ == consume(old(self).src(), old(self)@, kind, message),
            measure(old(self).src(), final(self)@) <= measure(old(self).src(), old(self)@),
    {
        if self.current.kind == kind {
            self.advance();
        } else {
            self.report_error_at_current(message);
        }
    }

    /// Records an error at `token` unless one was already reported.
    pub fn report_error_at(&mut self, token: Token, message: Message)
        requires
            old(self).sound(),
        ensures
            final(self).sound(),
            final(self).same_input(old(self)),
            final(self).chunk@ == old(self).chunk@,
            final(self)@ == report(old(self)@, token@, message),
            final(self).previous == old(self).previous,
            final(self).current == old(self).current,
    {
        if self.panic {
            return;
        }
        self.panic = true;
        let locus = if token.kind == TokenKind::Eof {
            Locus::AtEnd
        } else if token.kind == TokenKind::Error {
            Locus::Bare
        } else {
            Locus::At { start: token.start, length: token.length }
        };
        self.error = Some(CompileError { line: token.line, locus, message });
        self.had_error = true;
    }

    pub fn report_error_at_current(&mut self, message: Message)
        requires
            old(self).sound(),
        ensures
            final(self).sound(),
            final(self).same_input(old(self)),
            final(self).chunk@ == old(self).chunk@,
            final(self)@ == report(old(self)@, old(self)@.current, message),
            final(self).previous == old(self).previous,
            final(self).current == old(self).current,
    {
        let token = self.current;
        self.report_error_at(token, message);
    }

    pub fn report_error(&mut self, message: Message)
        requires
            old(self).sound(),
        ensures
            final(self).sound(),
            final(self).same_input(old(self)),
            final(self).chunk@ == old(self).chunk@,
            final(self)@ == report(old(self)@, old(self)@.previous, message),
            final(self).previous == old(self).previous,
            final(self).current == old(self).current,
    {
        let token = self.previous;
        self.report_error_at(token, message);
    }

    /// Appends a byte, on the line of the previous token.
    pub fn emit_byte(&mut self, byte: u8)
        requires
            old(self).sound(),
        ensures
            final(self).sound(),
            final(self).same_input(old(self)),
            final(self)@ == emit(old(self)@, byte),
    {
        self.chunk.write(byte, self.previous.line);
    }

    /// Appends one instruction without operand.
    pub fn emit_opcode(&mut self, opcode: Opcode)
        requires
            old(self).inv(),
            opcode != Opcode::Constant,
        ensures
            final(self).inv(),
            final(self).same_input(old(self)),
            final(self)@ == emit_op(old(self)@, opcode),
    {
        let ghost code = self.chunk@.code;
        let ghost n = self.chunk@.constants.len() as int;
        self.emit_byte(opcode.to_byte());
        proof {
            let tail = seq![opcode_byte(opcode)];
            assert(valid_from(tail, 1, n));
            assert(valid_from(tail, 0, n));
            lemma_valid_append(code, tail, 0, n);
            assert(code + tail =~= self.chunk@.code);
        }
    }

    pub fn emit_bytes(&mut self, byte1: u8, byte2: u8)
        requires
            old(self).sound(),
        ensures
            final(self).sound(),
            final(self).same_input(old(self)),
            final(self)@ == emit(emit(old(self)@, byte1), byte2),
    {
        self.emit_byte(byte1);
        self.emit_byte(byte2);
    }

    /// Finishes the chunk with `Return`.
    pub fn end(&mut self)
        requires
            old(self).inv(),
        ensures
            final(self).inv(),
            final(self).same_input(old(self)),
            final(self)@ == emit_op(old(self)@, Opcode::Return),
    {
        self.emit_opcode(Opcode::Return);
    }

    pub fn expression(&mut self)
        requires
            old(self).inv(),
        ensures
            final(self).inv(),
            final(self).same_input(old(self)),
            final(self)@ == parse_prec(
                old(self).src(),
                old(self).numbers@,
                old(self)@,
                Precedence::Assignment,
            ),
            measure(old(self).src(), final(self)@) <= measure(old(self).src(), old(self)@),
        decreases measure(old(self).src(), old(self)@), 2nat,
    {
        self.parse_precedence(Precedence::Assignment);
    }

    /// Emits the number literal just read as a constant.
    pub fn number(&mut self)
        requires
            old(self).inv(),
            old(self).previous.kind == TokenKind::Number,
        ensures
            final(self).inv(),
            final(self).same_input(old(self)),
            final(self)@ == emit_constant(
                old(self)@,
                Value::Number(old(self).numbers@[old(self).numerals - 1]),
            ),
    {
        let value = Value::Number(self.numbers[self.numerals - 1]);
        self.emit_constant(value);
    }

    /// Parses the inside of parentheses whose `(` was just read.
    pub fn grouping(&mut self)
        requires
            old(self).inv(),
        ensures
            final(self).inv(),
            final(self).same_input(old(self)),
            final(self)@ == apply_prefix(
                old(self).src(),
                old(self).numbers@,
                old(self)@,
                PrefixRule::Grouping,
            ),
            measure(old(self).src(), final(self)@) <= measure(old(self).src(), old(self)@),
        decreases measure(old(self).src(), old(self)@), 3nat,
    {
        self.expression();
        self.consume(TokenKind::RightParen, Message::ExpectRightParen);
    }

    /// Parses the operand of a prefix `-` or `!` just read, then emits the operator.
    pub fn unary(&mut self)
        requires
            old(self).inv(),
        ensures
            final(self).inv(),
            final(self).same_input(old(self)),
            final(self)@ == apply_prefix(
                old(self).src(),
                old(self).numbers@,
                old(self)@,
                PrefixRule::Unary,
            ),
            measure(old(self).src(), final(self)@) <= measure(old(self).src(), old(self)@),
        decreases measure(old(self).src(), old(self)@), 2nat,
    {
        let token_type = self.previous.kind;
        self.parse_precedence(Precedence::Unary);
        if token_type == TokenKind::Minus {
            self.emit_opcode(Opcode::Negate);
        } else if token_type == TokenKind::Bang {
            self.emit_opcode(Opcode::Not);
        }
    }

    /// Parses the right operand of the binary operator just read, then emits the operator.
    pub fn binary(&mut self)
        requires
            old(self).inv(),
        ensures
            final(self).inv(),
            final(self).same_input(old(self)),
            final(self)@ == apply_infix(old(self).src(), old(self).numbers@, old(self)@),
            measure(old(self).src(), final(self)@) <= measure(old(self).src(), old(self)@),
        decreases measure(old(self).src(), old(self)@), 2nat,
    {
        let operator_type = self.previous.kind;
        let rule = get_rule(operator_type);
        self.parse_precedence(rule.precedence.next());
        match operator_type {
            TokenKind::Plus => self.emit_opcode(Opcode::Add),
            TokenKind::Minus => self.emit_opcode(Opcode::Subtract),
            TokenKind::Star => self.emit_opcode(Opcode::Multiply),
            TokenKind::Slash => self.emit_opcode(Opcode::Divide),
            TokenKind::BangEqual => {
                self.emit_opcode(Opcode::Equal);
                self.emit_opcode(Opcode::Not);
            },
            TokenKind::EqualEqual => self.emit_opcode(Opcode::Equal),
            TokenKind::Greater => self.emit_opcode(Opcode::Greater),
            TokenKind::GreaterEqual => {
                self.emit_opcode(Opcode::Less);
                self.emit_opcode(Opcode::Not);
            },
            TokenKind::Less => self.emit_opcode(Opcode::Less),
            TokenKind::LessEqual => {
                self.emit_opcode(Opcode::Greater);
                self.emit_opcode(Opcode::Not);
            },
            _ => {},
        }
    }

    /// Adds `value` to the constants and emits `Constant <index>`.
    pub fn emit_constant(&mut self, value: Value)
        requires
            old(self).inv(),
        ensures
            final(self).inv(),
            final(self).same_input(old(self)),
            final(self)@ == emit_constant(old(self)@, value),
    {
        let ghost code = self.chunk@.code;
        let ghost n = self.chunk@.constants.len() as int;
        let constant = self.make_constant(value);
        self.emit_bytes(Opcode::Constant.to_byte(), constant);
        proof {
            let m = self.chunk@.constants.len() as int;
            let tail = seq![opcode_byte(Opcode::Constant), constant];
            assert(valid_from(tail, 2, m));
            assert(valid_from(tail, 0, m));
            lemma_valid_grow(code, 0, n, m);
            lemma_valid_append(code, tail, 0, m);
            assert(code + tail =~= self.chunk@.code);
        }
    }

    /// Adds a constant and returns its index; when the table is full, reports
    /// the overflow and returns 0.
    pub fn make_constant(&mut self, value: Value) -> (r: u8)
        requires
            old(self).sound(),
        ensures
            final(self).sound(),
            final(self).same_input(old(self)),
            final(self).chunk@.code == old(self).chunk@.code,
            (r as int) < final(self).chunk@.constants.len(),
            old(self)@.constants.len() < MAX_CONSTANTS ==> r == old(self)@.constants.len()
                && final(self)@ == (PState {
                constants: old(self)@.constants.push(value),
                ..old(self)@
            }),
            old(self)@.constants.len() >= MAX_CONSTANTS ==> r == 0 && final(self)@ == report(
                old(self)@,
                old(self)@.previous,
                Message::TooManyConstants,
            ),
    {
        match self.chunk.add_constant(value) {
            Some(index) => index,
            None => {
                self.report_error(Message::TooManyConstants);
                0
            },
        }
    }

    /// Parses an expression whose operators bind at least as tightly as `precedence`.
    #[verifier::rlimit(50)]
    pub fn parse_precedence(&mut self, precedence: Precedence)
        requires
            old(self).inv(),
            precedence != Precedence::Lowest,
        ensures
            final(self).inv(),
            final(self).same_input(old(self)),
            final(self)@ == parse_prec(old(self).src(), old(self).numbers@, old(self)@, precedence),
            measure(old(self).src(), final(self)@) <= measure(old(self).src(), old(self)@),
        decreases measure(old(self).src(), old(self)@), 1nat,
    {
        let ghost s = self.src();
        let ghost nums = self.numbers@;
        let ghost st0 = self@;
        self.advance();
        let ghost st1 = self@;
        let prefix_rule = get_rule(self.previous.kind).prefix;
        match prefix_rule {
            None => {
                self.report_error(Message::ExpectExpression);
                return;
            },
            Some(PrefixRule::Grouping) => self.grouping(),
            Some(PrefixRule::Unary) => self.unary(),
            Some(PrefixRule::Number) => self.number(),
            Some(PrefixRule::Literal) => self.literal(),
        }
        assert(measure(s, st1) < measure(s, st0));
        while precedence.level() <= get_rule(self.current.kind).precedence.level()
            invariant
                self.inv(),
                self.same_input(old(self)),
                s == self.src(),
                nums == self.numbers@,
                precedence != Precedence::Lowest,
                st0 == old(self)@,
                s == old(self).src(),
                nums == old(self).numbers@,
                measure(s, self@) < measure(s, st0),
                infix_loop(s, nums, self@, precedence) == parse_prec(s, nums, st0, precedence),
            decreases measure(s, self@),
        {
            let ghost st = self@;
            assert(st.current.kind != TokenKind::Eof);
            self.advance();
            let ghost st1 = self@;
            assert(measure(s, st1) < measure(s, st));
            let infix_rule = get_rule(self.previous.kind).infix;
            match infix_rule {
                Some(InfixRule::Binary) => self.binary(),
                None => {},
            }
        }
    }

    /// Emits the literal `true`, `false` or `nil` just read.
    pub fn literal(&mut self)
        requires
            old(self).inv(),
        ensures
            final(self).inv(),
            final(self).same_input(old(self)),
            final(self)@ == literal(old(self)@),
    {
        match self.previous.kind {
            TokenKind::True => self.emit_opcode(Opcode::True),
            TokenKind::False => self.emit_opcode(Opcode::False),
            TokenKind::Nil => self.emit_opcode(Opcode::Nil),
            _ => {},
        }
    }
}

// ---------------------------------------------------------------------------
// The compiler.
// ---------------------------------------------------------------------------

/// Compiles one source into a chunk.
pub struct Compiler<'a> {
    pub parser: Parser<'a>,
}

impl<'a> Compiler<'a> {
    pub fn new(source: &'a str, numbers: &'a [u32]) -> (r: Self)
        requires
            source.spec_bytes().len() < usize::MAX,
            number_literals_of(source.spec_bytes()).len() <= numbers@.len(),
        ensures
            r.parser.inv(),
            r.parser.scanner.source == source,
            r.parser.numbers == numbers,
            r.parser@ == initial(numbers@),
    {
        Self { parser: Parser::new(source, numbers) }
    }

    /// Compiles the whole source: one expression, then the end of input. Returns
    /// the chunk, or the first error reported.
    pub fn compile(&mut self) -> (r: Result<Chunk, CompileError>)
        requires
            old(self).parser.inv(),
            old(self).parser@ == initial(old(self).parser.numbers@),
        ensures
            r matches Ok(c) ==> compile_result(
                old(self).parser.src(),
                old(self).parser.numbers@,
            ) == Ok::<ChunkModel, CompileError>(c@) && c@.wf(),
            r matches Err(e) ==> compile_result(
                old(self).parser.src(),
                old(self).parser.numbers@,
            ) == Err::<ChunkModel, CompileError>(e),
    {
        self.parser.advance();
        self.parser.expression();
        self.parser.consume(TokenKind::Eof, Message::ExpectEnd);
        self.parser.end();
        match self.parser.error {
            Some(e) => Err(e),
            None => {
                let mut chunk = Chunk::new();
                std::mem::swap(&mut chunk, &mut self.parser.chunk);
                Ok(chunk)
            },
        }
    }
}

/// Compiles `source`, where `numbers[i]` is the value (single-precision bits) of
/// the i-th number literal of the source (see `number_literals`).
pub fn compile(source: &str, numbers: &[u32]) -> (r: Result<Chunk, CompileError>)
    requires
        source.spec_bytes().len() < usize::MAX,
        number_literals_of(source.spec_bytes()).len() <= numbers@.len(),
    ensures
        r matches Ok(c) ==> compile_result(source.spec_bytes(), numbers@) == Ok::<
            ChunkModel,
            CompileError,
        >(c@) && c@.wf(),
        r matches Err(e) ==> compile_result(source.spec_bytes(), numbers@) == Err::<
            ChunkModel,
            CompileError,
        >(e),
{
    let mut compiler = Compiler::new(source, numbers);
    compiler.compile()
}

/// The number literal tokens of `source`, in order.
pub fn number_literals<'a>(source: &'a str) -> (r: Vec<Token<'a>>)
    requires
        source.spec_bytes().len() < usize::MAX,
    ensures
        r@.map_values(|t: Token<'a>| t@) == number_literals_of(source.spec_bytes()),
        forall|i: int| 0 <= i < r@.len() ==> (#[trigger] r@[i]).source == source,
{
    let ghost s = source.spec_bytes();
    let mut scanner = Scanner::new(source);
    let mut found: Vec<Token<'a>> = Vec::new();
    loop
        invariant
            scanner.wf(),
            scanner.source == source,
            s == scanner.bytes(),
            found@.map_values(|t: Token<'a>| t@) + number_tokens(
                s,
                scanner.current as int,
                scanner.line as int,
            ) == number_literals_of(s),
            forall|i: int| 0 <= i < found@.len() ==> (#[trigger] found@[i]).source == source,
        decreases s.len() - scanner.current,
    {
        let ghost pos = scanner.current as int;
        let ghost line = scanner.line as int;
        proof {
            lemma_scan_bounds(s, pos, line);
        }
        let token = scanner.scan_token();
        if token.kind == TokenKind::Eof {
            assert(found@.map_values(|t: Token<'a>| t@) + number_tokens(s, pos, line) =~= found@.map_values(|t: Token<'a>| t@));
            return found;
        }
        if token.kind == TokenKind::Number {
            let ghost before = found@;
            found.push(token);
            assert(found@.map_values(|t: Token<'a>| t@) =~= before.map_values(|t: Token<'a>| t@) + seq![token@]);
            assert(found@.map_values(|t: Token<'a>| t@) + number_tokens(s, scanner.current as int, scanner.line as int)
                =~= before.map_values(|t: Token<'a>| t@) + number_tokens(s, pos, line));
        }
    }
}

/// Compilation is deterministic: the same source and literal values give the
/// same chunk, byte for byte, or the same error.
pub proof fn lemma_compile_deterministic(
    s: Seq<u8>,
    nums: Seq<u32>,
    r1: Result<ChunkModel, CompileError>,
    r2: Result<ChunkModel, CompileError>,
)
    requires
        r1 == compile_result(s, nums),
        r2 == compile_result(s, nums),
    ensures
        r1 == r2,
{
}

} // verus!
