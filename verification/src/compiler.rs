//! The single-pass Pratt compiler: it consumes tokens and emits bytecode
//! directly into chunks, keeping a stack of per-function compilers for
//! nested functions, locals, upvalues and classes.
use vstd::prelude::*;
use vstd::string::{StrSliceExecFns, StringSliceAdditionalSpecFns};

use crate::chunk::{op_code_byte, spec_u16_of, Chunk, OpCode, CONSTANTS_MAX};
use crate::error::{append_bytes, CompilerError};
use crate::heap::{lemma_extends_wf, Heap, Obj, ObjFunction};
use crate::scanner::tokenize;
use crate::token::{Token, TokenType};
use crate::value::Value;

verus! {

/// How many locals or upvalues one function can have: slots are one byte.
pub const SLOTS_MAX: usize = 256;

/// A local variable of the function being compiled. `depth == -1` marks a
/// declared variable whose initializer is still running.
pub struct Local {
    pub name: Vec<u8>,
    pub depth: i32,
    pub is_captured: bool,
}

impl Local {
    /// The synthetic slot-zero local that every function reserves: methods
    /// and initializers name it `this`, other functions leave it nameless.
    pub fn null(name: Vec<u8>) -> (r: Local)
        ensures
            r.name == name,
            r.depth == 0,
            !r.is_captured,
    {
        Local { name, depth: 0, is_captured: false }
    }
}

/// An upvalue descriptor of the function being compiled: `is_local` says the
/// index names a slot of the enclosing function, otherwise one of its
/// upvalues.
#[derive(Debug, Clone, Copy, PartialEq, Eq, Structural)]
pub struct Upvalue {
    pub index: u8,
    pub is_local: bool,
}

impl Upvalue {
    /// A descriptor from its parts.
    pub fn new(index: u8, is_local: bool) -> (r: Upvalue)
        ensures
            r.index == index,
            r.is_local == is_local,
    {
        Upvalue { index, is_local }
    }
}

/// The locals from position `l` to the end all belong to the scope being
/// declared in: each is uninitialized or bound at least as deep as `scope`.
/// Duplicate detection looks exactly this far back.
pub open spec fn spec_scope_tail(locals: Seq<Local>, l: int, scope: int) -> bool {
    forall|m: int|
        l <= m < locals.len() ==> ((#[trigger] locals[m]).depth == -1 || locals[m].depth >= scope)
}

/// Whether a compiler holds a local with the given name, at any depth.
pub open spec fn spec_local_in(c: Compiler, name: Seq<u8>) -> bool {
    exists|i: int| 0 <= i < c.locals@.len() && (#[trigger] c.locals@[i]).name@ == name
}

/// What kind of function a compiler builds.
#[derive(Debug, Clone, Copy, PartialEq, Eq, Structural)]
pub enum FunctionType {
    Function,
    Script,
    Method,
    Initializer,
}

/// The per-function state of the compiler stack.
pub struct Compiler {
    pub chunk: Chunk,
    pub ftype: FunctionType,
    pub arity: u8,
    pub name: Vec<u8>,
    pub locals: Vec<Local>,
    pub upvalues: Vec<Upvalue>,
    pub scope_depth: i32,
}

/// A compiler's own limits: a well-formed chunk and one-byte slot counts.
pub open spec fn compiler_wf(c: Compiler) -> bool {
    &&& c.chunk.wf()
    &&& c.locals@.len() <= SLOTS_MAX
    &&& c.upvalues@.len() <= SLOTS_MAX
    &&& c.scope_depth >= 0
}

impl Compiler {
    /// A fresh compiler for one function. Slot zero is reserved: methods and
    /// initializers bind it to `this`.
    pub fn new(ftype: FunctionType, name: Vec<u8>) -> (r: Compiler)
        ensures
            compiler_wf(r),
            r.ftype == ftype,
            r.name == name,
            r.arity == 0,
            r.chunk.code@.len() == 0,
            r.chunk.constants@.len() == 0,
            r.upvalues@.len() == 0,
            r.scope_depth == 0,
    {
        let slot_zero_name: Vec<u8> = if ftype == FunctionType::Method || ftype
            == FunctionType::Initializer {
            "this".as_bytes_vec()
        } else {
            Vec::new()
        };
        let mut locals: Vec<Local> = Vec::new();
        locals.push(Local::null(slot_zero_name));
        Compiler {
            chunk: Chunk::new(),
            ftype,
            arity: 0,
            name,
            locals,
            upvalues: Vec::new(),
            scope_depth: 0,
        }
    }
}

/// The state of a `class` declaration being compiled.
pub struct ClassState {
    pub has_super_class: bool,
}

/// Compares two byte strings.
pub fn bytes_eq(a: &Vec<u8>, b: &Vec<u8>) -> (r: bool)
    ensures
        r == (a@ == b@),
{
    if a.len() != b.len() {
        return false;
    }
    let n = a.len();
    let mut i: usize = 0;
    while i < n
        invariant
            i <= n,
            n == a@.len() == b@.len(),
            forall|j: int| 0 <= j < i ==> a@[j] == b@[j],
        decreases n - i,
    {
        if a[i] != b[i] {
            return false;
        }
        i = i + 1;
    }
    proof {
        assert(a@ =~= b@);
    }
    true
}

/// The integer value of a numeric lexeme: its leading decimal digits,
/// saturating at the largest number; any fraction is cut off.
/// The saturating decimal fold of a numeric lexeme: digits accumulate until
/// the first non-digit byte; a value past the integer limit saturates there.
pub open spec fn spec_number_value(lex: Seq<u8>, i: int, acc: int) -> int
    decreases lex.len() - i when 0 <= i <= lex.len()
{
    if i >= lex.len() {
        acc
    } else if !(48 <= lex[i] <= 57) {
        acc
    } else if acc <= (i64::MAX - (lex[i] - 48)) / 10 {
        spec_number_value(lex, i + 1, acc * 10 + (lex[i] - 48))
    } else {
        i64::MAX as int
    }
}

pub fn parse_number(lexeme: &Vec<u8>) -> (r: i64)
    ensures
        r as int == spec_number_value(lexeme@, 0, 0),
{
    let mut acc: i64 = 0;
    let mut i: usize = 0;
    let n = lexeme.len();
    while i < n
        invariant
            i <= n,
            n == lexeme@.len(),
            acc >= 0,
            spec_number_value(lexeme@, 0, 0) == spec_number_value(lexeme@, i as int, acc as int),
        decreases n - i,
    {
        let c = lexeme[i];
        if !(c >= 48 && c <= 57) {
            return acc;
        }
        let d = (c - 48) as i64;
        if acc <= (i64::MAX - d) / 10 {
            acc = acc * 10 + d;
        } else {
            return i64::MAX;
        }
        i = i + 1;
    }
    acc
}

/// The ladder of infix binding strengths.
#[derive(Debug, Clone, Copy, PartialEq, Eq, Structural)]
pub enum Precedence {
    Lowest,
    Assignment,
    Or,
    And,
    Equality,
    Comparison,
    Term,
    Factor,
    Unary,
    Call,
    Primary,
}

/// The numeric level of a precedence, for comparisons.
pub open spec fn spec_prec_level(p: Precedence) -> int {
    match p {
        Precedence::Lowest => 0,
        Precedence::Assignment => 1,
        Precedence::Or => 2,
        Precedence::And => 3,
        Precedence::Equality => 4,
        Precedence::Comparison => 5,
        Precedence::Term => 6,
        Precedence::Factor => 7,
        Precedence::Unary => 8,
        Precedence::Call => 9,
        Precedence::Primary => 10,
    }
}

impl Precedence {
    /// The numeric level, for comparing binding strengths.
    pub fn level(self) -> (r: u8)
        ensures
            r as int == spec_prec_level(self),
    {
        match self {
            Precedence::Lowest => 0,
            Precedence::Assignment => 1,
            Precedence::Or => 2,
            Precedence::And => 3,
            Precedence::Equality => 4,
            Precedence::Comparison => 5,
            Precedence::Term => 6,
            Precedence::Factor => 7,
            Precedence::Unary => 8,
            Precedence::Call => 9,
            Precedence::Primary => 10,
        }
    }

    /// The next stronger precedence.
    pub fn add_one(self) -> (r: Precedence)
        ensures
            spec_prec_level(r) == if spec_prec_level(self) < 10 {
                spec_prec_level(self) + 1
            } else {
                10int
            },
    {
        match self {
            Precedence::Lowest => Precedence::Assignment,
            Precedence::Assignment => Precedence::Or,
            Precedence::Or => Precedence::And,
            Precedence::And => Precedence::Equality,
            Precedence::Equality => Precedence::Comparison,
            Precedence::Comparison => Precedence::Term,
            Precedence::Term => Precedence::Factor,
            Precedence::Factor => Precedence::Unary,
            Precedence::Unary => Precedence::Call,
            Precedence::Call => Precedence::Primary,
            Precedence::Primary => Precedence::Primary,
        }
    }
}

/// The prefix rules of the parse table.
#[derive(Debug, Clone, Copy, PartialEq, Eq, Structural)]
pub enum PrefixRule {
    Grouping,
    Unary,
    Variable,
    Number,
    Text,
    Literal,
    ThisRule,
    SuperRule,
    NoRule,
}

/// The infix rules of the parse table.
#[derive(Debug, Clone, Copy, PartialEq, Eq, Structural)]
pub enum InfixRule {
    Binary,
    AndRule,
    OrRule,
    CallRule,
    DotRule,
    NoRule,
}

/// The infix precedence the parse table assigns to a token kind.
pub open spec fn spec_rule_precedence(id: TokenType) -> Precedence {
    match id {
        TokenType::LeftParen => Precedence::Call,
        TokenType::Dot => Precedence::Call,
        TokenType::Minus => Precedence::Term,
        TokenType::Plus => Precedence::Term,
        TokenType::Slash => Precedence::Factor,
        TokenType::Star => Precedence::Factor,
        TokenType::BangEqual => Precedence::Equality,
        TokenType::EqualEqual => Precedence::Equality,
        TokenType::Greater => Precedence::Comparison,
        TokenType::GreaterEqual => Precedence::Comparison,
        TokenType::Less => Precedence::Comparison,
        TokenType::LessEqual => Precedence::Comparison,
        TokenType::And => Precedence::And,
        TokenType::Or => Precedence::Or,
        _ => Precedence::Lowest,
    }
}

/// The prefix rule the parse table assigns to a token kind.
pub open spec fn spec_rule_prefix(id: TokenType) -> PrefixRule {
    match id {
        TokenType::LeftParen => PrefixRule::Grouping,
        TokenType::Minus => PrefixRule::Unary,
        TokenType::Bang => PrefixRule::Unary,
        TokenType::Identifier => PrefixRule::Variable,
        TokenType::String => PrefixRule::Text,
        TokenType::Number => PrefixRule::Number,
        TokenType::False => PrefixRule::Literal,
        TokenType::Nil => PrefixRule::Literal,
        TokenType::True => PrefixRule::Literal,
        TokenType::Super => PrefixRule::SuperRule,
        TokenType::This => PrefixRule::ThisRule,
        _ => PrefixRule::NoRule,
    }
}

/// The infix rule the parse table assigns to a token kind.
pub open spec fn spec_rule_infix(id: TokenType) -> InfixRule {
    match id {
        TokenType::LeftParen => InfixRule::CallRule,
        TokenType::Dot => InfixRule::DotRule,
        TokenType::Minus => InfixRule::Binary,
        TokenType::Plus => InfixRule::Binary,
        TokenType::Slash => InfixRule::Binary,
        TokenType::Star => InfixRule::Binary,
        TokenType::BangEqual => InfixRule::Binary,
        TokenType::EqualEqual => InfixRule::Binary,
        TokenType::Greater => InfixRule::Binary,
        TokenType::GreaterEqual => InfixRule::Binary,
        TokenType::Less => InfixRule::Binary,
        TokenType::LessEqual => InfixRule::Binary,
        TokenType::And => InfixRule::AndRule,
        TokenType::Or => InfixRule::OrRule,
        _ => InfixRule::NoRule,
    }
}

/// The parse table: each token kind's prefix rule, infix rule, and infix
/// precedence.
pub fn get_rule(id: TokenType) -> (r: (PrefixRule, InfixRule, Precedence))
    ensures
        r.0 == spec_rule_prefix(id),
        r.1 == spec_rule_infix(id),
        r.2 == spec_rule_precedence(id),
        id == TokenType::EOF ==> r.0 == PrefixRule::NoRule && r.1 == InfixRule::NoRule,
{
    match id {
        TokenType::LeftParen => (PrefixRule::Grouping, InfixRule::CallRule, Precedence::Call),
        TokenType::Dot => (PrefixRule::NoRule, InfixRule::DotRule, Precedence::Call),
        TokenType::Minus => (PrefixRule::Unary, InfixRule::Binary, Precedence::Term),
        TokenType::Plus => (PrefixRule::NoRule, InfixRule::Binary, Precedence::Term),
        TokenType::Slash => (PrefixRule::NoRule, InfixRule::Binary, Precedence::Factor),
        TokenType::Star => (PrefixRule::NoRule, InfixRule::Binary, Precedence::Factor),
        TokenType::Bang => (PrefixRule::Unary, InfixRule::NoRule, Precedence::Lowest),
        TokenType::BangEqual => (PrefixRule::NoRule, InfixRule::Binary, Precedence::Equality),
        TokenType::EqualEqual => (PrefixRule::NoRule, InfixRule::Binary, Precedence::Equality),
        TokenType::Greater => (PrefixRule::NoRule, InfixRule::Binary, Precedence::Comparison),
        TokenType::GreaterEqual => (PrefixRule::NoRule, InfixRule::Binary, Precedence::Comparison),
        TokenType::Less => (PrefixRule::NoRule, InfixRule::Binary, Precedence::Comparison),
        TokenType::LessEqual => (PrefixRule::NoRule, InfixRule::Binary, Precedence::Comparison),
        TokenType::Identifier => (PrefixRule::Variable, InfixRule::NoRule, Precedence::Lowest),
        TokenType::String => (PrefixRule::Text, InfixRule::NoRule, Precedence::Lowest),
        TokenType::Number => (PrefixRule::Number, InfixRule::NoRule, Precedence::Lowest),
        TokenType::And => (PrefixRule::NoRule, InfixRule::AndRule, Precedence::And),
        TokenType::False => (PrefixRule::Literal, InfixRule::NoRule, Precedence::Lowest),
        TokenType::Nil => (PrefixRule::Literal, InfixRule::NoRule, Precedence::Lowest),
        TokenType::Or => (PrefixRule::NoRule, InfixRule::OrRule, Precedence::Or),
        TokenType::Super => (PrefixRule::SuperRule, InfixRule::NoRule, Precedence::Lowest),
        TokenType::This => (PrefixRule::ThisRule, InfixRule::NoRule, Precedence::Lowest),
        TokenType::True => (PrefixRule::Literal, InfixRule::NoRule, Precedence::Lowest),
        _ => (PrefixRule::NoRule, InfixRule::NoRule, Precedence::Lowest),
    }
}

/// The parser: the token stream and its cursor, the compiler stack, the
/// class nesting, the heap the compiled program allocates into, and the
/// first diagnostic raised.
pub struct Parser {
    pub tokens: Vec<Token>,
    pub pos: usize,
    pub prev: usize,
    pub compilers: Vec<Compiler>,
    pub classes: Vec<ClassState>,
    pub heap: Heap,
    pub had_error: bool,
    pub first_error: Option<CompilerError>,
}

impl Parser {
    /// The token the parser is looking at.
    pub open spec fn cur(self) -> Token {
        self.tokens@[self.pos as int]
    }

    /// The kind of the token the parser is looking at.
    pub open spec fn cur_id(self) -> TokenType {
        self.cur().id
    }

    /// The most recently consumed token.
    pub open spec fn prev_tok(self) -> Token {
        self.tokens@[self.prev as int]
    }

    /// How many tokens are left, the measure every parse function shrinks.
    pub open spec fn remaining(self) -> int {
        self.tokens@.len() - self.pos
    }

    /// The parser's invariant: the stream ends in its only end-of-stream
    /// token, the cursor is inside it, at least the script compiler is open,
    /// every open compiler is within its limits, its constants are live in
    /// the heap, and the heap is well-formed.
    pub open spec fn wf(self) -> bool {
        &&& self.tokens@.len() >= 1
        &&& self.tokens@[self.tokens@.len() - 1].id == TokenType::EOF
        &&& forall|i: int| 0 <= i < self.tokens@.len() - 1 ==> self.tokens@[i].id != TokenType::EOF
        &&& self.pos < self.tokens@.len()
        &&& self.prev <= self.pos
        &&& self.compilers@.len() >= 1
        &&& forall|k: int|
            0 <= k < self.compilers@.len() ==> compiler_wf(#[trigger] self.compilers@[k])
        &&& forall|k: int, ci: int|
            0 <= k < self.compilers@.len() && 0 <= ci < (#[trigger] self.compilers@[k]).chunk.constants@.len()
                ==> self.heap.valid_value(#[trigger] self.compilers@[k].chunk.constants@[ci])
        &&& self.heap.wf()
    }

    /// What every parse step guarantees: the token stream is fixed, the
    /// cursor only moves forward, the heap only grows, and the compiler and
    /// class stacks end as deep as they began.
    pub open spec fn progressed(self, from: Parser) -> bool {
        &&& self.tokens == from.tokens
        &&& self.pos >= from.pos
        &&& self.heap.extends(from.heap)
        &&& self.heap.globals == from.heap.globals
        &&& self.heap.strings@.len() >= from.heap.strings@.len()
        &&& self.compilers@.len() == from.compilers@.len()
        &&& self.classes@.len() == from.classes@.len()
    }

    /// A parser at the start of a token stream, compiling the script.
    pub fn new(tokens: Vec<Token>, heap: Heap) -> (r: Parser)
        requires
            heap.wf(),
            tokens@.len() >= 1,
            tokens@[tokens@.len() - 1].id == TokenType::EOF,
            forall|i: int| 0 <= i < tokens@.len() - 1 ==> tokens@[i].id != TokenType::EOF,
        ensures
            r.wf(),
            r.tokens == tokens,
            r.pos == 0,
            r.heap == heap,
            !r.had_error,
            r.compilers@.len() == 1,
            r.classes@.len() == 0,
    {
        let mut compilers: Vec<Compiler> = Vec::new();
        compilers.push(Compiler::new(FunctionType::Script, Vec::new()));
        Parser {
            tokens,
            pos: 0,
            prev: 0,
            compilers,
            classes: Vec::new(),
            heap,
            had_error: false,
            first_error: None,
        }
    }

    /// Records a diagnostic at a token; only the first one is kept for the
    /// caller of `compile`, as the outcome of the whole compilation.
    fn raise(&mut self, at: usize, message: Vec<u8>) -> (e: CompilerError)
        requires
            old(self).wf(),
            at < old(self).tokens@.len(),
        ensures
            final(self).wf(),
            *final(self) == (Parser {
                had_error: true,
                first_error: final(self).first_error,
                ..*old(self)
            }),
            final(self).progressed(*old(self)),
            e.message == message,
            e.line == old(self).tokens@[at as int].line,
    {
        let at_end = self.tokens[at].id == TokenType::EOF;
        let line = self.tokens[at].line;
        let e = if at_end {
            CompilerError::new(None, message, line)
        } else {
            CompilerError::new(Some(&self.tokens[at]), message, line)
        };
        if !self.had_error {
            self.had_error = true;
            self.first_error = Some(e.clone());
        }
        e
    }

    /// A diagnostic at the most recently consumed token.
    fn error(&mut self, message: Vec<u8>) -> (e: CompilerError)
        requires
            old(self).wf(),
        ensures
            final(self).wf(),
            *final(self) == (Parser {
                had_error: true,
                first_error: final(self).first_error,
                ..*old(self)
            }),
            final(self).progressed(*old(self)),
            e.message == message,
    {
        let at = self.prev;
        self.raise(at, message)
    }

    /// A diagnostic at the token being looked at.
    fn error_at_current(&mut self, message: Vec<u8>) -> (e: CompilerError)
        requires
            old(self).wf(),
        ensures
            final(self).wf(),
            *final(self) == (Parser {
                had_error: true,
                first_error: final(self).first_error,
                ..*old(self)
            }),
            final(self).progressed(*old(self)),
            e.message == message,
    {
        let at = self.pos;
        self.raise(at, message)
    }

    /// Consumes the token being looked at. A scanner error token is
    /// reported as a diagnostic at the point it is consumed.
    fn advance(&mut self) -> (r: Result<(), CompilerError>)
        requires
            old(self).wf(),
        ensures
            final(self).wf(),
            final(self).progressed(*old(self)),
            final(self).compilers == old(self).compilers,
            final(self).heap == old(self).heap,
            final(self).prev == old(self).pos,
            old(self).cur_id() != TokenType::EOF ==> final(self).pos == old(self).pos + 1,
            old(self).cur_id() == TokenType::EOF ==> final(self).pos == old(self).pos,
            r is Ok ==> old(self).cur_id() != TokenType::Error,
            old(self).cur_id() != TokenType::Error ==> r is Ok,
            final(self).prev_tok() == old(self).cur(),
    {
        let _bound = self.tokens.len();
        self.prev = self.pos;
        if self.tokens[self.pos].id != TokenType::EOF {
            self.pos = self.pos + 1;
        }
        if self.tokens[self.prev].id == TokenType::Error {
            let mut message: Vec<u8> = Vec::new();
            append_bytes(&mut message, &self.tokens[self.prev].lexeme);
            let at = self.prev;
            let e = self.raise(at, message);
            return Err(e);
        }
        Ok(())
    }

    /// The compiler on top of the stack: the function being compiled.
    pub open spec fn top(self) -> Compiler {
        self.compilers@.last()
    }

    /// The code of the chunk being emitted into.
    pub open spec fn top_code(self) -> Seq<u8> {
        self.top().chunk.code@
    }

    /// The constant pool of the chunk being emitted into.
    pub open spec fn top_constants(self) -> Seq<Value> {
        self.top().chunk.constants@
    }

    /// Only the chunk of the compiler on top changed between `from` and
    /// `self`; its constant pool may only have grown.
    pub open spec fn only_top_chunk_changed(self, from: Parser) -> bool {
        &&& from.compilers@.len() >= 1
        &&& self.tokens == from.tokens
        &&& self.pos == from.pos
        &&& self.prev == from.prev
        &&& self.heap == from.heap
        &&& self.classes == from.classes
        &&& self.had_error == from.had_error
        &&& self.first_error == from.first_error
        &&& self.compilers@ == from.compilers@.update(
            from.compilers@.len() - 1,
            Compiler { chunk: self.top().chunk, ..from.top() },
        )
        &&& self.top_constants().len() >= from.top_constants().len()
    }

    /// Appends one byte to the chunk being emitted into, at the line of the
    /// most recently consumed token.
    fn emit_byte(&mut self, byte: u8)
        requires
            old(self).wf(),
        ensures
            final(self).wf(),
            final(self).progressed(*old(self)),
            final(self).only_top_chunk_changed(*old(self)),
            final(self).top_code() == old(self).top_code().push(byte),
            final(self).top().chunk.constants == old(self).top().chunk.constants,
            final(self).top().chunk.spec_lines() == old(self).top().chunk.spec_lines().push(
                old(self).prev_tok().line,
            ),
    {
        let line = self.tokens[self.prev].line;
        let k = self.compilers.len() - 1;
        self.compilers[k].chunk.write(byte, line);
    }

    /// The chunks of the compilers below the top are untouched: emission
    /// always goes to the function being compiled.
    pub open spec fn lower_chunks_same(self, from: Parser) -> bool {
        forall|k: int|
            0 <= k < self.compilers@.len() - 1 ==> (#[trigger] self.compilers@[k]).chunk
                == from.compilers@[k].chunk
    }

    /// The compiler stack below the top is untouched.
    pub open spec fn rest_same(self, from: Parser) -> bool {
        &&& self.compilers@.len() == from.compilers@.len()
        &&& forall|k: int|
            0 <= k < self.compilers@.len() - 1 ==> #[trigger] self.compilers@[k]
                == from.compilers@[k]
    }

    /// A copy of the lexeme of the token at `at`.
    fn lexeme_at(&self, at: usize) -> (r: Vec<u8>)
        requires
            self.wf(),
            at < self.tokens@.len(),
        ensures
            r@ == self.tokens@[at as int].lexeme@,
    {
        let mut out: Vec<u8> = Vec::new();
        append_bytes(&mut out, &self.tokens[at].lexeme);
        proof {
            assert(out@ =~= self.tokens@[at as int].lexeme@);
        }
        out
    }

    /// A copy of the lexeme of the most recently consumed token.
    fn prev_lexeme(&self) -> (r: Vec<u8>)
        requires
            self.wf(),
        ensures
            r@ == self.prev_tok().lexeme@,
    {
        let at = self.prev;
        self.lexeme_at(at)
    }

    /// Only the top chunk changing composes: two such steps are one.
    proof fn lemma_top_chunk_trans(self, mid: Parser, from: Parser)
        requires
            mid.only_top_chunk_changed(from),
            self.only_top_chunk_changed(mid),
        ensures
            self.only_top_chunk_changed(from),
    {
        assert(self.compilers@ =~= from.compilers@.update(
            from.compilers@.len() - 1,
            Compiler { chunk: self.top().chunk, ..from.top() },
        ));
    }

    /// Appends one opcode to the chunk being emitted into.
    fn emit_op(&mut self, op: OpCode)
        requires
            old(self).wf(),
        ensures
            final(self).wf(),
            final(self).progressed(*old(self)),
            final(self).only_top_chunk_changed(*old(self)),
            final(self).top_code() == old(self).top_code().push(op_code_byte(op)),
            final(self).top().chunk.constants == old(self).top().chunk.constants,
    {
        let b = op.to_byte();
        self.emit_byte(b);
    }

    /// Appends one byte, composing the top-chunk framing with an earlier
    /// step whose state is given as `mid_from`.
    fn emit_byte_chained(&mut self, byte: u8, Ghost(mid_from): Ghost<Parser>)
        requires
            old(self).wf(),
            old(self).only_top_chunk_changed(mid_from),
        ensures
            final(self).wf(),
            final(self).progressed(mid_from),
            final(self).only_top_chunk_changed(mid_from),
            final(self).top_code() == old(self).top_code().push(byte),
            final(self).top().chunk.constants == old(self).top().chunk.constants,
            final(self).top().chunk.spec_lines() == old(self).top().chunk.spec_lines().push(
                old(self).prev_tok().line,
            ),
    {
        self.emit_byte(byte);
        proof {
            self.lemma_top_chunk_trans(*old(self), mid_from);
        }
    }

    /// Appends two opcodes.
    fn emit_ops(&mut self, op1: OpCode, op2: OpCode)
        requires
            old(self).wf(),
        ensures
            final(self).wf(),
            final(self).progressed(*old(self)),
            final(self).only_top_chunk_changed(*old(self)),
            final(self).top_code() == old(self).top_code().push(op_code_byte(op1)).push(
                op_code_byte(op2),
            ),
            final(self).top().chunk.constants == old(self).top().chunk.constants,
    {
        let b1 = op1.to_byte();
        let b2 = op2.to_byte();
        self.emit_byte(b1);
        self.emit_byte_chained(b2, Ghost(*old(self)));
    }

    /// Appends an opcode and its one-byte operand.
    fn emit_op_byte(&mut self, op: OpCode, operand: u8)
        requires
            old(self).wf(),
        ensures
            final(self).wf(),
            final(self).progressed(*old(self)),
            final(self).only_top_chunk_changed(*old(self)),
            final(self).top_code() == old(self).top_code().push(op_code_byte(op)).push(operand),
            final(self).top().chunk.constants == old(self).top().chunk.constants,
    {
        let b = op.to_byte();
        self.emit_byte(b);
        self.emit_byte_chained(operand, Ghost(*old(self)));
    }

    /// Emits the implicit return of a function body: an initializer returns
    /// `this` (slot zero), everything else returns nil.
    fn emit_return(&mut self)
        requires
            old(self).wf(),
        ensures
            final(self).wf(),
            final(self).progressed(*old(self)),
            final(self).only_top_chunk_changed(*old(self)),
            final(self).top().chunk.constants == old(self).top().chunk.constants,
            final(self).top_code().len() >= old(self).top_code().len(),
            old(self).top().ftype != FunctionType::Initializer ==> final(self).top_code() == old(
                self,
            ).top_code().push(op_code_byte(OpCode::Nil)).push(op_code_byte(OpCode::Return)),
            old(self).top().ftype == FunctionType::Initializer ==> final(self).top_code() == old(
                self,
            ).top_code().push(op_code_byte(OpCode::GetLocal)).push(0).push(
                op_code_byte(OpCode::Return),
            ),
    {
        let k = self.compilers.len() - 1;
        if self.compilers[k].ftype == FunctionType::Initializer {
            self.emit_op_byte(OpCode::GetLocal, 0);
        } else {
            self.emit_op(OpCode::Nil);
        }
        let b = OpCode::Return.to_byte();
        self.emit_byte_chained(b, Ghost(*old(self)));
    }

    /// Emits a jump with a placeholder distance and returns the offset of
    /// its two operand bytes, for `patch_jump` to fill in later.
    fn emit_jump(&mut self, op: OpCode) -> (r: usize)
        requires
            old(self).wf(),
        ensures
            final(self).wf(),
            final(self).progressed(*old(self)),
            final(self).only_top_chunk_changed(*old(self)),
            final(self).top_code() == old(self).top_code().push(op_code_byte(op)).push(255).push(
                255,
            ),
            final(self).top().chunk.constants == old(self).top().chunk.constants,
            r + 2 == final(self).top_code().len(),
            r == old(self).top_code().len() + 1,
    {
        let b = op.to_byte();
        self.emit_byte(b);
        self.emit_byte_chained(255, Ghost(*old(self)));
        self.emit_byte_chained(255, Ghost(*old(self)));
        let k = self.compilers.len() - 1;
        self.compilers[k].chunk.code.len() - 2
    }

    /// Overwrites the placeholder of the jump whose operand bytes sit at
    /// `offset` so that the jump lands just past the code emitted so far:
    /// the patched distance is the code length minus `offset + 2`, which the
    /// dispatch loop adds to the cursor after reading the operand.
    fn patch_jump(&mut self, offset: usize) -> (r: Result<(), CompilerError>)
        requires
            old(self).wf(),
            offset + 2 <= old(self).top_code().len(),
        ensures
            final(self).wf(),
            final(self).progressed(*old(self)),
            final(self).rest_same(*old(self)),
            final(self).pos == old(self).pos,
            final(self).heap == old(self).heap,
            final(self).top_code().len() == old(self).top_code().len(),
            final(self).top().chunk.constants == old(self).top().chunk.constants,
            r is Ok ==> spec_u16_of(
                final(self).top_code()[offset as int],
                final(self).top_code()[offset + 1],
            ) == final(self).top_code().len() - offset - 2,
            r is Ok ==> forall|i: int|
                0 <= i < final(self).top_code().len() && i != offset && i != offset + 1
                    ==> final(self).top_code()[i] == old(self).top_code()[i],
            r is Err ==> final(self).top_code() == old(self).top_code(),
            r is Ok <==> old(self).top_code().len() - offset - 2 <= 65535,
            r matches Err(e) ==> e.message@ == "Too much code to jump over.".spec_bytes(),
    {
        let k = self.compilers.len() - 1;
        let len = self.compilers[k].chunk.code.len();
        let jump = len - offset - 2;
        if jump > 65535 {
            let e = self.error("Too much code to jump over.".as_bytes_vec());
            return Err(e);
        }
        self.compilers[k].chunk.patch_u16(offset, jump as u16);
        Ok(())
    }

    /// Emits a backward jump to `loop_start`: the operand is the distance
    /// from just past the operand bytes back to the loop head.
    fn emit_loop(&mut self, loop_start: usize) -> (r: Result<(), CompilerError>)
        requires
            old(self).wf(),
            loop_start <= old(self).top_code().len(),
        ensures
            final(self).wf(),
            final(self).progressed(*old(self)),
            final(self).rest_same(*old(self)),
            final(self).pos == old(self).pos,
            final(self).heap == old(self).heap,
            final(self).top().chunk.constants == old(self).top().chunk.constants,
            final(self).top_code().len() >= old(self).top_code().len(),
            r is Err ==> final(self).top_code() == old(self).top_code(),
            r is Ok <==> old(self).top_code().len() - loop_start <= 65532,
            r matches Err(e) ==> e.message@ == "Loop body too large.".spec_bytes(),
            r is Ok ==> final(self).top_code().len() == old(self).top_code().len() + 3
                && final(self).top_code()[old(self).top_code().len() as int] == op_code_byte(
                OpCode::Loop,
            ) && spec_u16_of(
                final(self).top_code()[old(self).top_code().len() as int + 1],
                final(self).top_code()[old(self).top_code().len() as int + 2],
            ) == final(self).top_code().len() - loop_start,
    {
        let k = self.compilers.len() - 1;
        let len = self.compilers[k].chunk.code.len();
        // The operand spans the Loop opcode, its two operand bytes, and the
        // code back to the loop head.
        let distance = len - loop_start;
        if distance > 65532 {
            let e = self.error("Loop body too large.".as_bytes_vec());
            return Err(e);
        }
        let operand = (distance + 3) as u16;
        let b = OpCode::Loop.to_byte();
        self.emit_byte(b);
        self.emit_byte_chained((operand / 256) as u8, Ghost(*old(self)));
        self.emit_byte_chained((operand % 256) as u8, Ghost(*old(self)));
        proof {
            let hi = (operand / 256) as u8;
            let lo = (operand % 256) as u8;
            assert(spec_u16_of(hi, lo) == operand) by (bit_vector)
                requires
                    hi == (operand / 256) as u8 && lo == (operand % 256) as u8,
            ;
            assert(self.top_code() =~= old(self).top_code().push(op_code_byte(OpCode::Loop)).push(
                hi,
            ).push(lo));
            assert(self.top_code()[old(self).top_code().len() as int] == op_code_byte(
                OpCode::Loop,
            ));
            assert(self.top_code()[old(self).top_code().len() as int + 1] == hi);
            assert(self.top_code()[old(self).top_code().len() as int + 2] == lo);
        }
        Ok(())
    }

    /// Appends a value to the constant pool of the chunk being emitted into
    /// and returns its one-byte index; a full pool is a diagnostic.
    fn make_constant(&mut self, v: Value) -> (r: Result<u8, CompilerError>)
        requires
            old(self).wf(),
            old(self).heap.valid_value(v),
        ensures
            final(self).wf(),
            final(self).progressed(*old(self)),
            final(self).rest_same(*old(self)),
            final(self).pos == old(self).pos,
            final(self).heap == old(self).heap,
            final(self).top_code() == old(self).top_code(),
            r matches Ok(idx) ==> final(self).top_constants() == old(self).top_constants().push(v)
                && idx as int == old(self).top_constants().len(),
            r is Err ==> final(self).top_constants() == old(self).top_constants(),
            r is Err <==> old(self).top_constants().len() >= CONSTANTS_MAX,
            r matches Err(e) ==> e.message@ == "Too many constants in one chunk.".spec_bytes(),
    {
        let k = self.compilers.len() - 1;
        if self.compilers[k].chunk.constants.len() >= CONSTANTS_MAX {
            let e = self.error("Too many constants in one chunk.".as_bytes_vec());
            return Err(e);
        }
        let idx = self.compilers[k].chunk.constant(v);
        Ok(idx)
    }

    /// Emits a constant-load instruction for a fresh constant-pool entry.
    fn emit_constant(&mut self, v: Value) -> (r: Result<(), CompilerError>)
        requires
            old(self).wf(),
            old(self).heap.valid_value(v),
        ensures
            final(self).wf(),
            final(self).progressed(*old(self)),
            final(self).rest_same(*old(self)),
            final(self).pos == old(self).pos,
            final(self).heap == old(self).heap,
            final(self).top_code().len() >= old(self).top_code().len(),
            r is Err <==> old(self).top_constants().len() >= CONSTANTS_MAX,
            r is Ok ==> final(self).top_code() == old(self).top_code().push(
                op_code_byte(OpCode::Constant),
            ).push(old(self).top_constants().len() as u8) && final(self).top_constants() == old(
                self,
            ).top_constants().push(v),
            r is Err ==> final(self).top_code() == old(self).top_code() && final(self).top_constants() == old(self).top_constants(),
    {
        let idx = match self.make_constant(v) {
            Ok(idx) => idx,
            Err(e) => {
                return Err(e);
            },
        };
        self.emit_op_byte(OpCode::Constant, idx);
        proof {
            assert(self.heap.extends(old(self).heap));
        }
        Ok(())
    }

    /// Interns an identifier and appends it to the constant pool, returning
    /// the constant's index.
    fn identifier_constant(&mut self, name: Vec<u8>) -> (r: Result<u8, CompilerError>)
        requires
            old(self).wf(),
        ensures
            final(self).wf(),
            final(self).progressed(*old(self)),
            final(self).rest_same(*old(self)),
            final(self).pos == old(self).pos,
            final(self).top_code() == old(self).top_code(),
            r is Ok ==> final(self).top_constants().len() == old(self).top_constants().len() + 1,
            r matches Ok(idx) ==> idx as int == old(self).top_constants().len() && final(self).top_constants().drop_last() == old(self).top_constants() && (match final(self).top_constants().last() {
                Value::Object(sobj) => final(self).heap.is_str(sobj as int) && final(self).heap.str_chars(sobj as int) == name@,
                _ => false,
            }),
    {
        let obj = self.heap.intern_string(name);
        proof {
            lemma_extends_wf(old(self).heap, self.heap);
            assert forall|k: int, ci: int|
                0 <= k < self.compilers@.len() && 0 <= ci < (
                #[trigger] self.compilers@[k]).chunk.constants@.len() implies self.heap.valid_value(
                #[trigger] self.compilers@[k].chunk.constants@[ci],
            ) by {
                assert(old(self).heap.valid_value(self.compilers@[k].chunk.constants@[ci]));
            }
        }
        self.make_constant(Value::Object(obj))
    }

    /// Opens a lexical scope.
    fn begin_scope(&mut self)
        requires
            old(self).wf(),
        ensures
            final(self).wf(),
            final(self).progressed(*old(self)),
            final(self).rest_same(*old(self)),
            final(self).pos == old(self).pos,
            final(self).heap == old(self).heap,
            final(self).top().chunk == old(self).top().chunk,
    {
        let k = self.compilers.len() - 1;
        if self.compilers[k].scope_depth < i32::MAX {
            self.compilers[k].scope_depth = self.compilers[k].scope_depth + 1;
        }
    }

    /// Closes the current lexical scope: locals declared in it are popped,
    /// captured ones by closing their upvalue.
    fn end_scope(&mut self)
        requires
            old(self).wf(),
        ensures
            final(self).wf(),
            final(self).progressed(*old(self)),
            final(self).rest_same(*old(self)),
            final(self).pos == old(self).pos,
            final(self).heap == old(self).heap,
            final(self).top().chunk.constants == old(self).top().chunk.constants,
            final(self).top_code().len() >= old(self).top_code().len(),
            final(self).top().scope_depth == if old(self).top().scope_depth > 0 {
                old(self).top().scope_depth - 1
            } else {
                old(self).top().scope_depth as int
            },
            // The scope's own locals leave the table, and one instruction
            // drops (or closes) each of their stack slots.
            final(self).top().locals@ == old(self).top().locals@.take(
                final(self).top().locals@.len() as int,
            ),
            final(self).top().locals@.len() == 0 || final(self).top().locals@.last().depth
                <= final(self).top().scope_depth,
            final(self).top_code().len() == old(self).top_code().len() + old(
                self,
            ).top().locals@.len() - final(self).top().locals@.len(),
            forall|j: int|
                0 <= j < old(self).top_code().len() ==> #[trigger] final(self).top_code()[j] == old(
                    self,
                ).top_code()[j],
            // Innermost first: a captured local's slot closes into its
            // upvalue, any other is simply popped.
            forall|d: int|
                0 <= d < old(self).top().locals@.len() - final(self).top().locals@.len()
                    ==> final(self).top_code()[old(self).top_code().len() + d] == (if (
                #[trigger] old(self).top().locals@[old(self).top().locals@.len() - 1
                    - d]).is_captured {
                    op_code_byte(OpCode::CloseUpvalue)
                } else {
                    op_code_byte(OpCode::Pop)
                }),
    {
        let k = self.compilers.len() - 1;
        if self.compilers[k].scope_depth > 0 {
            self.compilers[k].scope_depth = self.compilers[k].scope_depth - 1;
        }
        proof {
            assert(old(self).top().locals@.take(old(self).top().locals@.len() as int) =~= old(
                self,
            ).top().locals@);
        }
        loop
            invariant
                self.wf(),
                self.progressed(*old(self)),
                self.rest_same(*old(self)),
                self.pos == old(self).pos,
                self.heap == old(self).heap,
                self.top().chunk.constants == old(self).top().chunk.constants,
                self.top_code().len() >= old(self).top_code().len(),
                self.top().scope_depth == if old(self).top().scope_depth > 0 {
                    old(self).top().scope_depth - 1
                } else {
                    old(self).top().scope_depth as int
                },
                self.top().locals@ == old(self).top().locals@.take(
                    self.top().locals@.len() as int,
                ),
                self.top_code().len() == old(self).top_code().len() + old(
                    self,
                ).top().locals@.len() - self.top().locals@.len(),
                forall|j: int|
                    0 <= j < old(self).top_code().len() ==> #[trigger] self.top_code()[j] == old(
                        self,
                    ).top_code()[j],
                forall|d: int|
                    0 <= d < old(self).top().locals@.len() - self.top().locals@.len()
                        ==> self.top_code()[old(self).top_code().len() + d] == (if (
                    #[trigger] old(self).top().locals@[old(self).top().locals@.len() - 1
                        - d]).is_captured {
                        op_code_byte(OpCode::CloseUpvalue)
                    } else {
                        op_code_byte(OpCode::Pop)
                    }),
            ensures
                self.top().locals@.len() == 0 || self.top().locals@.last().depth
                    <= self.top().scope_depth,
                self.top().locals@ == old(self).top().locals@.take(self.top().locals@.len() as int),
                self.top_code().len() == old(self).top_code().len() + old(
                    self,
                ).top().locals@.len() - self.top().locals@.len(),
                forall|j: int|
                    0 <= j < old(self).top_code().len() ==> #[trigger] self.top_code()[j] == old(
                        self,
                    ).top_code()[j],
                forall|d: int|
                    0 <= d < old(self).top().locals@.len() - self.top().locals@.len()
                        ==> self.top_code()[old(self).top_code().len() + d] == (if (
                    #[trigger] old(self).top().locals@[old(self).top().locals@.len() - 1
                        - d]).is_captured {
                        op_code_byte(OpCode::CloseUpvalue)
                    } else {
                        op_code_byte(OpCode::Pop)
                    }),
            decreases self.top().locals@.len(),
        {
            let k = self.compilers.len() - 1;
            let count = self.compilers[k].locals.len();
            if count == 0 {
                break;
            }
            if self.compilers[k].locals[count - 1].depth <= self.compilers[k].scope_depth {
                break;
            }
            let ghost pre_code = self.top_code();
            if self.compilers[k].locals[count - 1].is_captured {
                self.emit_op(OpCode::CloseUpvalue);
            } else {
                self.emit_op(OpCode::Pop);
            }
            proof {
                assert(self.top_code() == pre_code.push(
                    self.top_code()[self.top_code().len() - 1],
                ));
            }
            let k2 = self.compilers.len() - 1;
            let ghost pre_locals = self.top().locals@;
            self.compilers[k2].locals.pop();
            proof {
                assert(self.top().locals@ =~= pre_locals.drop_last());
                assert(self.top().locals@ =~= old(self).top().locals@.take(
                    self.top().locals@.len() as int,
                ));
            }
        }
    }

    /// Declares a local in the current scope; `depth == -1` marks it
    /// uninitialized until its initializer ran.
    fn add_local(&mut self, name: Vec<u8>) -> (r: Result<(), CompilerError>)
        requires
            old(self).wf(),
        ensures
            final(self).wf(),
            final(self).progressed(*old(self)),
            final(self).rest_same(*old(self)),
            final(self).pos == old(self).pos,
            final(self).heap == old(self).heap,
            final(self).top().chunk == old(self).top().chunk,
            r is Ok <==> old(self).top().locals@.len() < SLOTS_MAX,
            r matches Err(e) ==> e.message@
                == "Too many local variables in function.".spec_bytes(),
            r is Ok ==> final(self).top().locals@.len() == old(self).top().locals@.len() + 1
                && final(self).top().locals@.last().name@ == name@ && final(self).top().locals@.last().depth == -1 && final(self).top().locals@.drop_last() == old(
                self,
            ).top().locals@,
    {
        let k = self.compilers.len() - 1;
        if self.compilers[k].locals.len() >= SLOTS_MAX {
            let e = self.error("Too many local variables in function.".as_bytes_vec());
            return Err(e);
        }
        self.compilers[k].locals.push(Local { name, depth: -1, is_captured: false });
        Ok(())
    }

    /// Marks the most recently declared local as initialized, binding it at
    /// the current scope depth. At script scope there is nothing to mark.
    fn mark_initialized(&mut self)
        requires
            old(self).wf(),
        ensures
            final(self).wf(),
            final(self).progressed(*old(self)),
            final(self).rest_same(*old(self)),
            final(self).pos == old(self).pos,
            final(self).heap == old(self).heap,
            final(self).top().chunk == old(self).top().chunk,
            final(self).top().scope_depth == old(self).top().scope_depth,
            old(self).top().scope_depth == 0 || old(self).top().locals@.len() == 0 ==> *final(self)
                == *old(self),
            old(self).top().scope_depth != 0 && old(self).top().locals@.len() > 0 ==> final(self).top().locals@.len() == old(self).top().locals@.len() && final(self).top().locals@.drop_last() == old(self).top().locals@.drop_last() && final(self).top().locals@.last().depth == old(self).top().scope_depth && final(self).top().locals@.last().name == old(self).top().locals@.last().name && final(self).top().locals@.last().is_captured == old(self).top().locals@.last().is_captured,
    {
        let k = self.compilers.len() - 1;
        if self.compilers[k].scope_depth == 0 {
            return;
        }
        let count = self.compilers[k].locals.len();
        if count > 0 {
            let depth = self.compilers[k].scope_depth;
            self.compilers[k].locals[count - 1].depth = depth;
            proof {
                assert(self.top().locals@.drop_last() =~= old(self).top().locals@.drop_last());
            }
        }
    }

    /// Resolves a name against the locals of the compiler at `level`,
    /// innermost local first. Reading a local inside its own initializer is
    /// a diagnostic.
    fn resolve_local_at(&mut self, level: usize, name: &Vec<u8>) -> (r: Result<
        Option<u8>,
        CompilerError,
    >)
        requires
            old(self).wf(),
            level < old(self).compilers@.len(),
        ensures
            final(self).wf(),
            final(self).progressed(*old(self)),
            final(self).pos == old(self).pos,
            final(self).heap == old(self).heap,
            final(self).compilers == old(self).compilers,
            final(self).top_code() == old(self).top_code(),
            r matches Ok(Some(idx)) ==> (idx as int) < old(self).compilers@[level as int].locals@.len()
                && old(self).compilers@[level as int].locals@[idx as int].name@ == name@ && old(
                self,
            ).compilers@[level as int].locals@[idx as int].depth != -1 && (forall|l: int|
                idx < l < old(self).compilers@[level as int].locals@.len() ==> old(
                    self,
                ).compilers@[level as int].locals@[l].name@ != name@),
            r == Result::<Option<u8>, CompilerError>::Ok(None) ==> forall|l: int|
                0 <= l < old(self).compilers@[level as int].locals@.len() ==> old(
                    self,
                ).compilers@[level as int].locals@[l].name@ != name@,
            r matches Err(e) ==> e.message@
                == "Cannot read local variable in its own initializer.".spec_bytes(),
            r is Err ==> spec_local_in(old(self).compilers@[level as int], name@),
    {
        let count = self.compilers[level].locals.len();
        let mut i: usize = count;
        while i > 0
            invariant
                self.wf(),
                *self == *old(self),
                level < self.compilers@.len(),
                i <= count,
                count == self.compilers@[level as int].locals@.len(),
                forall|l: int|
                    i <= l < count ==> self.compilers@[level as int].locals@[l].name@ != name@,
            decreases i,
        {
            i = i - 1;
            if bytes_eq(&self.compilers[level].locals[i].name, name) {
                if self.compilers[level].locals[i].depth == -1 {
                    let e = self.error(
                        "Cannot read local variable in its own initializer.".as_bytes_vec(),
                    );
                    return Err(e);
                }
                return Ok(Some(i as u8));
            }
        }
        Ok(None)
    }

    /// Records that a closure at `level` captures the given enclosing slot
    /// or upvalue, reusing an existing descriptor when one matches.
    fn add_upvalue(&mut self, level: usize, index: u8, is_local: bool) -> (r: Result<
        u8,
        CompilerError,
    >)
        requires
            old(self).wf(),
            level < old(self).compilers@.len(),
        ensures
            final(self).wf(),
            final(self).progressed(*old(self)),
            final(self).pos == old(self).pos,
            final(self).heap == old(self).heap,
            final(self).compilers@.len() == old(self).compilers@.len(),
            final(self).top_code() == old(self).top_code(),
            forall|k: int|
                0 <= k < final(self).compilers@.len() ==> (#[trigger] final(self).compilers@[k]).chunk
                    == old(self).compilers@[k].chunk && final(self).compilers@[k].locals == old(
                    self,
                ).compilers@[k].locals,
            forall|k: int|
                0 <= k < final(self).compilers@.len() && k != level ==> (#[trigger] final(self).compilers@[k]).upvalues == old(self).compilers@[k].upvalues,
            // The result names an equal existing descriptor (deduplicated,
            // nothing changes) or the fresh append at the old count; the
            // table is full exactly when 256 descriptors exist and none is
            // equal.
            r matches Ok(u) ==> (u as int) < final(self).compilers@[level as int].upvalues@.len()
                && final(self).compilers@[level as int].upvalues@[u as int] == (Upvalue {
                index,
                is_local,
            }) && ((final(self).compilers@[level as int].upvalues == old(
                self,
            ).compilers@[level as int].upvalues) || (u as int == old(
                self,
            ).compilers@[level as int].upvalues@.len() && final(self).compilers@[level as int].upvalues@ == old(
                self,
            ).compilers@[level as int].upvalues@.push(Upvalue { index, is_local }))),
            (exists|j: int|
                0 <= j < old(self).compilers@[level as int].upvalues@.len() && old(
                    self,
                ).compilers@[level as int].upvalues@[j] == (Upvalue { index, is_local })) ==> final(self).compilers@[level as int].upvalues == old(self).compilers@[level as int].upvalues,
            r is Err <==> old(self).compilers@[level as int].upvalues@.len() >= SLOTS_MAX && (
            forall|j: int|
                0 <= j < old(self).compilers@[level as int].upvalues@.len() ==> old(
                    self,
                ).compilers@[level as int].upvalues@[j] != (Upvalue { index, is_local })),
            r matches Err(e) ==> e.message@
                == "Too many closure variables in function.".spec_bytes() && final(self).compilers@[level as int].upvalues == old(self).compilers@[level as int].upvalues,
    {
        let count = self.compilers[level].upvalues.len();
        let mut i: usize = 0;
        while i < count
            invariant
                self.wf(),
                *self == *old(self),
                level < self.compilers@.len(),
                i <= count,
                count == self.compilers@[level as int].upvalues@.len(),
                forall|j: int|
                    0 <= j < i ==> self.compilers@[level as int].upvalues@[j] != (Upvalue {
                        index,
                        is_local,
                    }),
            decreases count - i,
        {
            let uv = self.compilers[level].upvalues[i];
            if uv.index == index && uv.is_local == is_local {
                return Ok(i as u8);
            }
            i = i + 1;
        }
        if count >= SLOTS_MAX {
            let e = self.error("Too many closure variables in function.".as_bytes_vec());
            return Err(e);
        }
        self.compilers[level].upvalues.push(Upvalue { index, is_local });
        Ok(count as u8)
    }

    /// Resolves a name against the enclosing functions: a matching local
    /// there is marked captured and chained inward as upvalues, one
    /// descriptor per intervening function.
    fn resolve_upvalue(&mut self, level: usize, name: &Vec<u8>) -> (r: Result<
        Option<u8>,
        CompilerError,
    >)
        requires
            old(self).wf(),
            level < old(self).compilers@.len(),
        ensures
            final(self).wf(),
            final(self).progressed(*old(self)),
            final(self).pos == old(self).pos,
            final(self).heap == old(self).heap,
            final(self).compilers@.len() == old(self).compilers@.len(),
            final(self).top_code() == old(self).top_code(),
            forall|k: int|
                0 <= k < final(self).compilers@.len() ==> (#[trigger] final(self).compilers@[k]).chunk
                    == old(self).compilers@[k].chunk && final(self).compilers@[k].locals@.len()
                    == old(self).compilers@[k].locals@.len(),
            // The name resolves to no enclosing local exactly when no
            // compiler below this one holds a local of that name.
            r == Result::<Option<u8>, CompilerError>::Ok(None) <==> (forall|k: int|
                0 <= k < level ==> !spec_local_in(#[trigger] old(self).compilers@[k], name@)),
            // Resolution never renames, re-binds or drops a local: it can
            // only mark one captured; and descriptors are only added.
            forall|k: int, l: int|
                0 <= k < final(self).compilers@.len() && 0 <= l < final(self).compilers@[k].locals@.len() ==> (#[trigger] final(self).compilers@[k].locals@[l]).name == old(self).compilers@[k].locals@[l].name
                    && final(self).compilers@[k].locals@[l].depth == old(
                    self,
                ).compilers@[k].locals@[l].depth && (old(self).compilers@[k].locals@[l].is_captured
                    ==> final(self).compilers@[k].locals@[l].is_captured),
            forall|k: int|
                0 <= k < final(self).compilers@.len() ==> (#[trigger] old(
                    self,
                ).compilers@[k].upvalues@).is_prefix_of(final(self).compilers@[k].upvalues@),
            // A successful resolution hands back a descriptor of this
            // compiler: one that captures an initialized local of that name
            // in the directly enclosing function — now marked captured — or
            // one that chains to an upvalue of the enclosing function.
            r matches Ok(Some(u)) ==> level > 0 && (u as int) < final(self).compilers@[level as int].upvalues@.len() && (match final(self).compilers@[level as int].upvalues@[u as int] {
                Upvalue { index, is_local } => if is_local {
                    &&& (index as int) < final(self).compilers@[level - 1].locals@.len()
                    &&& final(self).compilers@[level - 1].locals@[index as int].name@ == name@
                    &&& final(self).compilers@[level - 1].locals@[index as int].depth != -1
                    &&& final(self).compilers@[level - 1].locals@[index as int].is_captured
                } else {
                    (index as int) < final(self).compilers@[level - 1].upvalues@.len()
                },
            }),
        decreases level,
    {
        if level == 0 {
            return Ok(None);
        }
        let enclosing = level - 1;
        let found = match self.resolve_local_at(enclosing, name) {
            Ok(f) => f,
            Err(e) => {
                return Err(e);
            },
        };
        if let Some(slot) = found {
            let lc = self.compilers[enclosing].locals.len();
            if (slot as usize) < lc {
                self.compilers[enclosing].locals[slot as usize].is_captured = true;
            }
            let uv = match self.add_upvalue(level, slot, true) {
                Ok(uv) => uv,
                Err(e) => {
                    return Err(e);
                },
            };
            return Ok(Some(uv));
        }
        let found_up = match self.resolve_upvalue(enclosing, name) {
            Ok(f) => f,
            Err(e) => {
                return Err(e);
            },
        };
        if let Some(uv_index) = found_up {
            let uv = match self.add_upvalue(level, uv_index, false) {
                Ok(uv) => uv,
                Err(e) => {
                    return Err(e);
                },
            };
            return Ok(Some(uv));
        }
        Ok(None)
    }

    /// Emits the instruction that brings a declared variable into being: a
    /// local is marked initialized, a global is defined by name.
    fn define_variable(&mut self, global: u8)
        requires
            old(self).wf(),
        ensures
            final(self).wf(),
            final(self).progressed(*old(self)),
            final(self).rest_same(*old(self)),
            final(self).pos == old(self).pos,
            final(self).heap == old(self).heap,
            final(self).top_code().len() >= old(self).top_code().len(),
            old(self).top().scope_depth == 0 ==> final(self).top_code() == old(
                self,
            ).top_code().push(op_code_byte(OpCode::DefineGlobal)).push(global),
            old(self).top().scope_depth > 0 ==> final(self).top_code() == old(self).top_code(),
            final(self).top().scope_depth == old(self).top().scope_depth,
            final(self).top().chunk.constants == old(self).top().chunk.constants,
    {
        let k = self.compilers.len() - 1;
        if self.compilers[k].scope_depth > 0 {
            self.mark_initialized();
            return;
        }
        self.emit_op_byte(OpCode::DefineGlobal, global);
    }

    /// Declares the just-parsed identifier as a local of the current scope;
    /// re-declaring a name in the same scope is a diagnostic. At script
    /// scope globals are late-bound and nothing is declared.
    fn declare_variable(&mut self) -> (r: Result<(), CompilerError>)
        requires
            old(self).wf(),
        ensures
            final(self).wf(),
            final(self).progressed(*old(self)),
            final(self).rest_same(*old(self)),
            final(self).pos == old(self).pos,
            final(self).heap == old(self).heap,
            final(self).top().chunk == old(self).top().chunk,
            old(self).top().scope_depth == 0 ==> r is Ok && *final(self) == *old(self),
            r matches Err(e) ==> e.message@
                == "Already a variable with this name in this scope.".spec_bytes() || e.message@
                == "Too many local variables in function.".spec_bytes(),
            // A name already declared in the scope being built is exactly the
            // re-declaration diagnostic; otherwise the identifier becomes a
            // fresh uninitialized local, unless the table is full.
            old(self).top().scope_depth != 0 && (exists|l: int|
                0 <= l < old(self).top().locals@.len() && spec_scope_tail(
                    old(self).top().locals@,
                    l,
                    old(self).top().scope_depth as int,
                ) && old(self).top().locals@[l].name@ == old(self).prev_tok().lexeme@) ==> (
            r matches Err(e) && e.message@
                == "Already a variable with this name in this scope.".spec_bytes()),
            old(self).top().scope_depth != 0 && !(exists|l: int|
                0 <= l < old(self).top().locals@.len() && spec_scope_tail(
                    old(self).top().locals@,
                    l,
                    old(self).top().scope_depth as int,
                ) && old(self).top().locals@[l].name@ == old(self).prev_tok().lexeme@) && old(
                self,
            ).top().locals@.len() < SLOTS_MAX ==> r is Ok && final(self).top().locals@.len() == old(
                self,
            ).top().locals@.len() + 1 && final(self).top().locals@.drop_last() == old(
                self,
            ).top().locals@ && final(self).top().locals@.last().name@ == old(
                self,
            ).prev_tok().lexeme@ && final(self).top().locals@.last().depth == -1,
            old(self).top().scope_depth != 0 && !(exists|l: int|
                0 <= l < old(self).top().locals@.len() && spec_scope_tail(
                    old(self).top().locals@,
                    l,
                    old(self).top().scope_depth as int,
                ) && old(self).top().locals@[l].name@ == old(self).prev_tok().lexeme@) && old(
                self,
            ).top().locals@.len() >= SLOTS_MAX ==> (r matches Err(e) && e.message@
                == "Too many local variables in function.".spec_bytes()),
    {
        let k = self.compilers.len() - 1;
        if self.compilers[k].scope_depth == 0 {
            return Ok(());
        }
        proof {
            assert(old(self).top().scope_depth != 0);
        }
        let name = self.prev_lexeme();
        let count = self.compilers[k].locals.len();
        let mut i: usize = count;
        while i > 0
            invariant_except_break
                forall|m: int|
                    i <= m < count ==> ((#[trigger] old(self).top().locals@[m]).depth == -1 || old(
                        self,
                    ).top().locals@[m].depth >= old(self).top().scope_depth) && old(
                        self,
                    ).top().locals@[m].name@ != name@,
            invariant
                self.wf(),
                *self == *old(self),
                old(self).top().scope_depth != 0,
                k == self.compilers@.len() - 1,
                i <= count,
                count == self.compilers@[k as int].locals@.len(),
                name@ == self.prev_tok().lexeme@,
                name@ == old(self).prev_tok().lexeme@,
            ensures
                !(exists|l: int|
                    0 <= l < old(self).top().locals@.len() && spec_scope_tail(
                        old(self).top().locals@,
                        l,
                        old(self).top().scope_depth as int,
                    ) && old(self).top().locals@[l].name@ == old(self).prev_tok().lexeme@),
            decreases i,
        {
            i = i - 1;
            let depth = self.compilers[k].locals[i].depth;
            let scope = self.compilers[k].scope_depth;
            if depth != -1 && depth < scope {
                proof {
                    assert forall|l: int|
                        0 <= l < old(self).top().locals@.len() && spec_scope_tail(
                            old(self).top().locals@,
                            l,
                            old(self).top().scope_depth as int,
                        ) implies old(self).top().locals@[l].name@ != old(
                        self,
                    ).prev_tok().lexeme@ by {
                        if l <= i {
                            assert(old(self).top().locals@[i as int].depth != -1 && old(
                                self,
                            ).top().locals@[i as int].depth < old(self).top().scope_depth);
                        }
                    }
                }
                break;
            }
            if bytes_eq(&self.compilers[k].locals[i].name, &name) {
                proof {
                    assert(spec_scope_tail(
                        old(self).top().locals@,
                        i as int,
                        old(self).top().scope_depth as int,
                    ));
                }
                let e = self.error(
                    "Already a variable with this name in this scope.".as_bytes_vec(),
                );
                return Err(e);
            }
        }
        self.add_local(name)
    }

    /// Parses a variable name: consumes the identifier, declares it in the
    /// current scope, and for a global returns its name-constant index.
    fn parse_variable(&mut self, message: Vec<u8>) -> (r: Result<u8, CompilerError>)
        requires
            old(self).wf(),
        ensures
            final(self).wf(),
            final(self).progressed(*old(self)),
            final(self).rest_same(*old(self)),
            final(self).top_code() == old(self).top_code(),
            r is Ok ==> final(self).pos > old(self).pos,
    {
        match self.consume(TokenType::Identifier, message) {
            Ok(()) => {},
            Err(e) => {
                return Err(e);
            },
        }
        match self.declare_variable() {
            Ok(()) => {},
            Err(e) => {
                return Err(e);
            },
        }
        let k = self.compilers.len() - 1;
        if self.compilers[k].scope_depth > 0 {
            return Ok(0);
        }
        let name = self.prev_lexeme();
        self.identifier_constant(name)
    }

    /// Whether the token being looked at has the given kind.
    fn check(&self, id: TokenType) -> (r: bool)
        requires
            self.wf(),
        ensures
            r == (self.cur_id() == id),
    {
        self.tokens[self.pos].id == id
    }

    /// Consumes the token being looked at when it has the given kind;
    /// otherwise raises the given diagnostic there.
    fn consume(&mut self, id: TokenType, message: Vec<u8>) -> (r: Result<(), CompilerError>)
        requires
            old(self).wf(),
        ensures
            final(self).wf(),
            final(self).progressed(*old(self)),
            final(self).compilers == old(self).compilers,
            final(self).heap == old(self).heap,
            r is Ok ==> old(self).cur_id() == id && final(self).prev_tok() == old(self).cur(),
            r is Ok && id != TokenType::EOF ==> final(self).pos == old(self).pos + 1,
            old(self).cur_id() == id && id != TokenType::Error ==> r is Ok,
    {
        if self.tokens[self.pos].id == id {
            self.advance()
        } else {
            let e = self.error_at_current(message);
            Err(e)
        }
    }

    /// Consumes the token being looked at when it has the given kind.
    fn matches(&mut self, id: TokenType) -> (r: Result<bool, CompilerError>)
        requires
            old(self).wf(),
        ensures
            final(self).wf(),
            final(self).progressed(*old(self)),
            final(self).compilers == old(self).compilers,
            final(self).heap == old(self).heap,
            r == Result::<bool, CompilerError>::Ok(false) ==> *final(self) == (Parser {
                had_error: final(self).had_error,
                first_error: final(self).first_error,
                ..*old(self)
            }) && old(self).cur_id() != id,
            r == Result::<bool, CompilerError>::Ok(true) ==> old(self).cur_id() == id
                && final(self).prev_tok() == old(self).cur(),
            r == Result::<bool, CompilerError>::Ok(true) && id != TokenType::EOF
                ==> final(self).pos == old(self).pos + 1,
            r is Err && old(self).cur_id() != TokenType::EOF ==> final(self).pos > old(self).pos,
    {
        if !self.check(id) {
            return Ok(false);
        }
        match self.advance() {
            Ok(()) => Ok(true),
            Err(e) => Err(e),
        }
    }

    /// The length of the code emitted into the current chunk so far.
    fn code_len(&self) -> (r: usize)
        requires
            self.wf(),
        ensures
            r == self.top_code().len(),
    {
        let k = self.compilers.len() - 1;
        self.compilers[k].chunk.code.len()
    }

    /// Interns a string and re-establishes the parser's invariant over the
    /// grown heap.
    fn intern(&mut self, chars: Vec<u8>) -> (r: usize)
        requires
            old(self).wf(),
        ensures
            final(self).wf(),
            final(self).progressed(*old(self)),
            final(self).pos == old(self).pos,
            final(self).prev == old(self).prev,
            final(self).compilers == old(self).compilers,
            final(self).classes == old(self).classes,
            final(self).had_error == old(self).had_error,
            final(self).heap.is_str(r as int),
            final(self).heap.str_chars(r as int) == chars@,
    {
        let obj = self.heap.intern_string(chars);
        proof {
            lemma_extends_wf(old(self).heap, self.heap);
            assert forall|k: int, ci: int|
                0 <= k < self.compilers@.len() && 0 <= ci < (
                #[trigger] self.compilers@[k]).chunk.constants@.len() implies self.heap.valid_value(
                #[trigger] self.compilers@[k].chunk.constants@[ci],
            ) by {
                assert(old(self).heap.valid_value(self.compilers@[k].chunk.constants@[ci]));
            }
        }
        obj
    }
}

/// Strips the surrounding quotes from a string lexeme: the stored string is
/// the content between them.
fn strip_quotes(lexeme: &Vec<u8>) -> (r: Vec<u8>)
    ensures
        lexeme@.len() >= 2 ==> r@ == lexeme@.subrange(1, lexeme@.len() - 1),
{
    let n = lexeme.len();
    if n < 2 {
        let mut out: Vec<u8> = Vec::new();
        append_bytes(&mut out, lexeme);
        return out;
    }
    let mut out: Vec<u8> = Vec::new();
    let mut i: usize = 1;
    while i < n - 1
        invariant
            1 <= i <= n - 1,
            n == lexeme@.len(),
            out@ == lexeme@.subrange(1, i as int),
        decreases n - i,
    {
        out.push(lexeme[i]);
        proof {
            assert(out@ =~= lexeme@.subrange(1, i + 1));
        }
        i = i + 1;
    }
    out
}

/// Where error recovery stops: a statement just ended, or one (or the end
/// of the stream) is about to begin.
pub open spec fn spec_statement_boundary(p: Parser) -> bool {
    ||| p.cur_id() == TokenType::EOF
    ||| p.prev_tok().id == TokenType::Semicolon
    ||| p.cur_id() == TokenType::Class
    ||| p.cur_id() == TokenType::Fun
    ||| p.cur_id() == TokenType::Var
    ||| p.cur_id() == TokenType::For
    ||| p.cur_id() == TokenType::If
    ||| p.cur_id() == TokenType::While
    ||| p.cur_id() == TokenType::Print
    ||| p.cur_id() == TokenType::Return
}

/// Skips tokens after a parse error until a statement boundary: just past a
/// semicolon, or just before a keyword that starts a statement.
pub fn synchronize(parser: &mut Parser)
    requires
        old(parser).wf(),
    ensures
        final(parser).wf(),
        final(parser).progressed(*old(parser)),
        final(parser).compilers == old(parser).compilers,
        final(parser).heap == old(parser).heap,
        spec_statement_boundary(*final(parser)),
{
    loop
        invariant
            parser.wf(),
            parser.progressed(*old(parser)),
            parser.compilers == old(parser).compilers,
            parser.heap == old(parser).heap,
        decreases parser.remaining(),
    {
        if parser.tokens[parser.pos].id == TokenType::EOF {
            return;
        }
        if parser.tokens[parser.prev].id == TokenType::Semicolon {
            return;
        }
        let id = parser.tokens[parser.pos].id;
        match id {
            TokenType::Class | TokenType::Fun | TokenType::Var | TokenType::For | TokenType::If
                | TokenType::While | TokenType::Print | TokenType::Return => {
                return;
            },
            _ => {
                let _ = parser.advance();
            },
        }
    }
}

/// Parses everything at the given precedence or stronger: one prefix
/// expression, then every infix operator that binds at least as strongly.
/// When it returns successfully, the token it stopped at cannot extend the
/// expression: its binding strength is below the requested precedence.
pub fn parse_precedence(parser: &mut Parser, prec: Precedence) -> (r: Result<(), CompilerError>)
    requires
        old(parser).wf(),
        spec_prec_level(prec) >= 1,
    ensures
        final(parser).wf(),
        final(parser).progressed(*old(parser)),
        final(parser).top_code().len() >= old(parser).top_code().len(),
        final(parser).lower_chunks_same(*old(parser)),
        old(parser).cur_id() != TokenType::EOF ==> final(parser).pos > old(parser).pos,
        r is Ok ==> final(parser).pos > old(parser).pos,
        r is Ok ==> spec_prec_level(spec_rule_precedence(final(parser).cur_id()))
            < spec_prec_level(prec),
        old(parser).cur_id() != TokenType::Error && spec_rule_prefix(old(parser).cur_id())
            == PrefixRule::NoRule ==> (r matches Err(e) && e.message@
            == "Expect expression.".spec_bytes()),
        r is Ok && spec_prec_level(prec) <= spec_prec_level(Precedence::Assignment) ==> final(parser).cur_id() != TokenType::Equal,
    decreases parser.tokens@.len() - parser.pos, 8int,
{
    match parser.advance() {
        Ok(()) => {},
        Err(e) => {
            return Err(e);
        },
    }
    let (prefix, _, _) = get_rule(parser.tokens[parser.prev].id);
    let can_assign = prec.level() <= Precedence::Assignment.level();
    let prefix_result: Result<(), CompilerError> = match prefix {
        PrefixRule::NoRule => {
            let e = parser.error("Expect expression.".as_bytes_vec());
            return Err(e);
        },
        PrefixRule::Grouping => grouping(parser, can_assign),
        PrefixRule::Unary => unary(parser, can_assign),
        PrefixRule::Variable => variable(parser, can_assign),
        PrefixRule::Number => number(parser, can_assign),
        PrefixRule::Text => string_lit(parser, can_assign),
        PrefixRule::Literal => literal(parser, can_assign),
        PrefixRule::ThisRule => this_expr(parser, can_assign),
        PrefixRule::SuperRule => super_expr(parser, can_assign),
    };
    match prefix_result {
        Ok(()) => {},
        Err(e) => {
            return Err(e);
        },
    }
    loop
        invariant
            parser.wf(),
            parser.progressed(*old(parser)),
            parser.top_code().len() >= old(parser).top_code().len(),
            parser.lower_chunks_same(*old(parser)),
            parser.pos > old(parser).pos,
            spec_prec_level(prec) >= 1,
            old(parser).cur_id() == TokenType::Error || spec_rule_prefix(old(parser).cur_id())
                != PrefixRule::NoRule,
        ensures
            parser.wf(),
            parser.progressed(*old(parser)),
            parser.top_code().len() >= old(parser).top_code().len(),
            parser.lower_chunks_same(*old(parser)),
            parser.pos > old(parser).pos,
            spec_prec_level(spec_rule_precedence(parser.cur_id())) < spec_prec_level(prec),
            old(parser).cur_id() == TokenType::Error || spec_rule_prefix(old(parser).cur_id())
                != PrefixRule::NoRule,
        decreases parser.remaining(),
    {
        let (_, _, cur_prec) = get_rule(parser.tokens[parser.pos].id);
        if prec.level() > cur_prec.level() {
            break;
        }
        match parser.advance() {
            Ok(()) => {},
            Err(e) => {
                return Err(e);
            },
        }
        let (_, infix, _) = get_rule(parser.tokens[parser.prev].id);
        let infix_result: Result<(), CompilerError> = match infix {
            InfixRule::Binary => binary(parser, can_assign),
            InfixRule::AndRule => and_expr(parser, can_assign),
            InfixRule::OrRule => or_expr(parser, can_assign),
            InfixRule::CallRule => call_expr(parser, can_assign),
            InfixRule::DotRule => dot_expr(parser, can_assign),
            InfixRule::NoRule => Ok(()),
        };
        match infix_result {
            Ok(()) => {},
            Err(e) => {
                return Err(e);
            },
        }
    }
    if can_assign {
        match parser.matches(TokenType::Equal) {
            Ok(true) => {
                let e = parser.error("Invalid assignment target.".as_bytes_vec());
                return Err(e);
            },
            Ok(false) => {},
            Err(e) => {
                return Err(e);
            },
        }
    }
    Ok(())
}

/// Parses one expression.
pub fn expression(parser: &mut Parser) -> (r: Result<(), CompilerError>)
    requires
        old(parser).wf(),
    ensures
        final(parser).wf(),
        final(parser).progressed(*old(parser)),
        final(parser).top_code().len() >= old(parser).top_code().len(),
        final(parser).lower_chunks_same(*old(parser)),
        old(parser).cur_id() != TokenType::EOF ==> final(parser).pos > old(parser).pos,
        r is Ok ==> final(parser).pos > old(parser).pos,
    decreases parser.tokens@.len() - parser.pos, 12int,
{
    parse_precedence(parser, Precedence::Assignment)
}

/// Emits the access or assignment of a named variable: a local slot, a
/// captured upvalue, or a global looked up by name.
pub fn named_variable(parser: &mut Parser, name: Vec<u8>, can_assign: bool) -> (r: Result<
    (),
    CompilerError,
>)
    requires
        old(parser).wf(),
    ensures
        final(parser).wf(),
        final(parser).progressed(*old(parser)),
        final(parser).top_code().len() >= old(parser).top_code().len(),
        final(parser).lower_chunks_same(*old(parser)),
        // A name compiles to one access or assignment instruction: a local
        // slot, a captured upvalue, or a global looked up by name.
        r is Ok ==> final(parser).top_code().len() >= 2 && (final(parser).top_code()[final(parser).top_code().len() - 2] == op_code_byte(OpCode::GetLocal) || final(parser).top_code()[final(parser).top_code().len() - 2] == op_code_byte(OpCode::SetLocal) || final(parser).top_code()[final(parser).top_code().len() - 2] == op_code_byte(OpCode::GetUpvalue) || final(parser).top_code()[final(parser).top_code().len() - 2] == op_code_byte(OpCode::SetUpvalue)
            || final(parser).top_code()[final(parser).top_code().len() - 2] == op_code_byte(
            OpCode::GetGlobal,
        ) || final(parser).top_code()[final(parser).top_code().len() - 2] == op_code_byte(
            OpCode::SetGlobal,
        )),
        // Without assignment allowed, the access only appends: everything
        // the chunk already held stays as it was.
        r is Ok && !can_assign ==> (forall|j: int|
            0 <= j < old(parser).top_code().len() ==> #[trigger] final(parser).top_code()[j] == old(
                parser,
            ).top_code()[j]) && (forall|j: int|
            0 <= j < old(parser).top_constants().len() ==> #[trigger] final(parser).top_constants()[j] == old(parser).top_constants()[j]) && final(parser).top_constants().len() >= old(parser).top_constants().len(),
        // Resolution order: a local of this function wins; then a local of an
        // enclosing function, reached through an upvalue; then a global,
        // looked up by name at run time.
        r is Ok && spec_local_in(old(parser).top(), name@) ==> (final(parser).top_code()[final(parser).top_code().len() - 2] == op_code_byte(OpCode::GetLocal) || final(parser).top_code()[final(parser).top_code().len() - 2] == op_code_byte(OpCode::SetLocal)),
        r is Ok && !spec_local_in(old(parser).top(), name@) && (exists|k: int|
            0 <= k < old(parser).compilers@.len() - 1 && spec_local_in(
                #[trigger] old(parser).compilers@[k],
                name@,
            )) ==> (final(parser).top_code()[final(parser).top_code().len() - 2] == op_code_byte(
            OpCode::GetUpvalue,
        ) || final(parser).top_code()[final(parser).top_code().len() - 2] == op_code_byte(
            OpCode::SetUpvalue,
        )),
        r is Ok && !spec_local_in(old(parser).top(), name@) && !(exists|k: int|
            0 <= k < old(parser).compilers@.len() - 1 && spec_local_in(
                #[trigger] old(parser).compilers@[k],
                name@,
            )) ==> (final(parser).top_code()[final(parser).top_code().len() - 2] == op_code_byte(
            OpCode::GetGlobal,
        ) || final(parser).top_code()[final(parser).top_code().len() - 2] == op_code_byte(
            OpCode::SetGlobal,
        )),
    decreases parser.tokens@.len() - parser.pos, 13int,
{
    let level = parser.compilers.len() - 1;
    let resolved = match parser.resolve_local_at(level, &name) {
        Ok(f) => f,
        Err(e) => {
            return Err(e);
        },
    };
    let (arg, get_op, set_op) = match resolved {
        Some(slot) => (slot, OpCode::GetLocal, OpCode::SetLocal),
        None => {
            let up = match parser.resolve_upvalue(level, &name) {
                Ok(f) => f,
                Err(e) => {
                    return Err(e);
                },
            };
            match up {
                Some(uv) => (uv, OpCode::GetUpvalue, OpCode::SetUpvalue),
                None => {
                    let idx = match parser.identifier_constant(name) {
                        Ok(idx) => idx,
                        Err(e) => {
                            return Err(e);
                        },
                    };
                    (idx, OpCode::GetGlobal, OpCode::SetGlobal)
                },
            }
        },
    };
    let assigns = if can_assign {
        match parser.matches(TokenType::Equal) {
            Ok(b) => b,
            Err(e) => {
                return Err(e);
            },
        }
    } else {
        false
    };
    if assigns {
        match expression(parser) {
            Ok(()) => {},
            Err(e) => {
                return Err(e);
            },
        }
        parser.emit_op_byte(set_op, arg);
    } else {
        parser.emit_op_byte(get_op, arg);
    }
    Ok(())
}

/// Parses the arguments of a call and returns how many there were.
pub fn argument_list(parser: &mut Parser) -> (r: Result<u8, CompilerError>)
    requires
        old(parser).wf(),
    ensures
        final(parser).wf(),
        final(parser).progressed(*old(parser)),
        final(parser).top_code().len() >= old(parser).top_code().len(),
        final(parser).lower_chunks_same(*old(parser)),
        r is Ok ==> final(parser).prev_tok().id == TokenType::RightParen,
        // An empty argument list is zero arguments and consumes only the
        // closing parenthesis.
        old(parser).cur_id() == TokenType::RightParen ==> r == Result::<u8, CompilerError>::Ok(0)
            && final(parser).top_code() == old(parser).top_code(),
    decreases parser.tokens@.len() - parser.pos, 13int,
{
    let mut arg_count: u8 = 0;
    if !parser.check(TokenType::RightParen) {
        loop
            invariant
                parser.wf(),
                parser.progressed(*old(parser)),
                parser.top_code().len() >= old(parser).top_code().len(),
                parser.lower_chunks_same(*old(parser)),
                old(parser).cur_id() != TokenType::RightParen,
            decreases parser.remaining(),
        {
            match expression(parser) {
                Ok(()) => {},
                Err(e) => {
                    return Err(e);
                },
            }
            if arg_count == 255 {
                let e = parser.error("Can't have more than 255 arguments.".as_bytes_vec());
                return Err(e);
            }
            arg_count = arg_count + 1;
            let more = match parser.matches(TokenType::Comma) {
                Ok(b) => b,
                Err(e) => {
                    return Err(e);
                },
            };
            if !more {
                break;
            }
        }
    }
    match parser.consume(TokenType::RightParen, "Expect ')' after arguments.".as_bytes_vec()) {
        Ok(()) => {},
        Err(e) => {
            return Err(e);
        },
    }
    Ok(arg_count)
}

/// The prefix rule of `(`: a parenthesised expression.
pub fn grouping(parser: &mut Parser, can_assign: bool) -> (r: Result<(), CompilerError>)
    requires
        old(parser).wf(),
    ensures
        final(parser).wf(),
        final(parser).progressed(*old(parser)),
        final(parser).top_code().len() >= old(parser).top_code().len(),
        final(parser).lower_chunks_same(*old(parser)),
    decreases parser.tokens@.len() - parser.pos, 14int,
{
    match expression(parser) {
        Ok(()) => {},
        Err(e) => {
            return Err(e);
        },
    }
    parser.consume(TokenType::RightParen, "Expect ')' after expression.".as_bytes_vec())
}

/// The prefix rule of `-` and `!`: negation and logical not.
pub fn unary(parser: &mut Parser, can_assign: bool) -> (r: Result<(), CompilerError>)
    requires
        old(parser).wf(),
    ensures
        final(parser).wf(),
        final(parser).progressed(*old(parser)),
        final(parser).top_code().len() >= old(parser).top_code().len(),
        final(parser).lower_chunks_same(*old(parser)),
        r is Ok ==> match old(parser).prev_tok().id {
            TokenType::Minus => final(parser).top_code().len() > 0 && final(parser).top_code().last() == op_code_byte(OpCode::Negate),
            TokenType::Bang => final(parser).top_code().len() > 0 && final(parser).top_code().last() == op_code_byte(OpCode::Not),
            _ => true,
        },
    decreases parser.tokens@.len() - parser.pos, 14int,
{
    let op_id = parser.tokens[parser.prev].id;
    match parse_precedence(parser, Precedence::Unary) {
        Ok(()) => {},
        Err(e) => {
            return Err(e);
        },
    }
    match op_id {
        TokenType::Minus => parser.emit_op(OpCode::Negate),
        TokenType::Bang => parser.emit_op(OpCode::Not),
        _ => {},
    }
    Ok(())
}

/// The infix rule of the binary operators: the right operand binds one step
/// stronger, then the operator's instruction follows.
pub fn binary(parser: &mut Parser, can_assign: bool) -> (r: Result<(), CompilerError>)
    requires
        old(parser).wf(),
    ensures
        final(parser).wf(),
        final(parser).progressed(*old(parser)),
        final(parser).top_code().len() >= old(parser).top_code().len(),
        final(parser).lower_chunks_same(*old(parser)),
        r is Ok ==> match old(parser).prev_tok().id {
            TokenType::Plus => final(parser).top_code().len() > 0 && final(parser).top_code().last()
                == op_code_byte(OpCode::Add),
            TokenType::Minus => final(parser).top_code().len() > 0 && final(parser).top_code().last() == op_code_byte(OpCode::Subtract),
            TokenType::Star => final(parser).top_code().len() > 0 && final(parser).top_code().last()
                == op_code_byte(OpCode::Multiply),
            TokenType::Slash => final(parser).top_code().len() > 0 && final(parser).top_code().last() == op_code_byte(OpCode::Divide),
            TokenType::EqualEqual => final(parser).top_code().len() > 0 && final(parser).top_code().last() == op_code_byte(OpCode::Equal),
            TokenType::Greater => final(parser).top_code().len() > 0 && final(parser).top_code().last() == op_code_byte(OpCode::Greater),
            TokenType::Less => final(parser).top_code().len() > 0 && final(parser).top_code().last()
                == op_code_byte(OpCode::Less),
            TokenType::BangEqual => final(parser).top_code().len() >= 2 && final(parser).top_code()[final(parser).top_code().len() - 2] == op_code_byte(OpCode::Equal)
                && final(parser).top_code().last() == op_code_byte(OpCode::Not),
            TokenType::GreaterEqual => final(parser).top_code().len() >= 2 && final(parser).top_code()[final(parser).top_code().len() - 2] == op_code_byte(OpCode::Less) && final(parser).top_code().last() == op_code_byte(OpCode::Not),
            TokenType::LessEqual => final(parser).top_code().len() >= 2 && final(parser).top_code()[final(parser).top_code().len() - 2] == op_code_byte(OpCode::Greater)
                && final(parser).top_code().last() == op_code_byte(OpCode::Not),
            _ => true,
        },
    decreases parser.tokens@.len() - parser.pos, 14int,
{
    let op_id = parser.tokens[parser.prev].id;
    let (_, _, prec) = get_rule(op_id);
    let next = prec.add_one();
    match parse_precedence(parser, next) {
        Ok(()) => {},
        Err(e) => {
            return Err(e);
        },
    }
    match op_id {
        TokenType::BangEqual => parser.emit_ops(OpCode::Equal, OpCode::Not),
        TokenType::EqualEqual => parser.emit_op(OpCode::Equal),
        TokenType::Greater => parser.emit_op(OpCode::Greater),
        TokenType::GreaterEqual => parser.emit_ops(OpCode::Less, OpCode::Not),
        TokenType::Less => parser.emit_op(OpCode::Less),
        TokenType::LessEqual => parser.emit_ops(OpCode::Greater, OpCode::Not),
        TokenType::Plus => parser.emit_op(OpCode::Add),
        TokenType::Minus => parser.emit_op(OpCode::Subtract),
        TokenType::Star => parser.emit_op(OpCode::Multiply),
        TokenType::Slash => parser.emit_op(OpCode::Divide),
        _ => {},
    }
    Ok(())
}

/// The infix rule of `and`: short-circuits over the right operand.
pub fn and_expr(parser: &mut Parser, can_assign: bool) -> (r: Result<(), CompilerError>)
    requires
        old(parser).wf(),
    ensures
        final(parser).wf(),
        final(parser).progressed(*old(parser)),
        final(parser).top_code().len() >= old(parser).top_code().len(),
        final(parser).lower_chunks_same(*old(parser)),
    decreases parser.tokens@.len() - parser.pos, 14int,
{
    let end_jump = parser.emit_jump(OpCode::JumpIfFalse);
    parser.emit_op(OpCode::Pop);
    match parse_precedence(parser, Precedence::And) {
        Ok(()) => {},
        Err(e) => {
            return Err(e);
        },
    }
    parser.patch_jump(end_jump)
}

/// The infix rule of `or`: short-circuits over the right operand.
pub fn or_expr(parser: &mut Parser, can_assign: bool) -> (r: Result<(), CompilerError>)
    requires
        old(parser).wf(),
    ensures
        final(parser).wf(),
        final(parser).progressed(*old(parser)),
        final(parser).top_code().len() >= old(parser).top_code().len(),
        final(parser).lower_chunks_same(*old(parser)),
    decreases parser.tokens@.len() - parser.pos, 14int,
{
    let else_jump = parser.emit_jump(OpCode::JumpIfFalse);
    let end_jump = parser.emit_jump(OpCode::Jump);
    match parser.patch_jump(else_jump) {
        Ok(()) => {},
        Err(e) => {
            return Err(e);
        },
    }
    parser.emit_op(OpCode::Pop);
    match parse_precedence(parser, Precedence::Or) {
        Ok(()) => {},
        Err(e) => {
            return Err(e);
        },
    }
    parser.patch_jump(end_jump)
}

/// The prefix rule of a number literal.
pub fn number(parser: &mut Parser, can_assign: bool) -> (r: Result<(), CompilerError>)
    requires
        old(parser).wf(),
    ensures
        final(parser).wf(),
        final(parser).progressed(*old(parser)),
        final(parser).top_code().len() >= old(parser).top_code().len(),
        final(parser).lower_chunks_same(*old(parser)),
        // The numeric literal becomes a fresh constant, loaded by one
        // instruction; only a full pool refuses it.
        r is Err <==> old(parser).top_constants().len() >= CONSTANTS_MAX,
        r is Ok ==> final(parser).top_code() == old(parser).top_code().push(
            op_code_byte(OpCode::Constant),
        ).push(old(parser).top_constants().len() as u8) && final(parser).top_constants().len()
            == old(parser).top_constants().len() + 1 && final(parser).top_constants().drop_last()
            == old(parser).top_constants() && (match final(parser).top_constants().last() {
            Value::Number(x) => x as int == spec_number_value(old(parser).prev_tok().lexeme@, 0, 0),
            _ => false,
        }),
    decreases parser.tokens@.len() - parser.pos, 14int,
{
    let lexeme = parser.prev_lexeme();
    let v = parse_number(&lexeme);
    parser.emit_constant(Value::Number(v))
}

/// The prefix rule of a string literal: the quotes are stripped and the
/// content is interned.
pub fn string_lit(parser: &mut Parser, can_assign: bool) -> (r: Result<(), CompilerError>)
    requires
        old(parser).wf(),
    ensures
        final(parser).wf(),
        final(parser).progressed(*old(parser)),
        final(parser).top_code().len() >= old(parser).top_code().len(),
        final(parser).lower_chunks_same(*old(parser)),
        // The string's quotes are stripped at compile time: the interned
        // constant holds the bare content, loaded by one instruction.
        r is Err <==> old(parser).top_constants().len() >= CONSTANTS_MAX,
        r is Ok && old(parser).prev_tok().lexeme@.len() >= 2 ==> final(parser).top_code() == old(
            parser,
        ).top_code().push(op_code_byte(OpCode::Constant)).push(
            old(parser).top_constants().len() as u8,
        ) && final(parser).top_constants().len() == old(parser).top_constants().len() + 1 && (
        match final(parser).top_constants().last() {
            Value::Object(sobj) => final(parser).heap.is_str(sobj as int) && final(parser).heap.str_chars(sobj as int) == old(parser).prev_tok().lexeme@.subrange(
                1,
                old(parser).prev_tok().lexeme@.len() - 1,
            ),
            _ => false,
        }),
    decreases parser.tokens@.len() - parser.pos, 14int,
{
    let lexeme = parser.prev_lexeme();
    let content = strip_quotes(&lexeme);
    let obj = parser.intern(content);
    parser.emit_constant(Value::Object(obj))
}

/// The prefix rule of an identifier: a variable access or assignment.
pub fn variable(parser: &mut Parser, can_assign: bool) -> (r: Result<(), CompilerError>)
    requires
        old(parser).wf(),
    ensures
        final(parser).wf(),
        final(parser).progressed(*old(parser)),
        final(parser).top_code().len() >= old(parser).top_code().len(),
        final(parser).lower_chunks_same(*old(parser)),
    decreases parser.tokens@.len() - parser.pos, 14int,
{
    let name = parser.prev_lexeme();
    named_variable(parser, name, can_assign)
}

/// The prefix rule of `nil`, `true` and `false`.
pub fn literal(parser: &mut Parser, can_assign: bool) -> (r: Result<(), CompilerError>)
    requires
        old(parser).wf(),
    ensures
        final(parser).wf(),
        final(parser).progressed(*old(parser)),
        final(parser).top_code().len() >= old(parser).top_code().len(),
        final(parser).lower_chunks_same(*old(parser)),
        r is Ok,
        match old(parser).prev_tok().id {
            TokenType::False => final(parser).top_code() == old(parser).top_code().push(
                op_code_byte(OpCode::False),
            ),
            TokenType::Nil => final(parser).top_code() == old(parser).top_code().push(
                op_code_byte(OpCode::Nil),
            ),
            TokenType::True => final(parser).top_code() == old(parser).top_code().push(
                op_code_byte(OpCode::True),
            ),
            _ => final(parser).top_code() == old(parser).top_code(),
        },
    decreases parser.tokens@.len() - parser.pos, 14int,
{
    match parser.tokens[parser.prev].id {
        TokenType::False => parser.emit_op(OpCode::False),
        TokenType::Nil => parser.emit_op(OpCode::Nil),
        TokenType::True => parser.emit_op(OpCode::True),
        _ => {},
    }
    Ok(())
}

/// The infix rule of `(`: a call.
pub fn call_expr(parser: &mut Parser, can_assign: bool) -> (r: Result<(), CompilerError>)
    requires
        old(parser).wf(),
    ensures
        final(parser).wf(),
        final(parser).progressed(*old(parser)),
        final(parser).top_code().len() >= old(parser).top_code().len(),
        final(parser).lower_chunks_same(*old(parser)),
    decreases parser.tokens@.len() - parser.pos, 14int,
{
    let arg_count = match argument_list(parser) {
        Ok(c) => c,
        Err(e) => {
            return Err(e);
        },
    };
    parser.emit_op_byte(OpCode::Call, arg_count);
    Ok(())
}

/// The infix rule of `.`: a property read, a property assignment, or the
/// fused method invocation.
pub fn dot_expr(parser: &mut Parser, can_assign: bool) -> (r: Result<(), CompilerError>)
    requires
        old(parser).wf(),
    ensures
        final(parser).wf(),
        final(parser).progressed(*old(parser)),
        final(parser).top_code().len() >= old(parser).top_code().len(),
        final(parser).lower_chunks_same(*old(parser)),
    decreases parser.tokens@.len() - parser.pos, 14int,
{
    match parser.consume(TokenType::Identifier, "Expect property name after '.'.".as_bytes_vec()) {
        Ok(()) => {},
        Err(e) => {
            return Err(e);
        },
    }
    let name_lex = parser.prev_lexeme();
    let name = match parser.identifier_constant(name_lex) {
        Ok(n) => n,
        Err(e) => {
            return Err(e);
        },
    };
    let assigns = if can_assign {
        match parser.matches(TokenType::Equal) {
            Ok(b) => b,
            Err(e) => {
                return Err(e);
            },
        }
    } else {
        false
    };
    if assigns {
        match expression(parser) {
            Ok(()) => {},
            Err(e) => {
                return Err(e);
            },
        }
        parser.emit_op_byte(OpCode::SetProperty, name);
        return Ok(());
    }
    let invokes = match parser.matches(TokenType::LeftParen) {
        Ok(b) => b,
        Err(e) => {
            return Err(e);
        },
    };
    if invokes {
        let arg_count = match argument_list(parser) {
            Ok(c) => c,
            Err(e) => {
                return Err(e);
            },
        };
        parser.emit_op_byte(OpCode::Invoke, name);
        parser.emit_byte(arg_count);
    } else {
        parser.emit_op_byte(OpCode::GetProperty, name);
    }
    Ok(())
}

/// The prefix rule of `this`: only valid inside a class body.
pub fn this_expr(parser: &mut Parser, can_assign: bool) -> (r: Result<(), CompilerError>)
    requires
        old(parser).wf(),
    ensures
        final(parser).wf(),
        final(parser).progressed(*old(parser)),
        final(parser).top_code().len() >= old(parser).top_code().len(),
        final(parser).lower_chunks_same(*old(parser)),
    decreases parser.tokens@.len() - parser.pos, 14int,
{
    if parser.classes.len() == 0 {
        let e = parser.error("Can't use 'this' outside of a class.".as_bytes_vec());
        return Err(e);
    }
    let name = parser.prev_lexeme();
    named_variable(parser, name, false)
}

/// The prefix rule of `super`: binds or invokes a superclass method through
/// the synthetic `this` and `super` variables.
pub fn super_expr(parser: &mut Parser, can_assign: bool) -> (r: Result<(), CompilerError>)
    requires
        old(parser).wf(),
    ensures
        final(parser).wf(),
        final(parser).progressed(*old(parser)),
        final(parser).top_code().len() >= old(parser).top_code().len(),
        final(parser).lower_chunks_same(*old(parser)),
    decreases parser.tokens@.len() - parser.pos, 14int,
{
    if parser.classes.len() == 0 {
        let e = parser.error("Can't use 'super' outside of a class.".as_bytes_vec());
        return Err(e);
    }
    let kc = parser.classes.len() - 1;
    if !parser.classes[kc].has_super_class {
        let e = parser.error("Can't use 'super' in a class with no superclass.".as_bytes_vec());
        return Err(e);
    }
    match parser.consume(TokenType::Dot, "Expect '.' after 'super'.".as_bytes_vec()) {
        Ok(()) => {},
        Err(e) => {
            return Err(e);
        },
    }
    match parser.consume(
        TokenType::Identifier,
        "Expect superclass method name.".as_bytes_vec(),
    ) {
        Ok(()) => {},
        Err(e) => {
            return Err(e);
        },
    }
    let name_lex = parser.prev_lexeme();
    let name = match parser.identifier_constant(name_lex) {
        Ok(n) => n,
        Err(e) => {
            return Err(e);
        },
    };
    match named_variable(parser, "this".as_bytes_vec(), false) {
        Ok(()) => {},
        Err(e) => {
            return Err(e);
        },
    }
    let invokes = match parser.matches(TokenType::LeftParen) {
        Ok(b) => b,
        Err(e) => {
            return Err(e);
        },
    };
    if invokes {
        let arg_count = match argument_list(parser) {
            Ok(c) => c,
            Err(e) => {
                return Err(e);
            },
        };
        match named_variable(parser, "super".as_bytes_vec(), false) {
            Ok(()) => {},
            Err(e) => {
                return Err(e);
            },
        }
        parser.emit_op_byte(OpCode::SuperInvoke, name);
        parser.emit_byte(arg_count);
    } else {
        match named_variable(parser, "super".as_bytes_vec(), false) {
            Ok(()) => {},
            Err(e) => {
                return Err(e);
            },
        }
        parser.emit_op_byte(OpCode::GetSuper, name);
    }
    Ok(())
}

/// Compiles a function body onto a fresh compiler and emits, in the
/// enclosing chunk, the `Closure` instruction that wraps it together with
/// one `(is_local, index)` pair per captured upvalue.
pub fn function(parser: &mut Parser, ftype: FunctionType) -> (r: Result<(), CompilerError>)
    requires
        old(parser).wf(),
    ensures
        final(parser).wf(),
        final(parser).progressed(*old(parser)),
        final(parser).top_code().len() >= old(parser).top_code().len(),
        final(parser).lower_chunks_same(*old(parser)),
        // What the enclosing chunk already held stays exactly as it was:
        // compiling a nested function only appends to it.
        r is Ok ==> (forall|j: int|
            0 <= j < old(parser).top_code().len() ==> #[trigger] final(parser).top_code()[j] == old(
                parser,
            ).top_code()[j]) && (forall|j: int|
            0 <= j < old(parser).top_constants().len() ==> #[trigger] final(parser).top_constants()[j] == old(parser).top_constants()[j]) && final(parser).top_constants().len() >= old(parser).top_constants().len(),
        // A compiled function ends as a `Closure` instruction in the
        // enclosing chunk: its constant is a live function object, and one
        // operand pair follows per upvalue the closure captures.
        r is Ok ==> exists|u: int|
            0 <= u && 2 + 2 * u <= final(parser).top_code().len() && (#[trigger] final(parser).top_code()[final(parser).top_code().len() - 2 - 2 * u]) == op_code_byte(
                OpCode::Closure,
            ) && (final(parser).top_code()[final(parser).top_code().len() - 1 - 2 * u] as int)
                < final(parser).top_constants().len() && (match final(parser).top_constants()[final(parser).top_code()[final(parser).top_code().len() - 1 - 2 * u] as int] {
                Value::Object(f) => final(parser).heap.is_function(f as int) && final(parser).heap.function_of(f as int).upvalue_count == u,
                _ => false,
            }),
    decreases parser.tokens@.len() - parser.pos, 16int,
{
    let name = parser.prev_lexeme();
    let fresh = Compiler::new(ftype, name);
    parser.compilers.push(fresh);
    proof {
        assert forall|k: int, ci: int|
            0 <= k < parser.compilers@.len() && 0 <= ci < (
            #[trigger] parser.compilers@[k]).chunk.constants@.len() implies parser.heap.valid_value(
            #[trigger] parser.compilers@[k].chunk.constants@[ci],
        ) by {
            if k < old(parser).compilers@.len() {
                assert(old(parser).heap.valid_value(parser.compilers@[k].chunk.constants@[ci]));
            }
        }
    }
    let body = function_body(parser);
    // Close the function whether or not its body parsed: the compiler stack
    // must come back down so that recovery continues in the enclosing one.
    parser.emit_return();
    let ghost pre_pop = *parser;
    let inner_opt = parser.compilers.pop();
    let inner = match inner_opt {
        Some(c) => c,
        None => {
            proof {
                assert(false);
            }
            Compiler::new(ftype, Vec::new())
        },
    };
    proof {
        assert forall|k: int, ci: int|
            0 <= k < parser.compilers@.len() && 0 <= ci < (
            #[trigger] parser.compilers@[k]).chunk.constants@.len() implies parser.heap.valid_value(
            #[trigger] parser.compilers@[k].chunk.constants@[ci],
        ) by {
            assert(parser.compilers@[k] == pre_pop.compilers@[k]);
            assert(pre_pop.heap.valid_value(pre_pop.compilers@[k].chunk.constants@[ci]));
        }
        assert(inner == pre_pop.compilers@[pre_pop.compilers@.len() - 1]);
        assert(compiler_wf(inner));
    }
    proof {
        assert(parser.top().chunk == old(parser).top().chunk);
    }
    let ghost pre_intern_heap = parser.heap;
    let upvalues = inner.upvalues;
    let arity = inner.arity;
    let chunk = inner.chunk;
    let name_obj = parser.intern(inner.name);
    let upvalue_count = upvalues.len();
    let size = if chunk.code.len() <= usize::MAX - 96 {
        96 + chunk.code.len()
    } else {
        usize::MAX
    };
    let fobj = ObjFunction { arity, upvalue_count, chunk, name: Some(name_obj) };
    proof {
        lemma_extends_wf(pre_intern_heap, parser.heap);
        assert forall|ci: int| 0 <= ci < fobj.chunk.constants@.len() implies parser.heap.valid_value(
            #[trigger] fobj.chunk.constants@[ci],
        ) by {
            assert(pre_pop.heap.valid_value(
                pre_pop.compilers@[pre_pop.compilers@.len() - 1].chunk.constants@[ci],
            ));
        }
        assert(parser.heap.obj_wf(Obj::Function(fobj)));
    }
    let ghost pre_alloc = *parser;
    let fidx = parser.heap.allocate_obj(Obj::Function(fobj), size);
    proof {
        lemma_extends_wf(pre_alloc.heap, parser.heap);
        assert forall|k: int, ci: int|
            0 <= k < parser.compilers@.len() && 0 <= ci < (
            #[trigger] parser.compilers@[k]).chunk.constants@.len() implies parser.heap.valid_value(
            #[trigger] parser.compilers@[k].chunk.constants@[ci],
        ) by {
            assert(pre_alloc.heap.valid_value(parser.compilers@[k].chunk.constants@[ci]));
        }
    }
    match body {
        Ok(()) => {},
        Err(e) => {
            return Err(e);
        },
    }
    let constant = match parser.make_constant(Value::Object(fidx)) {
        Ok(c) => c,
        Err(e) => {
            return Err(e);
        },
    };
    parser.emit_op_byte(OpCode::Closure, constant);
    let ghost post_c = *parser;
    let mut i: usize = 0;
    let n = upvalues.len();
    while i < n
        invariant
            i <= n,
            parser.wf(),
            parser.progressed(*old(parser)),
            parser.top_code().len() >= old(parser).top_code().len(),
            parser.lower_chunks_same(*old(parser)),
            n == upvalues@.len(),
            parser.heap == post_c.heap,
            parser.top_constants() == post_c.top_constants(),
            parser.top_code().len() == post_c.top_code().len() + 2 * i,
            forall|j: int|
                0 <= j < post_c.top_code().len() ==> #[trigger] parser.top_code()[j]
                    == post_c.top_code()[j],
        decreases n - i,
    {
        let is_local_byte: u8 = if upvalues[i].is_local {
            1
        } else {
            0
        };
        parser.emit_byte(is_local_byte);
        let index = upvalues[i].index;
        parser.emit_byte(index);
        i = i + 1;
    }
    proof {
        let len = parser.top_code().len() as int;
        let u = n as int;
        assert(parser.top_code()[len - 2 - 2 * u] == op_code_byte(OpCode::Closure));
        assert(parser.top_code()[len - 1 - 2 * u] == constant);
        assert(parser.top_constants()[constant as int] == Value::Object(fidx));
        assert(parser.heap.is_function(fidx as int));
        assert(parser.heap.function_of(fidx as int).upvalue_count == u);
    }
    Ok(())
}

/// Parses a function's parameter list and body into the compiler on top of
/// the stack, which `function` pushed for it.
fn function_body(parser: &mut Parser) -> (r: Result<(), CompilerError>)
    requires
        old(parser).wf(),
    ensures
        final(parser).wf(),
        final(parser).progressed(*old(parser)),
        final(parser).top_code().len() >= old(parser).top_code().len(),
        final(parser).lower_chunks_same(*old(parser)),
    decreases parser.tokens@.len() - parser.pos, 15int,
{
    parser.begin_scope();
    match parser.consume(TokenType::LeftParen, "Expect '(' after function name.".as_bytes_vec()) {
        Ok(()) => {},
        Err(e) => {
            return Err(e);
        },
    }
    if !parser.check(TokenType::RightParen) {
        loop
            invariant
                parser.wf(),
                parser.progressed(*old(parser)),
                parser.top_code().len() >= old(parser).top_code().len(),
            parser.lower_chunks_same(*old(parser)),
            decreases parser.remaining(),
        {
            let k = parser.compilers.len() - 1;
            if parser.compilers[k].arity == 255 {
                let e = parser.error_at_current(
                    "Can't have more than 255 parameters.".as_bytes_vec(),
                );
                return Err(e);
            }
            let arity = parser.compilers[k].arity;
            parser.compilers[k].arity = arity + 1;
            let constant = match parser.parse_variable("Expect parameter name.".as_bytes_vec()) {
                Ok(c) => c,
                Err(e) => {
                    return Err(e);
                },
            };
            parser.define_variable(constant);
            let more = match parser.matches(TokenType::Comma) {
                Ok(b) => b,
                Err(e) => {
                    return Err(e);
                },
            };
            if !more {
                break;
            }
        }
    }
    match parser.consume(TokenType::RightParen, "Expect ')' after parameters.".as_bytes_vec()) {
        Ok(()) => {},
        Err(e) => {
            return Err(e);
        },
    }
    match parser.consume(TokenType::LeftBrace, "Expect '{' before function body.".as_bytes_vec()) {
        Ok(()) => {},
        Err(e) => {
            return Err(e);
        },
    }
    block(parser)
}

/// Parses declarations until the closing brace of a block.
pub fn block(parser: &mut Parser) -> (r: Result<(), CompilerError>)
    requires
        old(parser).wf(),
    ensures
        final(parser).wf(),
        final(parser).progressed(*old(parser)),
        final(parser).top_code().len() >= old(parser).top_code().len(),
        final(parser).lower_chunks_same(*old(parser)),
    decreases parser.tokens@.len() - parser.pos, 28int,
{
    while !parser.check(TokenType::RightBrace) && !parser.check(TokenType::EOF)
        invariant
            parser.wf(),
            parser.progressed(*old(parser)),
            parser.top_code().len() >= old(parser).top_code().len(),
            parser.lower_chunks_same(*old(parser)),
        decreases parser.remaining(),
    {
        declaration(parser);
    }
    parser.consume(TokenType::RightBrace, "Expect '}' after block.".as_bytes_vec())
}

/// Parses one `var` declaration: the name, an optional initializer (nil
/// otherwise), and the defining instruction.
pub fn var_declaration(parser: &mut Parser) -> (r: Result<(), CompilerError>)
    requires
        old(parser).wf(),
    ensures
        final(parser).wf(),
        final(parser).progressed(*old(parser)),
        final(parser).top_code().len() >= old(parser).top_code().len(),
        final(parser).lower_chunks_same(*old(parser)),
        r is Ok && final(parser).top().scope_depth == 0 ==> final(parser).top_code().len() >= 2
            && final(parser).top_code()[final(parser).top_code().len() - 2] == op_code_byte(
            OpCode::DefineGlobal,
        ),
    decreases parser.tokens@.len() - parser.pos, 20int,
{
    let global = match parser.parse_variable("Expect variable name.".as_bytes_vec()) {
        Ok(g) => g,
        Err(e) => {
            return Err(e);
        },
    };
    let has_init = match parser.matches(TokenType::Equal) {
        Ok(b) => b,
        Err(e) => {
            return Err(e);
        },
    };
    if has_init {
        match expression(parser) {
            Ok(()) => {},
            Err(e) => {
                return Err(e);
            },
        }
    } else {
        parser.emit_op(OpCode::Nil);
    }
    match parser.consume(
        TokenType::Semicolon,
        "Expect ';' after variable declaration.".as_bytes_vec(),
    ) {
        Ok(()) => {},
        Err(e) => {
            return Err(e);
        },
    }
    parser.define_variable(global);
    Ok(())
}

/// Parses one `fun` declaration.
pub fn fun_declaration(parser: &mut Parser) -> (r: Result<(), CompilerError>)
    requires
        old(parser).wf(),
    ensures
        final(parser).wf(),
        final(parser).progressed(*old(parser)),
        final(parser).top_code().len() >= old(parser).top_code().len(),
        final(parser).lower_chunks_same(*old(parser)),
        // At script scope the compiled function is bound to its name.
        r is Ok && final(parser).top().scope_depth == 0 ==> final(parser).top_code().len() >= 2
            && final(parser).top_code()[final(parser).top_code().len() - 2] == op_code_byte(
            OpCode::DefineGlobal,
        ),
    decreases parser.tokens@.len() - parser.pos, 20int,
{
    let global = match parser.parse_variable("Expect function name.".as_bytes_vec()) {
        Ok(g) => g,
        Err(e) => {
            return Err(e);
        },
    };
    parser.mark_initialized();
    match function(parser, FunctionType::Function) {
        Ok(()) => {},
        Err(e) => {
            return Err(e);
        },
    }
    parser.define_variable(global);
    Ok(())
}

/// Parses one method of a class body: its name, then its function, then the
/// instruction that binds it to the class.
pub fn method(parser: &mut Parser) -> (r: Result<(), CompilerError>)
    requires
        old(parser).wf(),
    ensures
        final(parser).wf(),
        final(parser).progressed(*old(parser)),
        final(parser).top_code().len() >= old(parser).top_code().len(),
        final(parser).lower_chunks_same(*old(parser)),
        r is Ok ==> final(parser).pos > old(parser).pos,
        r is Ok ==> (forall|j: int|
            0 <= j < old(parser).top_code().len() ==> #[trigger] final(parser).top_code()[j] == old(
                parser,
            ).top_code()[j]) && (forall|j: int|
            0 <= j < old(parser).top_constants().len() ==> #[trigger] final(parser).top_constants()[j] == old(parser).top_constants()[j]) && final(parser).top_constants().len() >= old(parser).top_constants().len(),
        // A parsed method ends as a `Method` instruction naming it.
        r is Ok ==> final(parser).top_code().len() >= 2 && final(parser).top_code()[final(parser).top_code().len() - 2] == op_code_byte(OpCode::Method),
    decreases parser.tokens@.len() - parser.pos, 18int,
{
    match parser.consume(TokenType::Identifier, "Expect method name.".as_bytes_vec()) {
        Ok(()) => {},
        Err(e) => {
            return Err(e);
        },
    }
    let name_lex = parser.prev_lexeme();
    let constant = match parser.identifier_constant(name_lex) {
        Ok(c) => c,
        Err(e) => {
            return Err(e);
        },
    };
    let init_name = "init".as_bytes_vec();
    let method_name = parser.prev_lexeme();
    let ftype = if bytes_eq(&method_name, &init_name) {
        FunctionType::Initializer
    } else {
        FunctionType::Method
    };
    match function(parser, ftype) {
        Ok(()) => {},
        Err(e) => {
            return Err(e);
        },
    }
    parser.emit_op_byte(OpCode::Method, constant);
    Ok(())
}

/// Parses a class body: the optional superclass clause, then the methods.
/// The class being compiled sits on the class stack throughout.
fn class_body(parser: &mut Parser, class_name: Vec<u8>) -> (r: Result<(), CompilerError>)
    requires
        old(parser).wf(),
        old(parser).classes@.len() >= 1,
    ensures
        final(parser).wf(),
        final(parser).progressed(*old(parser)),
        final(parser).top_code().len() >= old(parser).top_code().len(),
        final(parser).lower_chunks_same(*old(parser)),
        // The class body only appends to the chunk: what it already held,
        // code and constants both, stays exactly as it was.
        r is Ok ==> (forall|j: int|
            0 <= j < old(parser).top_code().len() ==> #[trigger] final(parser).top_code()[j] == old(
                parser,
            ).top_code()[j]) && (forall|j: int|
            0 <= j < old(parser).top_constants().len() ==> #[trigger] final(parser).top_constants()[j] == old(parser).top_constants()[j]) && final(parser).top_constants().len() >= old(parser).top_constants().len(),
    decreases parser.tokens@.len() - parser.pos, 19int,
{
    let inherits = match parser.matches(TokenType::Less) {
        Ok(b) => b,
        Err(e) => {
            return Err(e);
        },
    };
    if inherits {
        match parser.consume(TokenType::Identifier, "Expect superclass name.".as_bytes_vec()) {
            Ok(()) => {},
            Err(e) => {
                return Err(e);
            },
        }
        let super_name = parser.prev_lexeme();
        if bytes_eq(&class_name, &super_name) {
            let e = parser.error("A class can't inherit from itself.".as_bytes_vec());
            return Err(e);
        }
        match named_variable(parser, super_name, false) {
            Ok(()) => {},
            Err(e) => {
                return Err(e);
            },
        }
        parser.begin_scope();
        let kc = parser.classes.len() - 1;
        parser.classes[kc].has_super_class = true;
        match parser.add_local("super".as_bytes_vec()) {
            Ok(()) => {},
            Err(e) => {
                return Err(e);
            },
        }
        parser.define_variable(0);
        let mut name_copy: Vec<u8> = Vec::new();
        append_bytes(&mut name_copy, &class_name);
        match named_variable(parser, name_copy, false) {
            Ok(()) => {},
            Err(e) => {
                return Err(e);
            },
        }
        parser.emit_op(OpCode::Inherit);
    }
    match named_variable(parser, class_name, false) {
        Ok(()) => {},
        Err(e) => {
            return Err(e);
        },
    }
    match parser.consume(TokenType::LeftBrace, "Expect '{' before class body.".as_bytes_vec()) {
        Ok(()) => {},
        Err(e) => {
            return Err(e);
        },
    }
    while !parser.check(TokenType::RightBrace) && !parser.check(TokenType::EOF)
        invariant
            parser.wf(),
            parser.progressed(*old(parser)),
            parser.top_code().len() >= old(parser).top_code().len(),
            parser.lower_chunks_same(*old(parser)),
            forall|j: int|
                0 <= j < old(parser).top_code().len() ==> #[trigger] parser.top_code()[j] == old(
                    parser,
                ).top_code()[j],
            forall|j: int|
                0 <= j < old(parser).top_constants().len() ==> #[trigger] parser.top_constants()[j]
                    == old(parser).top_constants()[j],
            parser.top_constants().len() >= old(parser).top_constants().len(),
        decreases parser.remaining(),
    {
        match method(parser) {
            Ok(()) => {},
            Err(e) => {
                return Err(e);
            },
        }
    }
    match parser.consume(TokenType::RightBrace, "Expect '}' after class body.".as_bytes_vec()) {
        Ok(()) => {},
        Err(e) => {
            return Err(e);
        },
    }
    parser.emit_op(OpCode::Pop);
    Ok(())
}

/// Parses one `class` declaration.
pub fn class_declaration(parser: &mut Parser) -> (r: Result<(), CompilerError>)
    requires
        old(parser).wf(),
    ensures
        final(parser).wf(),
        final(parser).progressed(*old(parser)),
        final(parser).top_code().len() >= old(parser).top_code().len(),
        final(parser).lower_chunks_same(*old(parser)),
        // The declaration opens with a `Class` instruction whose constant is
        // the interned class name: the identifier the declaration began at.
        r is Ok ==> final(parser).top_code().len() >= old(parser).top_code().len() + 2 && final(parser).top_code()[old(parser).top_code().len() as int] == op_code_byte(OpCode::Class) && (final(parser).top_code()[old(parser).top_code().len() as int + 1] as int) < final(parser).top_constants().len() && (match final(parser).top_constants()[final(parser).top_code()[old(parser).top_code().len() as int + 1] as int] {
            Value::Object(nm) => final(parser).heap.is_str(nm as int) && final(parser).heap.str_chars(nm as int) == old(parser).cur().lexeme@,
            _ => false,
        }),
    decreases parser.tokens@.len() - parser.pos, 20int,
{
    match parser.consume(TokenType::Identifier, "Expect class name.".as_bytes_vec()) {
        Ok(()) => {},
        Err(e) => {
            return Err(e);
        },
    }
    let class_name = parser.prev_lexeme();
    let name_lex = parser.prev_lexeme();
    let name_constant = match parser.identifier_constant(name_lex) {
        Ok(c) => c,
        Err(e) => {
            return Err(e);
        },
    };
    match parser.declare_variable() {
        Ok(()) => {},
        Err(e) => {
            return Err(e);
        },
    }
    let ghost post_ic = *parser;
    parser.emit_op_byte(OpCode::Class, name_constant);
    parser.define_variable(name_constant);
    parser.classes.push(ClassState { has_super_class: false });
    let ghost pre_body = *parser;
    let body = class_body(parser, class_name);
    // Unwind the class context on both outcomes, so that recovery continues
    // outside the class.
    let kc = parser.classes.len() - 1;
    let had_super = parser.classes[kc].has_super_class;
    if had_super {
        parser.end_scope();
    }
    let _ = parser.classes.pop();
    proof {
        if body is Ok {
            assert(pre_body.top_code()[old(parser).top_code().len() as int] == op_code_byte(
                OpCode::Class,
            ));
            assert(pre_body.top_code()[old(parser).top_code().len() as int + 1] == name_constant);
            assert(parser.top_code()[old(parser).top_code().len() as int] == op_code_byte(
                OpCode::Class,
            ));
            assert(parser.top_code()[old(parser).top_code().len() as int + 1] == name_constant);
            assert(parser.top_constants()[name_constant as int] == post_ic.top_constants()[
                name_constant as int]);
            assert(post_ic.top_constants()[name_constant as int]
                == post_ic.top_constants().last());
            lemma_extends_wf(post_ic.heap, parser.heap);
            match post_ic.top_constants().last() {
                Value::Object(nm) => {
                    assert(parser.heap.is_str(nm as int));
                    assert(parser.heap.str_chars(nm as int) == post_ic.heap.str_chars(nm as int));
                },
                _ => {
                    assert(false);
                },
            }
        }
    }
    body
}

/// Parses one `print` statement.
pub fn print_statement(parser: &mut Parser) -> (r: Result<(), CompilerError>)
    requires
        old(parser).wf(),
    ensures
        final(parser).wf(),
        final(parser).progressed(*old(parser)),
        final(parser).top_code().len() >= old(parser).top_code().len(),
        final(parser).lower_chunks_same(*old(parser)),
        r is Ok ==> final(parser).top_code().len() > old(parser).top_code().len() && final(parser).top_code().last() == op_code_byte(OpCode::Print),
    decreases parser.tokens@.len() - parser.pos, 20int,
{
    match expression(parser) {
        Ok(()) => {},
        Err(e) => {
            return Err(e);
        },
    }
    match parser.consume(TokenType::Semicolon, "Expect ';' after value.".as_bytes_vec()) {
        Ok(()) => {},
        Err(e) => {
            return Err(e);
        },
    }
    parser.emit_op(OpCode::Print);
    Ok(())
}

/// Parses one expression statement: the expression's value is dropped.
pub fn expression_statement(parser: &mut Parser) -> (r: Result<(), CompilerError>)
    requires
        old(parser).wf(),
    ensures
        final(parser).wf(),
        final(parser).progressed(*old(parser)),
        final(parser).top_code().len() >= old(parser).top_code().len(),
        final(parser).lower_chunks_same(*old(parser)),
        old(parser).cur_id() != TokenType::EOF ==> final(parser).pos > old(parser).pos,
        r is Ok ==> final(parser).top_code().len() > old(parser).top_code().len() && final(parser).top_code().last() == op_code_byte(OpCode::Pop),
    decreases parser.tokens@.len() - parser.pos, 20int,
{
    match expression(parser) {
        Ok(()) => {},
        Err(e) => {
            return Err(e);
        },
    }
    match parser.consume(TokenType::Semicolon, "Expect ';' after expression.".as_bytes_vec()) {
        Ok(()) => {},
        Err(e) => {
            return Err(e);
        },
    }
    parser.emit_op(OpCode::Pop);
    Ok(())
}

/// Parses one `if` statement with its optional `else` branch.
pub fn if_statement(parser: &mut Parser) -> (r: Result<(), CompilerError>)
    requires
        old(parser).wf(),
    ensures
        final(parser).wf(),
        final(parser).progressed(*old(parser)),
        final(parser).top_code().len() >= old(parser).top_code().len(),
        final(parser).lower_chunks_same(*old(parser)),
    decreases parser.tokens@.len() - parser.pos, 20int,
{
    match parser.consume(TokenType::LeftParen, "Expect '(' after 'if'.".as_bytes_vec()) {
        Ok(()) => {},
        Err(e) => {
            return Err(e);
        },
    }
    match expression(parser) {
        Ok(()) => {},
        Err(e) => {
            return Err(e);
        },
    }
    match parser.consume(TokenType::RightParen, "Expect ')' after condition.".as_bytes_vec()) {
        Ok(()) => {},
        Err(e) => {
            return Err(e);
        },
    }
    let then_jump = parser.emit_jump(OpCode::JumpIfFalse);
    parser.emit_op(OpCode::Pop);
    match statement(parser) {
        Ok(()) => {},
        Err(e) => {
            return Err(e);
        },
    }
    let else_jump = parser.emit_jump(OpCode::Jump);
    match parser.patch_jump(then_jump) {
        Ok(()) => {},
        Err(e) => {
            return Err(e);
        },
    }
    parser.emit_op(OpCode::Pop);
    let has_else = match parser.matches(TokenType::Else) {
        Ok(b) => b,
        Err(e) => {
            return Err(e);
        },
    };
    if has_else {
        match statement(parser) {
            Ok(()) => {},
            Err(e) => {
                return Err(e);
            },
        }
    }
    parser.patch_jump(else_jump)
}

/// Parses one `while` statement.
pub fn while_statement(parser: &mut Parser) -> (r: Result<(), CompilerError>)
    requires
        old(parser).wf(),
    ensures
        final(parser).wf(),
        final(parser).progressed(*old(parser)),
        final(parser).top_code().len() >= old(parser).top_code().len(),
        final(parser).lower_chunks_same(*old(parser)),
        // A compiled while loop ends popping the condition, just after the
        // `Loop` instruction whose operand jumps back exactly to where the
        // statement's code began.
        r is Ok ==> final(parser).top_code().len() >= old(parser).top_code().len() + 4 && final(parser).top_code().last() == op_code_byte(OpCode::Pop) && final(parser).top_code()[final(parser).top_code().len() - 4] == op_code_byte(OpCode::Loop) && final(parser).top_code().len() - 1
            - spec_u16_of(
            final(parser).top_code()[final(parser).top_code().len() - 3],
            final(parser).top_code()[final(parser).top_code().len() - 2],
        ) == old(parser).top_code().len(),
    decreases parser.tokens@.len() - parser.pos, 20int,
{
    let loop_start = parser.code_len();
    match parser.consume(TokenType::LeftParen, "Expect '(' after 'while'.".as_bytes_vec()) {
        Ok(()) => {},
        Err(e) => {
            return Err(e);
        },
    }
    match expression(parser) {
        Ok(()) => {},
        Err(e) => {
            return Err(e);
        },
    }
    match parser.consume(TokenType::RightParen, "Expect ')' after condition.".as_bytes_vec()) {
        Ok(()) => {},
        Err(e) => {
            return Err(e);
        },
    }
    let exit_jump = parser.emit_jump(OpCode::JumpIfFalse);
    parser.emit_op(OpCode::Pop);
    match statement(parser) {
        Ok(()) => {},
        Err(e) => {
            return Err(e);
        },
    }
    match parser.emit_loop(loop_start) {
        Ok(()) => {},
        Err(e) => {
            return Err(e);
        },
    }
    match parser.patch_jump(exit_jump) {
        Ok(()) => {},
        Err(e) => {
            return Err(e);
        },
    }
    parser.emit_op(OpCode::Pop);
    Ok(())
}

/// Parses one `for` statement, desugared into an initializer, a condition
/// jump, an increment jump and a loop.
pub fn for_statement(parser: &mut Parser) -> (r: Result<(), CompilerError>)
    requires
        old(parser).wf(),
    ensures
        final(parser).wf(),
        final(parser).progressed(*old(parser)),
        final(parser).top_code().len() >= old(parser).top_code().len(),
        final(parser).lower_chunks_same(*old(parser)),
    decreases parser.tokens@.len() - parser.pos, 20int,
{
    parser.begin_scope();
    match parser.consume(TokenType::LeftParen, "Expect '(' after 'for'.".as_bytes_vec()) {
        Ok(()) => {},
        Err(e) => {
            return Err(e);
        },
    }
    let no_init = match parser.matches(TokenType::Semicolon) {
        Ok(b) => b,
        Err(e) => {
            return Err(e);
        },
    };
    if !no_init {
        let is_var = match parser.matches(TokenType::Var) {
            Ok(b) => b,
            Err(e) => {
                return Err(e);
            },
        };
        if is_var {
            match var_declaration(parser) {
                Ok(()) => {},
                Err(e) => {
                    return Err(e);
                },
            }
        } else {
            match expression_statement(parser) {
                Ok(()) => {},
                Err(e) => {
                    return Err(e);
                },
            }
        }
    }
    let mut loop_start = parser.code_len();
    let mut exit_jump: Option<usize> = None;
    let no_condition = match parser.matches(TokenType::Semicolon) {
        Ok(b) => b,
        Err(e) => {
            return Err(e);
        },
    };
    if !no_condition {
        match expression(parser) {
            Ok(()) => {},
            Err(e) => {
                return Err(e);
            },
        }
        match parser.consume(
            TokenType::Semicolon,
            "Expect ';' after loop condition.".as_bytes_vec(),
        ) {
            Ok(()) => {},
            Err(e) => {
                return Err(e);
            },
        }
        exit_jump = Some(parser.emit_jump(OpCode::JumpIfFalse));
        parser.emit_op(OpCode::Pop);
    }
    let no_increment = match parser.matches(TokenType::RightParen) {
        Ok(b) => b,
        Err(e) => {
            return Err(e);
        },
    };
    if !no_increment {
        let body_jump = parser.emit_jump(OpCode::Jump);
        let increment_start = parser.code_len();
        match expression(parser) {
            Ok(()) => {},
            Err(e) => {
                return Err(e);
            },
        }
        parser.emit_op(OpCode::Pop);
        match parser.consume(TokenType::RightParen, "Expect ')' after for clauses.".as_bytes_vec())
        {
            Ok(()) => {},
            Err(e) => {
                return Err(e);
            },
        }
        match parser.emit_loop(loop_start) {
            Ok(()) => {},
            Err(e) => {
                return Err(e);
            },
        }
        loop_start = increment_start;
        match parser.patch_jump(body_jump) {
            Ok(()) => {},
            Err(e) => {
                return Err(e);
            },
        }
    }
    match statement(parser) {
        Ok(()) => {},
        Err(e) => {
            return Err(e);
        },
    }
    match parser.emit_loop(loop_start) {
        Ok(()) => {},
        Err(e) => {
            return Err(e);
        },
    }
    if let Some(exit) = exit_jump {
        match parser.patch_jump(exit) {
            Ok(()) => {},
            Err(e) => {
                return Err(e);
            },
        }
        parser.emit_op(OpCode::Pop);
    }
    parser.end_scope();
    Ok(())
}

/// Parses one `return` statement. Top-level code cannot return, and an
/// initializer cannot return a value.
pub fn return_statement(parser: &mut Parser) -> (r: Result<(), CompilerError>)
    requires
        old(parser).wf(),
    ensures
        final(parser).wf(),
        final(parser).progressed(*old(parser)),
        final(parser).top_code().len() >= old(parser).top_code().len(),
        final(parser).lower_chunks_same(*old(parser)),
        // A return statement ends in the `Return` instruction; the script
        // itself and an initializer handing back a value are diagnostics.
        r is Ok ==> final(parser).top_code().len() > old(parser).top_code().len() && final(parser).top_code().last() == op_code_byte(OpCode::Return),
        old(parser).top().ftype == FunctionType::Script ==> (r matches Err(e) && e.message@
            == "Can't return from top-level code.".spec_bytes()),
    decreases parser.tokens@.len() - parser.pos, 20int,
{
    let k = parser.compilers.len() - 1;
    if parser.compilers[k].ftype == FunctionType::Script {
        let e = parser.error("Can't return from top-level code.".as_bytes_vec());
        return Err(e);
    }
    let bare = match parser.matches(TokenType::Semicolon) {
        Ok(b) => b,
        Err(e) => {
            return Err(e);
        },
    };
    if bare {
        parser.emit_return();
        return Ok(());
    }
    let k2 = parser.compilers.len() - 1;
    if parser.compilers[k2].ftype == FunctionType::Initializer {
        let e = parser.error("Can't return a value from an initializer.".as_bytes_vec());
        return Err(e);
    }
    match expression(parser) {
        Ok(()) => {},
        Err(e) => {
            return Err(e);
        },
    }
    match parser.consume(TokenType::Semicolon, "Expect ';' after return value.".as_bytes_vec()) {
        Ok(()) => {},
        Err(e) => {
            return Err(e);
        },
    }
    parser.emit_op(OpCode::Return);
    Ok(())
}

/// Parses one statement.
pub fn statement(parser: &mut Parser) -> (r: Result<(), CompilerError>)
    requires
        old(parser).wf(),
    ensures
        final(parser).wf(),
        final(parser).progressed(*old(parser)),
        final(parser).top_code().len() >= old(parser).top_code().len(),
        final(parser).lower_chunks_same(*old(parser)),
        old(parser).cur_id() != TokenType::EOF ==> final(parser).pos > old(parser).pos,
    decreases parser.tokens@.len() - parser.pos, 22int,
{
    match parser.matches(TokenType::Print) {
        Ok(true) => {
            return print_statement(parser);
        },
        Ok(false) => {},
        Err(e) => {
            return Err(e);
        },
    }
    match parser.matches(TokenType::For) {
        Ok(true) => {
            return for_statement(parser);
        },
        Ok(false) => {},
        Err(e) => {
            return Err(e);
        },
    }
    match parser.matches(TokenType::If) {
        Ok(true) => {
            return if_statement(parser);
        },
        Ok(false) => {},
        Err(e) => {
            return Err(e);
        },
    }
    match parser.matches(TokenType::Return) {
        Ok(true) => {
            return return_statement(parser);
        },
        Ok(false) => {},
        Err(e) => {
            return Err(e);
        },
    }
    match parser.matches(TokenType::While) {
        Ok(true) => {
            return while_statement(parser);
        },
        Ok(false) => {},
        Err(e) => {
            return Err(e);
        },
    }
    match parser.matches(TokenType::LeftBrace) {
        Ok(true) => {
            parser.begin_scope();
            let r = block(parser);
            parser.end_scope();
            return r;
        },
        Ok(false) => {},
        Err(e) => {
            return Err(e);
        },
    }
    expression_statement(parser)
}

/// Parses one declaration; on a parse error it reports the diagnostic and
/// skips to the next statement boundary so that later diagnostics surface.
pub fn declaration(parser: &mut Parser)
    requires
        old(parser).wf(),
    ensures
        final(parser).wf(),
        final(parser).progressed(*old(parser)),
        final(parser).top_code().len() >= old(parser).top_code().len(),
        final(parser).lower_chunks_same(*old(parser)),
        old(parser).cur_id() != TokenType::EOF ==> final(parser).pos > old(parser).pos,
    decreases parser.tokens@.len() - parser.pos, 26int,
{
    let r: Result<(), CompilerError> = match parser.matches(TokenType::Class) {
        Ok(true) => class_declaration(parser),
        Ok(false) => match parser.matches(TokenType::Fun) {
            Ok(true) => fun_declaration(parser),
            Ok(false) => match parser.matches(TokenType::Var) {
                Ok(true) => var_declaration(parser),
                Ok(false) => statement(parser),
                Err(e) => Err(e),
            },
            Err(e) => Err(e),
        },
        Err(e) => Err(e),
    };
    if r.is_err() {
        synchronize(parser);
    }
}

/// Compiles a whole source into the function object of the script, in the
/// given heap. On any parse error the first diagnostic is the outcome and
/// the program must not run; the heap keeps what was interned meanwhile.
pub fn compile(source: Vec<u8>, heap: Heap) -> (r: (Result<usize, CompilerError>, Heap))
    requires
        heap.wf(),
    ensures
        r.1.wf(),
        r.1.extends(heap),
        r.1.globals == heap.globals,
        r.0 matches Ok(f) ==> r.1.is_function(f as int) && r.1.function_of(f as int).arity == 0
            && r.1.function_of(f as int).upvalue_count == 0 && r.1.function_of(
            f as int,
        ).chunk.wf(),
        r.0 matches Ok(f) ==> r.1.function_of(f as int).chunk.spec_name() == "script"@
            && r.1.function_of(f as int).chunk.code@.len() >= 2 && r.1.function_of(
            f as int,
        ).chunk.code@.last() == op_code_byte(OpCode::Return) && r.1.function_of(
            f as int,
        ).chunk.code@[r.1.function_of(f as int).chunk.code@.len() - 2] == op_code_byte(
            OpCode::Nil,
        ),
{
    let tokens = tokenize(source);
    let mut parser = Parser::new(tokens, heap);
    loop
        invariant
            parser.wf(),
            parser.heap.extends(heap),
            parser.heap.globals == heap.globals,
            parser.compilers@.len() == 1,
        decreases parser.remaining(),
    {
        let done = match parser.matches(TokenType::EOF) {
            Ok(b) => b,
            Err(e) => {
                return (Err(e), parser.heap);
            },
        };
        if done {
            break;
        }
        declaration(&mut parser);
    }
    // The script's implicit return: a script yields nil.
    parser.emit_op(OpCode::Nil);
    parser.emit_op(OpCode::Return);
    let inner_opt = parser.compilers.pop();
    let mut inner = match inner_opt {
        Some(c) => c,
        None => {
            proof {
                assert(false);
            }
            Compiler::new(FunctionType::Script, Vec::new())
        },
    };
    inner.chunk.set_name("script");
    let size = if inner.chunk.code.len() <= usize::MAX - 96 {
        96 + inner.chunk.code.len()
    } else {
        usize::MAX
    };
    // The script function captures nothing: there is nothing around it.
    let fobj = ObjFunction { arity: 0, upvalue_count: 0, chunk: inner.chunk, name: None };
    let ghost pre_alloc_heap = parser.heap;
    proof {
        assert(parser.heap.obj_wf(Obj::Function(fobj)));
    }
    let mut heap_out = parser.heap;
    let fidx = heap_out.allocate_obj(Obj::Function(fobj), size);
    match parser.first_error {
        Some(e) => (Err(e), heap_out),
        None => (Ok(fidx), heap_out),
    }
}

} // verus!
