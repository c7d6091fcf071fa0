//! A single-pass Pratt compiler: tokens in, bytecode out.

use vstd::prelude::*;
use vstd::string::StringExecFns;

use crate::chunk::{
    has_print_from, lemma_has_print_concat, lemma_wf_code_concat, lemma_wf_code_mono,
    wf_code_from, Chunk, Literal, LiteralV, OpCode,
};
use crate::scanner::{
    blank_from, contains_print_word, first_significant, lemma_blank_iff_no_significant,
    scan_of, scanned_token, starts_no_expression, starts_no_token, Scanner, Token, TokenType,
};
use crate::text::{decimal_digits, usize_to_string};
use crate::vm::InterpretError;

verus! {

/// Binding strength, weakest first; an infix operator at a given level
/// takes operands parsed at the next higher level, which makes it
/// left-associative.
#[derive(Debug, Clone, Copy, PartialEq, Eq, Structural)]
pub enum Precedence {
    NoPrecedence,
    Assignment,
    Or,
    And,
    Equality,
    Comparison,
    Term,
    Factor,
    Unary,
    Call,
    Primary,
}

impl Precedence {
    /// The numeric rank of the level.
    pub open spec fn spec_level(self) -> u8 {
        match self {
            Precedence::NoPrecedence => 0,
            Precedence::Assignment => 1,
            Precedence::Or => 2,
            Precedence::And => 3,
            Precedence::Equality => 4,
            Precedence::Comparison => 5,
            Precedence::Term => 6,
            Precedence::Factor => 7,
            Precedence::Unary => 8,
            Precedence::Call => 9,
            Precedence::Primary => 10,
        }
    }

    pub fn level(self) -> (r: u8)
        ensures
            r == self.spec_level(),
    {
        match self {
            Precedence::NoPrecedence => 0,
            Precedence::Assignment => 1,
            Precedence::Or => 2,
            Precedence::And => 3,
            Precedence::Equality => 4,
            Precedence::Comparison => 5,
            Precedence::Term => 6,
            Precedence::Factor => 7,
            Precedence::Unary => 8,
            Precedence::Call => 9,
            Precedence::Primary => 10,
        }
    }

    /// The next higher level.
    pub open spec fn spec_higher(self) -> Precedence {
        match self {
            Precedence::NoPrecedence => Precedence::Assignment,
            Precedence::Assignment => Precedence::Or,
            Precedence::Or => Precedence::And,
            Precedence::And => Precedence::Equality,
            Precedence::Equality => Precedence::Comparison,
            Precedence::Comparison => Precedence::Term,
            Precedence::Term => Precedence::Factor,
            Precedence::Factor => Precedence::Unary,
            Precedence::Unary => Precedence::Call,
            Precedence::Call => Precedence::Primary,
            Precedence::Primary => Precedence::Primary,
        }
    }

    /// The level one step up from `p`; `Primary` has none.
    pub fn higher_precedence(p: Precedence) -> (r: Precedence)
        requires
            p != Precedence::Primary,
        ensures
            r == p.spec_higher(),
            r.spec_level() == p.spec_level() + 1,
    {
        match p {
            Precedence::NoPrecedence => Precedence::Assignment,
            Precedence::Assignment => Precedence::Or,
            Precedence::Or => Precedence::And,
            Precedence::And => Precedence::Equality,
            Precedence::Equality => Precedence::Comparison,
            Precedence::Comparison => Precedence::Term,
            Precedence::Term => Precedence::Factor,
            Precedence::Factor => Precedence::Unary,
            Precedence::Unary => Precedence::Call,
            _ => Precedence::Primary,
        }
    }
}

/// The infix half of the parse-rule table: the binding strength of each
/// token when it stands between two operands. Tokens that are no infix
/// operator sit at level `None`.
pub open spec fn spec_infix_precedence(tt: TokenType) -> Precedence {
    match tt {
        TokenType::Minus => Precedence::Term,
        TokenType::Plus => Precedence::Term,
        TokenType::Slash => Precedence::Factor,
        TokenType::Star => Precedence::Factor,
        TokenType::Bangequal => Precedence::Equality,
        TokenType::Equalequal => Precedence::Equality,
        TokenType::Greater => Precedence::Comparison,
        TokenType::Greaterequal => Precedence::Comparison,
        TokenType::Less => Precedence::Comparison,
        TokenType::Lessequal => Precedence::Comparison,
        _ => Precedence::NoPrecedence,
    }
}

pub fn infix_precedence(tt: TokenType) -> (r: Precedence)
    ensures
        r == spec_infix_precedence(tt),
{
    match tt {
        TokenType::Minus => Precedence::Term,
        TokenType::Plus => Precedence::Term,
        TokenType::Slash => Precedence::Factor,
        TokenType::Star => Precedence::Factor,
        TokenType::Bangequal => Precedence::Equality,
        TokenType::Equalequal => Precedence::Equality,
        TokenType::Greater => Precedence::Comparison,
        TokenType::Greaterequal => Precedence::Comparison,
        TokenType::Less => Precedence::Comparison,
        TokenType::Lessequal => Precedence::Comparison,
        _ => Precedence::NoPrecedence,
    }
}

/// The prefix half of the parse-rule table: which tokens can open an
/// expression.
pub open spec fn spec_has_prefix_rule(tt: TokenType) -> bool {
    match tt {
        TokenType::Leftparen => true,
        TokenType::Minus => true,
        TokenType::Bang => true,
        TokenType::Identifier => true,
        TokenType::String => true,
        TokenType::Number => true,
        TokenType::False => true,
        TokenType::True => true,
        TokenType::Nil => true,
        _ => false,
    }
}

/// A token kind on which a declaration must fail: it opens no statement
/// (`var`, `print`), no expression, and is neither a lexical error nor
/// the end of the stream.
pub open spec fn cannot_open_statement(tt: TokenType) -> bool {
    tt != TokenType::Var && tt != TokenType::Print && tt != TokenType::Error && tt
        != TokenType::Eof && !spec_has_prefix_rule(tt)
}

/// The bytes that the infix rule for an operator appends after its right
/// operand; the compound operators desugar to a comparison plus `Not`.
pub open spec fn binary_op_bytes(tt: TokenType) -> Seq<u8> {
    match tt {
        TokenType::Plus => seq![OpCode::Add.byte()],
        TokenType::Minus => seq![OpCode::Subtract.byte()],
        TokenType::Star => seq![OpCode::Multiply.byte()],
        TokenType::Slash => seq![OpCode::Divide.byte()],
        TokenType::Equalequal => seq![OpCode::Equal.byte()],
        TokenType::Bangequal => seq![OpCode::Equal.byte(), OpCode::Not.byte()],
        TokenType::Greater => seq![OpCode::Greater.byte()],
        TokenType::Greaterequal => seq![OpCode::Less.byte(), OpCode::Not.byte()],
        TokenType::Less => seq![OpCode::Less.byte()],
        TokenType::Lessequal => seq![OpCode::Greater.byte(), OpCode::Not.byte()],
        _ => Seq::empty(),
    }
}

/// The compound comparison operators are sugar: `!=` emits exactly the
/// bytes of `==` followed by `Not`, `<=` those of `>` followed by `Not`,
/// and `>=` those of `<` followed by `Not`; so each desugared pair is
/// observable by disassembly.
pub proof fn lemma_compound_operator_bytes()
    ensures
        binary_op_bytes(TokenType::Bangequal) == binary_op_bytes(TokenType::Equalequal).push(
            OpCode::Not.byte(),
        ),
        binary_op_bytes(TokenType::Lessequal) == binary_op_bytes(TokenType::Greater).push(
            OpCode::Not.byte(),
        ),
        binary_op_bytes(TokenType::Greaterequal) == binary_op_bytes(TokenType::Less).push(
            OpCode::Not.byte(),
        ),
{
    assert(binary_op_bytes(TokenType::Bangequal) =~= binary_op_bytes(
        TokenType::Equalequal,
    ).push(OpCode::Not.byte()));
    assert(binary_op_bytes(TokenType::Lessequal) =~= binary_op_bytes(TokenType::Greater).push(
        OpCode::Not.byte(),
    ));
    assert(binary_op_bytes(TokenType::Greaterequal) =~= binary_op_bytes(TokenType::Less).push(
        OpCode::Not.byte(),
    ));
}

/// In the rule table the factor operators bind more tightly than the
/// term operators, those more tightly than the comparisons, and those
/// more tightly than the equalities; every infix operator binds more
/// tightly than assignment.
pub proof fn lemma_rule_table_order()
    ensures
        spec_infix_precedence(TokenType::Star).spec_level() > spec_infix_precedence(
            TokenType::Plus,
        ).spec_level(),
        spec_infix_precedence(TokenType::Slash).spec_level() > spec_infix_precedence(
            TokenType::Minus,
        ).spec_level(),
        spec_infix_precedence(TokenType::Plus).spec_level() > spec_infix_precedence(
            TokenType::Less,
        ).spec_level(),
        spec_infix_precedence(TokenType::Less).spec_level() > spec_infix_precedence(
            TokenType::Equalequal,
        ).spec_level(),
        forall|tt: TokenType|
            spec_infix_precedence(tt) != Precedence::NoPrecedence ==> (
            #[trigger] spec_infix_precedence(tt).spec_level())
                > Precedence::Assignment.spec_level(),
{
}

/// The text of one parser diagnostic: `[line N] Error <where>: <message>`,
/// where `<where>` names the offending token's text, `at end` for the end
/// of the stream, and nothing for a lexical-error token.
pub open spec fn diagnostic_view(t: Token, message: Seq<char>) -> Seq<char> {
    "[line "@ + decimal_digits(t.line as nat) + "] Error "@ + (match t.token_type {
        TokenType::Eof => "at end"@,
        TokenType::Error => Seq::<char>::empty(),
        _ => "at '"@ + t.lexeme@ + "'"@,
    }) + ": "@ + message
}

/// The parser: the token stream with a two-token window over it, the
/// chunk being built, and the error state.
pub struct Parser {
    pub chunk: Chunk,
    pub tokens: Vec<Token>,
    /// Index of the next token to load into the window.
    pub pos: usize,
    /// Index of the lookahead token.
    pub current: usize,
    /// Index of the most recently consumed token.
    pub previous: usize,
    pub had_error: bool,
    pub panic_mode: bool,
    pub diagnostics: Vec<String>,
}

impl Parser {
    /// The parser's invariant: the token stream ends with its only `Eof`,
    /// the window indices are in range, the chunk under construction is
    /// well formed, and a diagnostic has been recorded exactly when the
    /// error flag is set.
    pub open spec fn wf(&self) -> bool {
        &&& self.tokens@.len() > 0
        &&& self.tokens@.last().token_type == TokenType::Eof
        &&& (forall|i: int|
            0 <= i < self.tokens@.len() - 1 ==> (#[trigger] self.tokens@[i]).token_type
                != TokenType::Eof)
        &&& (forall|i: int|
            0 <= i < self.tokens@.len() ==> ((#[trigger] self.tokens@[i]).token_type
                == TokenType::String ==> self.tokens@[i].lexeme@.len() >= 2))
        &&& self.pos < self.tokens@.len()
        &&& self.current < self.tokens@.len()
        &&& self.previous < self.tokens@.len()
        &&& self.chunk.lines_match()
        &&& self.chunk.wf_code()
        &&& self.chunk.constants@.len() <= 255
        &&& (self.had_error <==> self.diagnostics@.len() > 0)
        &&& (self.panic_mode ==> self.had_error)
    }

    /// Scan the whole source and stand ready on its token stream with an
    /// empty chunk; the window indices rest on the final `Eof` until the
    /// first `advance`.
    pub fn init(source: String) -> (p: Parser)
        ensures
            p.wf(),
            !p.had_error,
            !p.panic_mode,
            p.pos == 0,
            p.chunk.code@ == Seq::<u8>::empty(),
            p.chunk.constants@ == Seq::<Literal>::empty(),
            blank_from(source@, 0, false) <==> p.tokens@.len() == 1,
            !contains_print_word(source@) ==> !tokens_have_print(p.tokens@),
            (first_significant(source@, 0, false) < source@.len() && starts_no_token(
                source@[first_significant(source@, 0, false)],
            )) ==> p.tokens@[0].token_type == TokenType::Error,
            starts_no_expression(source@) ==> cannot_open_statement(p.tokens@[0].token_type),
            scan_of(source@, 0, p.tokens@),
    {
        let mut scanner = Scanner::init(source);
        let ghost src = scanner.source@;
        let mut tokens: Vec<Token> = Vec::new();
        proof {
            assert forall|rest: Seq<Token>| #[trigger] scan_of(src, 0, rest) implies scan_of(
                src,
                0,
                tokens@ + rest,
            ) by {
                assert(tokens@ + rest =~= rest);
            }
        }
        loop
            invariant_except_break
                forall|i: int|
                    0 <= i < tokens@.len() ==> (#[trigger] tokens@[i]).token_type
                        != TokenType::Eof,
                blank_from(src, 0, false) ==> tokens@.len() == 0 && blank_from(
                    src,
                    scanner.current as int,
                    false,
                ),
                !blank_from(src, 0, false) ==> (tokens@.len() >= 1 || (scanner.current == 0
                    && !blank_from(src, scanner.current as int, false))),
                (first_significant(src, 0, false) < src.len() && starts_no_token(
                    src[first_significant(src, 0, false)],
                )) ==> (tokens@.len() == 0 && scanner.current == 0 || tokens@.len() >= 1
                    && tokens@[0].token_type == TokenType::Error),
                starts_no_expression(src) ==> (tokens@.len() == 0 && scanner.current == 0
                    || tokens@.len() >= 1 && cannot_open_statement(tokens@[0].token_type)),
                forall|rest: Seq<Token>|
                    #[trigger] scan_of(src, scanner.current as int, rest) ==> scan_of(
                        src,
                        0,
                        tokens@ + rest,
                    ),
            invariant
                scanner.wf(),
                scanner.source@ == src,
                forall|i: int|
                    0 <= i < tokens@.len() ==> ((#[trigger] tokens@[i]).token_type
                        == TokenType::String ==> tokens@[i].lexeme@.len() >= 2),
                !contains_print_word(src) ==> (forall|i: int|
                    0 <= i < tokens@.len() ==> (#[trigger] tokens@[i]).token_type
                        != TokenType::Print),
            ensures
                tokens@.len() > 0,
                tokens@.last().token_type == TokenType::Eof,
                forall|i: int|
                    0 <= i < tokens@.len() - 1 ==> (#[trigger] tokens@[i]).token_type
                        != TokenType::Eof,
                forall|i: int|
                    0 <= i < tokens@.len() ==> ((#[trigger] tokens@[i]).token_type
                        == TokenType::String ==> tokens@[i].lexeme@.len() >= 2),
                blank_from(src, 0, false) ==> tokens@.len() == 1,
                !blank_from(src, 0, false) ==> tokens@.len() >= 2,
                (first_significant(src, 0, false) < src.len() && starts_no_token(
                    src[first_significant(src, 0, false)],
                )) ==> tokens@[0].token_type == TokenType::Error,
                starts_no_expression(src) ==> cannot_open_statement(tokens@[0].token_type),
                scan_of(src, 0, tokens@),
                !contains_print_word(src) ==> (forall|i: int|
                    0 <= i < tokens@.len() ==> (#[trigger] tokens@[i]).token_type
                        != TokenType::Print),
            decreases src.len() - scanner.current + 1,
        {
            let ghost before_cur = scanner.current;
            let ghost tokens_pre = tokens@;
            let t = scanner.scan_token();
            let done = t.token_type == TokenType::Eof;
            tokens.push(t);
            if done {
                proof {
                    lemma_blank_iff_no_significant(src, 0, false);
                    assert(scanned_token(src, before_cur as int, scanner.current as int, t));
                    assert(scan_of(src, before_cur as int, seq![t]));
                    assert(tokens@ =~= tokens_pre + seq![t]);
                }
                break;
            }
            proof {
                assert forall|rest: Seq<Token>|
                    #[trigger] scan_of(src, scanner.current as int, rest) implies scan_of(
                    src,
                    0,
                    tokens@ + rest,
                ) by {
                    assert(rest.len() > 0);
                    assert((seq![t] + rest)[0] == t);
                    assert((seq![t] + rest).skip(1) =~= rest);
                    assert(scanned_token(src, before_cur as int, scanner.current as int, t));
                    assert(scan_of(src, before_cur as int, seq![t] + rest));
                    assert(tokens_pre + (seq![t] + rest) =~= tokens@ + rest);
                    assert(scan_of(src, 0, tokens_pre + (seq![t] + rest)));
                }
            }
        }
        proof {
            assert(wf_code_from(Seq::<u8>::empty(), 0, 0));
        }
        Parser {
            chunk: Chunk::init(),
            pos: 0,
            current: tokens.len() - 1,
            previous: tokens.len() - 1,
            tokens,
            had_error: false,
            panic_mode: false,
            diagnostics: Vec::new(),
        }
    }

    /// Append one diagnostic in the form `[line N] Error <where>: <message>`.
    fn report(&mut self, at: usize, message: &str)
        requires
            at < old(self).tokens@.len(),
        ensures
            *final(self) == (Parser { diagnostics: final(self).diagnostics, ..*old(self) }),
            final(self).diagnostics@.len() == old(self).diagnostics@.len() + 1,
            old(self).diagnostics@.is_prefix_of(final(self).diagnostics@),
            final(self).diagnostics@.last()@ == diagnostic_view(
                old(self).tokens@[at as int],
                message@,
            ),
    {
        let line = self.tokens[at].line;
        let tt = self.tokens[at].token_type;
        let mut s = String::from_str("[line ");
        s.append(usize_to_string(line).as_str());
        s.append("] Error ");
        match tt {
            TokenType::Eof => s.append("at end"),
            TokenType::Error => (),
            _ => {
                let lex = self.tokens[at].lexeme.clone();
                s.append("at '");
                s.append(lex.as_str());
                s.append("'");
            },
        }
        s.append(": ");
        s.append(message);
        proof {
            assert(s@ =~= diagnostic_view(self.tokens@[at as int], message@));
        }
        let ghost before = self.diagnostics@;
        self.diagnostics.push(s);
        proof {
            assert(before.is_prefix_of(self.diagnostics@));
        }
    }

    /// Record an error at the lookahead token.
    fn error_at_current(&mut self, message: &str)
        requires
            old(self).wf(),
        ensures
            final(self).wf(),
            *final(self) == (Parser {
                had_error: true,
                panic_mode: true,
                diagnostics: final(self).diagnostics,
                ..*old(self)
            }),
            old(self).diagnostics@.is_prefix_of(final(self).diagnostics@),
            final(self).diagnostics@.len() == old(self).diagnostics@.len() + (if old(self).panic_mode {
                0int
            } else {
                1int
            }),
            !old(self).panic_mode ==> final(self).diagnostics@.last()@ == diagnostic_view(
                old(self).tokens@[old(self).current as int],
                message@,
            ),
    {
        self.had_error = true;
        if self.panic_mode {
            return ;
        }
        self.panic_mode = true;
        let at = self.current;
        self.report(at, message);
    }

    /// Record an error at the token just consumed.
    fn error(&mut self, message: &str)
        requires
            old(self).wf(),
        ensures
            final(self).wf(),
            *final(self) == (Parser {
                had_error: true,
                panic_mode: true,
                diagnostics: final(self).diagnostics,
                ..*old(self)
            }),
            old(self).diagnostics@.is_prefix_of(final(self).diagnostics@),
            final(self).diagnostics@.len() == old(self).diagnostics@.len() + (if old(self).panic_mode {
                0int
            } else {
                1int
            }),
            !old(self).panic_mode ==> final(self).diagnostics@.last()@ == diagnostic_view(
                old(self).tokens@[old(self).previous as int],
                message@,
            ),
    {
        self.had_error = true;
        if self.panic_mode {
            return ;
        }
        self.panic_mode = true;
        let at = self.previous;
        self.report(at, message);
    }

    /// Move the window one token forward, reporting and skipping `Error`
    /// tokens. Once the stream is exhausted the window rests on `Eof`.
    fn advance(&mut self)
        requires
            old(self).wf(),
        ensures
            final(self).wf(),
            final(self).tokens@ == old(self).tokens@,
            final(self).chunk == old(self).chunk,
            final(self).previous == old(self).current,
            old(self).pos <= final(self).pos,
            final(self).pos > old(self).pos || final(self).tokens@[final(self).current as int].token_type == TokenType::Eof,
            final(self).tokens@[final(self).current as int].token_type != TokenType::Error,
            old(self).had_error ==> final(self).had_error,
            old(self).panic_mode ==> final(self).panic_mode,
            old(self).diagnostics@.is_prefix_of(final(self).diagnostics@),
            old(self).tokens@[old(self).pos as int].token_type != TokenType::Error ==> final(self).current == old(self).pos && final(self).had_error == old(self).had_error && final(self).panic_mode == old(self).panic_mode && final(self).diagnostics@ == old(self).diagnostics@ && final(self).pos == (if old(self).pos + 1 < old(self).tokens@.len() {
                old(self).pos + 1int
            } else {
                old(self).pos as int
            }),
            (exists|j: int|
                old(self).pos <= j < final(self).pos && (#[trigger] old(self).tokens@[j]).token_type
                    == TokenType::Error) ==> final(self).had_error,
            final(self).had_error ==> old(self).had_error || (exists|j: int|
                old(self).pos <= j < final(self).pos && (#[trigger] old(self).tokens@[j]).token_type
                    == TokenType::Error),
            (!old(self).panic_mode && final(self).panic_mode) ==> final(self).diagnostics@.len()
                > old(self).diagnostics@.len(),
            old(self).pos + 1 < old(self).tokens@.len() ==> final(self).pos > old(self).pos,
            (!old(self).panic_mode && old(self).tokens@[old(self).pos as int].token_type
                == TokenType::Error) ==> (final(self).diagnostics@.len() > old(self).diagnostics@.len() && final(self).diagnostics@[old(self).diagnostics@.len() as int]@
                == diagnostic_view(
                old(self).tokens@[old(self).pos as int],
                old(self).tokens@[old(self).pos as int].lexeme@,
            )),
    {
        self.previous = self.current;
        loop
            invariant_except_break
                (self.pos == old(self).pos && self.current == old(self).current && self.had_error
                    == old(self).had_error && self.panic_mode == old(self).panic_mode
                    && self.diagnostics@ == old(self).diagnostics@) || (self.pos > old(self).pos
                    && old(self).tokens@[old(self).pos as int].token_type == TokenType::Error),
            invariant
                self.wf(),
                self.tokens@ == old(self).tokens@,
                self.chunk == old(self).chunk,
                self.previous == old(self).current,
                old(self).pos <= self.pos,
                old(self).had_error ==> self.had_error,
                old(self).panic_mode ==> self.panic_mode,
                old(self).diagnostics@.is_prefix_of(self.diagnostics@),
                (exists|j: int|
                    old(self).pos <= j < self.pos && (#[trigger] old(self).tokens@[j]).token_type
                        == TokenType::Error) ==> self.had_error,
                self.had_error ==> old(self).had_error || (exists|j: int|
                    old(self).pos <= j < self.pos && (#[trigger] old(self).tokens@[j]).token_type
                        == TokenType::Error),
                (!old(self).panic_mode && self.panic_mode) ==> self.diagnostics@.len() > old(self).diagnostics@.len(),
                (!old(self).panic_mode && self.pos > old(self).pos && old(self).tokens@[old(self).pos as int].token_type == TokenType::Error) ==> (self.diagnostics@.len() > old(self).diagnostics@.len() && self.diagnostics@[old(self).diagnostics@.len() as int]@
                    == diagnostic_view(
                    old(self).tokens@[old(self).pos as int],
                    old(self).tokens@[old(self).pos as int].lexeme@,
                )),
            ensures
                self.tokens@[self.current as int].token_type != TokenType::Error,
                self.pos > old(self).pos || self.tokens@[self.current as int].token_type
                    == TokenType::Eof,
                old(self).pos + 1 < old(self).tokens@.len() ==> self.pos > old(self).pos,
                old(self).tokens@[old(self).pos as int].token_type != TokenType::Error ==> (
                self.current == old(self).pos && self.had_error == old(self).had_error
                    && self.panic_mode == old(self).panic_mode && self.diagnostics@ == old(self).diagnostics@ && self.pos == (if old(self).pos + 1 < old(self).tokens@.len() {
                    old(self).pos + 1int
                } else {
                    old(self).pos as int
                })),
            decreases self.tokens@.len() - self.pos,
        {
            self.current = self.pos;
            if self.pos < self.tokens.len() - 1 {
                self.pos = self.pos + 1;
            }
            if self.tokens[self.current].token_type != TokenType::Error {
                break;
            }
            let msg = self.tokens[self.current].lexeme.clone();
            self.error_at_current(msg.as_str());
        }
    }

    /// Whether the lookahead token has the given kind.
    fn check(&self, t: TokenType) -> (r: bool)
        requires
            self.wf(),
        ensures
            r == (self.tokens@[self.current as int].token_type == t),
    {
        self.tokens[self.current].token_type == t
    }

    /// Consume the lookahead token when it has the given kind.
    fn match_token(&mut self, t: TokenType) -> (r: bool)
        requires
            old(self).wf(),
        ensures
            final(self).wf(),
            final(self).tokens@ == old(self).tokens@,
            final(self).chunk == old(self).chunk,
            old(self).pos <= final(self).pos,
            old(self).had_error ==> final(self).had_error,
            old(self).panic_mode ==> final(self).panic_mode,
            old(self).diagnostics@.is_prefix_of(final(self).diagnostics@),
            r == (old(self).tokens@[old(self).current as int].token_type == t),
            !r ==> *final(self) == *old(self),
            r ==> final(self).previous == old(self).current && (final(self).pos > old(self).pos
                || final(self).tokens@[final(self).current as int].token_type == TokenType::Eof),
            (r && old(self).tokens@[old(self).pos as int].token_type != TokenType::Error) ==> (
            final(self).had_error == old(self).had_error && final(self).panic_mode == old(self).panic_mode && final(self).diagnostics@ == old(self).diagnostics@ && final(self).current == old(self).pos),
    {
        if !self.check(t) {
            false
        } else {
            self.advance();
            true
        }
    }

    /// Consume the lookahead token when it has the given kind, else
    /// report `msg` at it.
    fn consume(&mut self, t: TokenType, msg: &str)
        requires
            old(self).wf(),
        ensures
            final(self).wf(),
            final(self).tokens@ == old(self).tokens@,
            final(self).chunk == old(self).chunk,
            old(self).pos <= final(self).pos,
            old(self).had_error ==> final(self).had_error,
            old(self).panic_mode ==> final(self).panic_mode,
            old(self).diagnostics@.is_prefix_of(final(self).diagnostics@),
            old(self).tokens@[old(self).current as int].token_type == t ==> final(self).previous
                == old(self).current && (final(self).pos > old(self).pos || final(self).tokens@[final(self).current as int].token_type == TokenType::Eof),
            old(self).tokens@[old(self).current as int].token_type != t ==> (*final(self)
                == (Parser {
                had_error: true,
                panic_mode: true,
                diagnostics: final(self).diagnostics,
                ..*old(self)
            })),
    {
        if self.check(t) {
            self.advance();
        } else {
            self.error_at_current(msg);
        }
    }

    /// Append one operand-free instruction, attributed to the line of the
    /// token just consumed.
    fn emit_op(&mut self, op: OpCode)
        requires
            old(self).wf(),
            !op.spec_has_operand(),
        ensures
            final(self).wf(),
            *final(self) == (Parser { chunk: final(self).chunk, ..*old(self) }),
            final(self).chunk.code@ == old(self).chunk.code@ + seq![op.byte()],
            final(self).chunk.constants@ == old(self).chunk.constants@,
            has_print_from(final(self).chunk.code@, 0) == (has_print_from(
                old(self).chunk.code@,
                0,
            ) || op == OpCode::Print),
            wf_code_from(
                final(self).chunk.code@,
                final(self).chunk.constants@.len() as nat,
                old(self).chunk.code@.len() as int,
            ),
    {
        let line = self.tokens[self.previous].line;
        let b = op.to_byte();
        proof {
            let unit = seq![op.byte()];
            let n = self.chunk.constants@.len() as nat;
            assert(unit[0] == op.byte());
            assert(wf_code_from(unit, n, 1));
            assert(wf_code_from(unit, n, 0));
            lemma_wf_code_concat(self.chunk.code@, unit, n, 0);
            crate::chunk::lemma_wf_code_offset(self.chunk.code@, unit, n, 0);
            assert(!has_print_from(unit, 1));
            assert(has_print_from(unit, 0) == (op == OpCode::Print));
            lemma_has_print_concat(self.chunk.code@, unit, n, 0);
        }
        self.chunk.write(b, line);
        proof {
            assert(final(self).chunk.code@ =~= old(self).chunk.code@ + seq![op.byte()]);
        }
    }

    /// Append one instruction that carries a constant-pool index.
    fn emit_op_operand(&mut self, op: OpCode, index: u8)
        requires
            old(self).wf(),
            op.spec_has_operand(),
            index < old(self).chunk.constants@.len(),
        ensures
            final(self).wf(),
            *final(self) == (Parser { chunk: final(self).chunk, ..*old(self) }),
            final(self).chunk.code@ == old(self).chunk.code@ + seq![op.byte(), index],
            final(self).chunk.constants@ == old(self).chunk.constants@,
            has_print_from(final(self).chunk.code@, 0) == has_print_from(
                old(self).chunk.code@,
                0,
            ),
    {
        let line = self.tokens[self.previous].line;
        let b = op.to_byte();
        proof {
            let unit = seq![op.byte(), index];
            let n = self.chunk.constants@.len() as nat;
            assert(unit[0] == op.byte());
            assert(unit[1] == index);
            assert(wf_code_from(unit, n, 2));
            assert(wf_code_from(unit, n, 0));
            lemma_wf_code_concat(self.chunk.code@, unit, n, 0);
            assert(!has_print_from(unit, 2));
            assert(!has_print_from(unit, 0));
            lemma_has_print_concat(self.chunk.code@, unit, n, 0);
        }
        self.chunk.write(b, line);
        self.chunk.write(index, line);
        proof {
            assert(final(self).chunk.code@ =~= old(self).chunk.code@ + seq![op.byte(), index]);
        }
    }

    /// Put a literal into the constant pool and hand back its index as an
    /// operand byte. The pool holds at most 255 constants: an attempt to
    /// add one more reports "Too many constants in one chunk" and yields
    /// index 0.
    fn make_constant(&mut self, value: Literal) -> (index: u8)
        requires
            old(self).wf(),
        ensures
            final(self).wf(),
            final(self).tokens@ == old(self).tokens@,
            final(self).pos == old(self).pos,
            final(self).current == old(self).current,
            final(self).previous == old(self).previous,
            final(self).chunk.code@ == old(self).chunk.code@,
            final(self).chunk.lines@ == old(self).chunk.lines@,
            old(self).had_error ==> final(self).had_error,
            old(self).panic_mode ==> final(self).panic_mode,
            old(self).diagnostics@.is_prefix_of(final(self).diagnostics@),
            old(self).chunk.constants@.len() < 255 ==> (final(self).chunk.constants@ == old(self).chunk.constants@.push(value) && index == old(self).chunk.constants@.len() && final(self).had_error == old(self).had_error && final(self).panic_mode == old(self).panic_mode
                && final(self).diagnostics@ == old(self).diagnostics@),
            old(self).chunk.constants@.len() >= 255 ==> (final(self).chunk.constants@ == old(self).chunk.constants@ && index == 0 && final(self).had_error && (!old(self).panic_mode
                ==> final(self).diagnostics@.last()@ == diagnostic_view(
                old(self).tokens@[old(self).previous as int],
                "Too many constants in one chunk"@,
            ))),
            index < final(self).chunk.constants@.len(),
    {
        if self.chunk.constants.len() >= 255 {
            self.error("Too many constants in one chunk");
            0
        } else {
            proof {
                lemma_wf_code_mono(
                    self.chunk.code@,
                    self.chunk.constants@.len() as nat,
                    (self.chunk.constants@.len() + 1) as nat,
                    0,
                );
            }
            let index = self.chunk.add_constant(value);
            index as u8
        }
    }

    /// Put a literal into the pool and emit `Constant` with its index.
    fn emit_constant(&mut self, value: Literal)
        requires
            old(self).wf(),
        ensures
            final(self).wf(),
            final(self).tokens@ == old(self).tokens@,
            final(self).pos == old(self).pos,
            final(self).current == old(self).current,
            final(self).previous == old(self).previous,
            old(self).had_error ==> final(self).had_error,
            old(self).panic_mode ==> final(self).panic_mode,
            old(self).diagnostics@.is_prefix_of(final(self).diagnostics@),
            old(self).chunk.constants@.is_prefix_of(final(self).chunk.constants@),
            exists|index: u8|
                final(self).chunk.code@ == old(self).chunk.code@ + seq![
                    OpCode::Constant.byte(),
                    index,
                ],
            has_print_from(final(self).chunk.code@, 0) == has_print_from(
                old(self).chunk.code@,
                0,
            ),
            old(self).chunk.constants@.len() < 255 ==> final(self).chunk.constants@ == old(self).chunk.constants@.push(value),
    {
        let index = self.make_constant(value);
        self.emit_op_operand(OpCode::Constant, index);
        proof {
            assert(final(self).chunk.code@ == old(self).chunk.code@ + seq![
                OpCode::Constant.byte(),
                index,
            ]);
        }
    }
}

/// The keywords at which error recovery stops: each can begin a
/// statement.
pub open spec fn statement_boundary(tt: TokenType) -> bool {
    match tt {
        TokenType::Class | TokenType::Fun | TokenType::Var | TokenType::For | TokenType::If
            | TokenType::While | TokenType::Print | TokenType::Return => true,
        _ => false,
    }
}

/// Some token of the stream is the `print` keyword.
pub open spec fn tokens_have_print(tokens: Seq<Token>) -> bool {
    exists|i: int| 0 <= i < tokens.len() && (#[trigger] tokens[i]).token_type == TokenType::Print
}

/// What every parsing step preserves: the token stream stands, the window
/// only moves forward, the chunk only grows and stays well formed, errors
/// only latch, diagnostics only accumulate, and no `Print` instruction
/// appears unless the stream holds the `print` keyword.
pub open spec fn parse_step(pre: Parser, post: Parser) -> bool {
    &&& post.wf()
    &&& post.tokens@ == pre.tokens@
    &&& pre.pos <= post.pos
    &&& pre.chunk.code@.is_prefix_of(post.chunk.code@)
    &&& pre.chunk.constants@.is_prefix_of(post.chunk.constants@)
    &&& (pre.had_error ==> post.had_error)
    &&& pre.diagnostics@.is_prefix_of(post.diagnostics@)
    &&& (has_print_from(post.chunk.code@, 0) ==> has_print_from(pre.chunk.code@, 0)
        || tokens_have_print(pre.tokens@))
}

/// The step consumed at least one token, or the stream is exhausted.
pub open spec fn progressed(pre: Parser, post: Parser) -> bool {
    post.pos > pre.pos || post.tokens@[post.current as int].token_type == TokenType::Eof
}

/// The step consumed a token, left the window alone, or exhausted the
/// stream; enough to carry [`progressed`] through a chain of steps.
pub open spec fn weak_progress(pre: Parser, post: Parser) -> bool {
    post.pos > pre.pos || post.current == pre.current || post.tokens@[post.current as int].token_type
        == TokenType::Eof
}

/// Tokens not yet taken: the first component of the termination measure
/// of the recursive descent.
pub open spec fn parse_measure(p: Parser) -> int {
    p.tokens@.len() - p.pos
}

/// Whether the lookahead is exhausted: the second component of the
/// termination measure.
pub open spec fn eof_flag(p: Parser) -> int {
    if p.tokens@[p.current as int].token_type == TokenType::Eof {
        0
    } else {
        1
    }
}

impl Parser {
    /// Parse whatever expression starts at the lookahead, binding at
    /// least as tightly as `p`: take the prefix rule of the first token,
    /// then fold in infix operators while their precedence is at least
    /// `p`. A trailing `=` that no rule consumed is an invalid
    /// assignment target.
    fn parse_precedence(&mut self, p: Precedence)
        requires
            old(self).wf(),
            p.spec_level() >= 1,
        ensures
            parse_step(*old(self), *final(self)),
            progressed(*old(self), *final(self)),
            !spec_has_prefix_rule(old(self).tokens@[old(self).current as int].token_type) ==> (
            final(self).had_error && final(self).chunk.code@ == old(self).chunk.code@),
            (!old(self).panic_mode && old(self).tokens@[old(self).pos as int].token_type
                != TokenType::Error && !spec_has_prefix_rule(
                old(self).tokens@[old(self).current as int].token_type,
            )) ==> final(self).diagnostics@.last()@ == diagnostic_view(
                old(self).tokens@[old(self).current as int],
                "Expect expression."@,
            ),
        decreases parse_measure(*self), eof_flag(*self), 0int,
    {
        self.advance();
        let prev_tt = self.tokens[self.previous].token_type;
        let can_assign = p.level() <= Precedence::Assignment.level();
        match prev_tt {
            TokenType::Leftparen => self.grouping(can_assign),
            TokenType::Minus => self.unary(can_assign),
            TokenType::Bang => self.unary(can_assign),
            TokenType::Identifier => self.variable(can_assign),
            TokenType::String => self.string(can_assign),
            TokenType::Number => self.number(can_assign),
            TokenType::False => self.literal(can_assign),
            TokenType::True => self.literal(can_assign),
            TokenType::Nil => self.literal(can_assign),
            _ => {
                self.error("Expect expression.");
                return ;
            },
        }
        loop
            invariant
                self.wf(),
                parse_step(*old(self), *self),
                progressed(*old(self), *self),
                p.spec_level() >= 1,
            decreases parse_measure(*self), eof_flag(*self),
        {
            let ghost head = *self;
            let cur_tt = self.tokens[self.current].token_type;
            let rp = infix_precedence(cur_tt);
            if !(p.level() <= rp.level()) {
                break;
            }
            proof {
                assert(self.tokens@[self.current as int].token_type != TokenType::Eof);
                assert(self.pos > old(self).pos);
            }
            self.advance();
            proof {
                assert(parse_measure(*self) < parse_measure(*old(self)));
            }
            self.binary(can_assign);
            proof {
                assert(self.pos > head.pos || self.tokens@[self.current as int].token_type
                    == TokenType::Eof);
            }
        }
        if can_assign && self.match_token(TokenType::Equal) {
            self.error("Invalid assignment target");
        }
    }

    /// Parse one whole expression.
    fn expression(&mut self)
        requires
            old(self).wf(),
        ensures
            parse_step(*old(self), *final(self)),
            progressed(*old(self), *final(self)),
            !spec_has_prefix_rule(old(self).tokens@[old(self).current as int].token_type) ==> (
            final(self).had_error && final(self).chunk.code@ == old(self).chunk.code@),
        decreases parse_measure(*self), eof_flag(*self), 1int,
    {
        self.parse_precedence(Precedence::Assignment);
    }

    /// Prefix rule for `(`: a parenthesised expression.
    fn grouping(&mut self, _can_assign: bool)
        requires
            old(self).wf(),
        ensures
            parse_step(*old(self), *final(self)),
            weak_progress(*old(self), *final(self)),
        decreases parse_measure(*self), eof_flag(*self), 2int,
    {
        self.expression();
        self.consume(TokenType::Rightparen, "Expect ')' after expression.");
    }

    /// Prefix rule for `-` and `!`: parse the operand at `Unary`
    /// precedence, then emit the negation or the logical not.
    fn unary(&mut self, can_assign: bool)
        requires
            old(self).wf(),
            old(self).tokens@[old(self).previous as int].token_type == TokenType::Minus || old(self).tokens@[old(self).previous as int].token_type == TokenType::Bang,
        ensures
            parse_step(*old(self), *final(self)),
            weak_progress(*old(self), *final(self)),
            exists|mid: Seq<u8>|
                final(self).chunk.code@ == old(self).chunk.code@ + mid + seq![
                    (if old(self).tokens@[old(self).previous as int].token_type
                        == TokenType::Minus {
                        OpCode::Negate.byte()
                    } else {
                        OpCode::Not.byte()
                    }),
                ],
        decreases parse_measure(*self), eof_flag(*self), 2int,
    {
        let op_type = self.tokens[self.previous].token_type;
        self.parse_precedence(Precedence::Unary);
        let ghost mid_code = self.chunk.code@;
        if op_type == TokenType::Minus {
            self.emit_op(OpCode::Negate);
        } else {
            self.emit_op(OpCode::Not);
        }
        proof {
            let pre = old(self).chunk.code@;
            let mid = mid_code.skip(pre.len() as int);
            assert(mid_code =~= pre + mid);
            assert(final(self).chunk.code@ =~= pre + mid + seq![
                (if old(self).tokens@[old(self).previous as int].token_type == TokenType::Minus {
                    OpCode::Negate.byte()
                } else {
                    OpCode::Not.byte()
                }),
            ]);
        }
    }

    /// Infix rule for the binary operators: parse the right operand one
    /// level tighter (left-associativity), then emit the operator's
    /// bytes; `!=`, `<=` and `>=` desugar to the complementary
    /// comparison followed by `Not`.
    fn binary(&mut self, _can_assign: bool)
        requires
            old(self).wf(),
            spec_infix_precedence(old(self).tokens@[old(self).previous as int].token_type)
                != Precedence::NoPrecedence,
        ensures
            parse_step(*old(self), *final(self)),
            weak_progress(*old(self), *final(self)),
            exists|mid: Seq<u8>|
                final(self).chunk.code@ == old(self).chunk.code@ + mid + binary_op_bytes(
                    old(self).tokens@[old(self).previous as int].token_type,
                ),
        decreases parse_measure(*self), eof_flag(*self), 2int,
    {
        let op_type = self.tokens[self.previous].token_type;
        let rule_precedence = infix_precedence(op_type);
        let next = Precedence::higher_precedence(rule_precedence);
        self.parse_precedence(next);
        let ghost mid_code = self.chunk.code@;
        match op_type {
            TokenType::Plus => self.emit_op(OpCode::Add),
            TokenType::Minus => self.emit_op(OpCode::Subtract),
            TokenType::Star => self.emit_op(OpCode::Multiply),
            TokenType::Slash => self.emit_op(OpCode::Divide),
            TokenType::Bangequal => {
                self.emit_op(OpCode::Equal);
                self.emit_op(OpCode::Not);
            },
            TokenType::Equalequal => self.emit_op(OpCode::Equal),
            TokenType::Greater => self.emit_op(OpCode::Greater),
            TokenType::Greaterequal => {
                self.emit_op(OpCode::Less);
                self.emit_op(OpCode::Not);
            },
            TokenType::Less => self.emit_op(OpCode::Less),
            TokenType::Lessequal => {
                self.emit_op(OpCode::Greater);
                self.emit_op(OpCode::Not);
            },
            _ => (),
        }
        proof {
            let pre = old(self).chunk.code@;
            let mid = mid_code.skip(pre.len() as int);
            assert(mid_code =~= pre + mid);
            assert(final(self).chunk.code@ =~= pre + mid + binary_op_bytes(
                old(self).tokens@[old(self).previous as int].token_type,
            ));
        }
    }

    /// Prefix rule for a number literal: its decimal text goes into the
    /// constant pool.
    fn number(&mut self, _can_assign: bool)
        requires
            old(self).wf(),
        ensures
            parse_step(*old(self), *final(self)),
            final(self).pos == old(self).pos,
            final(self).current == old(self).current,
            exists|index: u8|
                final(self).chunk.code@ == old(self).chunk.code@ + seq![
                    OpCode::Constant.byte(),
                    index,
                ],
            old(self).chunk.constants@.len() < 255 ==> (final(self).chunk.constants@.len() == old(self).chunk.constants@.len() + 1 && final(self).chunk.constants@.last()@ == LiteralV::Number(
                old(self).tokens@[old(self).previous as int].lexeme@,
            )),
    {
        let lexeme = self.tokens[self.previous].lexeme.clone();
        self.emit_constant(Literal::Number(lexeme));
    }

    /// Prefix rule for a string literal: its content, without the
    /// surrounding quotes, goes into the constant pool.
    fn string(&mut self, _can_assign: bool)
        requires
            old(self).wf(),
            old(self).tokens@[old(self).previous as int].token_type == TokenType::String,
        ensures
            parse_step(*old(self), *final(self)),
            final(self).pos == old(self).pos,
            final(self).current == old(self).current,
            exists|index: u8|
                final(self).chunk.code@ == old(self).chunk.code@ + seq![
                    OpCode::Constant.byte(),
                    index,
                ],
            old(self).chunk.constants@.len() < 255 ==> (final(self).chunk.constants@.len() == old(self).chunk.constants@.len() + 1 && final(self).chunk.constants@.last()@ == LiteralV::Str(
                old(self).tokens@[old(self).previous as int].lexeme@.subrange(
                    1,
                    old(self).tokens@[old(self).previous as int].lexeme@.len() - 1,
                ),
            )),
    {
        let lexeme = self.tokens[self.previous].lexeme.clone();
        let quoted_length = lexeme.as_str().unicode_len();
        let inner = lexeme.as_str().substring_char(1, quoted_length - 1).to_owned();
        self.emit_constant(Literal::Str(inner));
    }

    /// Prefix rule for `true`, `false` and `nil`: one dedicated opcode.
    fn literal(&mut self, _can_assign: bool)
        requires
            old(self).wf(),
            old(self).tokens@[old(self).previous as int].token_type == TokenType::False || old(self).tokens@[old(self).previous as int].token_type == TokenType::True || old(self).tokens@[old(self).previous as int].token_type == TokenType::Nil,
        ensures
            parse_step(*old(self), *final(self)),
            final(self).pos == old(self).pos,
            final(self).current == old(self).current,
            final(self).chunk.code@ == old(self).chunk.code@ + seq![
                (if old(self).tokens@[old(self).previous as int].token_type == TokenType::False {
                    OpCode::False.byte()
                } else if old(self).tokens@[old(self).previous as int].token_type
                    == TokenType::True {
                    OpCode::True.byte()
                } else {
                    OpCode::Nil.byte()
                }),
            ],
    {
        match self.tokens[self.previous].token_type {
            TokenType::False => self.emit_op(OpCode::False),
            TokenType::True => self.emit_op(OpCode::True),
            _ => self.emit_op(OpCode::Nil),
        }
    }

    /// Prefix rule for an identifier: a read of, or an assignment to, the
    /// named global.
    fn variable(&mut self, can_assign: bool)
        requires
            old(self).wf(),
        ensures
            parse_step(*old(self), *final(self)),
            weak_progress(*old(self), *final(self)),
        decreases parse_measure(*self), eof_flag(*self), 4int,
    {
        let name = self.previous;
        self.named_variable(name, can_assign);
    }

    /// Emit the access to the global named by the token at `name`: with
    /// `=` pending and assignment allowed, parse the right-hand side and
    /// `SetGlobal`, else `GetGlobal`; the name itself goes into the pool.
    fn named_variable(&mut self, name: usize, can_assign: bool)
        requires
            old(self).wf(),
            name < old(self).tokens@.len(),
        ensures
            parse_step(*old(self), *final(self)),
            weak_progress(*old(self), *final(self)),
        decreases parse_measure(*self), eof_flag(*self), 3int,
    {
        let lexeme = self.tokens[name].lexeme.clone();
        let arg = self.make_constant(Literal::Str(lexeme));
        if can_assign && self.match_token(TokenType::Equal) {
            self.expression();
            self.emit_op_operand(OpCode::SetGlobal, arg);
        } else {
            self.emit_op_operand(OpCode::GetGlobal, arg);
        }
    }

    /// One declaration: a `var` statement or any other statement; after a
    /// parse error, re-synchronize at the next statement boundary.
    fn declaration(&mut self)
        requires
            old(self).wf(),
        ensures
            parse_step(*old(self), *final(self)),
            progressed(*old(self), *final(self)),
            final(self).chunk.code@.len() > old(self).chunk.code@.len(),
            (old(self).tokens@[old(self).current as int].token_type != TokenType::Var && old(self).tokens@[old(self).current as int].token_type != TokenType::Print
                && !spec_has_prefix_rule(old(self).tokens@[old(self).current as int].token_type))
                ==> final(self).had_error,
    {
        if self.match_token(TokenType::Var) {
            self.variable_declaration();
        } else {
            self.statement();
        }
        if self.panic_mode {
            self.synchronize();
        }
    }

    /// One statement: `print <expression> ;` or an expression statement.
    fn statement(&mut self)
        requires
            old(self).wf(),
        ensures
            parse_step(*old(self), *final(self)),
            progressed(*old(self), *final(self)),
            final(self).chunk.code@.len() > old(self).chunk.code@.len(),
            (old(self).tokens@[old(self).current as int].token_type != TokenType::Print
                && !spec_has_prefix_rule(old(self).tokens@[old(self).current as int].token_type))
                ==> final(self).had_error,
    {
        if self.match_token(TokenType::Print) {
            self.print_statement();
        } else {
            self.expression_statement();
        }
    }

    /// `print <expression> ;` evaluates the expression and emits `Print`.
    fn print_statement(&mut self)
        requires
            old(self).wf(),
            old(self).tokens@[old(self).previous as int].token_type == TokenType::Print,
        ensures
            parse_step(*old(self), *final(self)),
            progressed(*old(self), *final(self)),
            final(self).chunk.code@.len() > old(self).chunk.code@.len(),
            final(self).chunk.code@.last() == OpCode::Print.byte(),
            exists|mid: Seq<u8>|
                final(self).chunk.code@ == old(self).chunk.code@ + mid + seq![
                    OpCode::Print.byte(),
                ],
    {
        self.expression();
        self.consume(TokenType::Semicolon, "Expect ';' after value.");
        let ghost mid_code = self.chunk.code@;
        self.emit_op(OpCode::Print);
        proof {
            let pre = old(self).chunk.code@;
            let mid = mid_code.skip(pre.len() as int);
            assert(mid_code =~= pre + mid);
            assert(final(self).chunk.code@ =~= pre + mid + seq![OpCode::Print.byte()]);
        }
    }

    /// `<expression> ;` evaluates the expression and discards the value.
    fn expression_statement(&mut self)
        requires
            old(self).wf(),
        ensures
            parse_step(*old(self), *final(self)),
            progressed(*old(self), *final(self)),
            final(self).chunk.code@.len() > old(self).chunk.code@.len(),
            final(self).chunk.code@.last() == OpCode::Pop.byte(),
            exists|mid: Seq<u8>|
                final(self).chunk.code@ == old(self).chunk.code@ + mid + seq![OpCode::Pop.byte()],
            !spec_has_prefix_rule(old(self).tokens@[old(self).current as int].token_type) ==> final(self).had_error,
    {
        self.expression();
        self.consume(TokenType::Semicolon, "Expect ';' after expression.");
        let ghost mid_code = self.chunk.code@;
        self.emit_op(OpCode::Pop);
        proof {
            let pre = old(self).chunk.code@;
            let mid = mid_code.skip(pre.len() as int);
            assert(mid_code =~= pre + mid);
            assert(final(self).chunk.code@ =~= pre + mid + seq![OpCode::Pop.byte()]);
        }
    }

    /// `var <name> ( = <expression> )? ;`: the initializer, or `Nil`,
    /// then `DefineGlobal` with the name's pool index.
    #[verifier::rlimit(100)]
    #[verifier::spinoff_prover]
    fn variable_declaration(&mut self)
        requires
            old(self).wf(),
        ensures
            parse_step(*old(self), *final(self)),
            weak_progress(*old(self), *final(self)),
            final(self).chunk.code@.len() > old(self).chunk.code@.len(),
            exists|mid: Seq<u8>, index: u8|
                final(self).chunk.code@ == old(self).chunk.code@ + mid + seq![
                    OpCode::DefineGlobal.byte(),
                    index,
                ] && index < final(self).chunk.constants@.len(),
            (old(self).tokens@[old(self).current as int].token_type == TokenType::Identifier
                && old(self).chunk.constants@.len() < 255) ==> (exists|mid: Seq<u8>, index: u8|
                final(self).chunk.code@ == old(self).chunk.code@ + mid + seq![
                    OpCode::DefineGlobal.byte(),
                    index,
                ] && index < final(self).chunk.constants@.len() && final(self).chunk.constants@[index as int]@ == LiteralV::Str(
                    old(self).tokens@[old(self).current as int].lexeme@,
                )),
    {
        let global = self.parse_variable("Expect a variable name.");
        let ghost named = self.chunk.constants@;
        if self.match_token(TokenType::Equal) {
            self.expression();
        } else {
            self.emit_op(OpCode::Nil);
        }
        self.consume(TokenType::Semicolon, "Expect ';' after variable declaration");
        let ghost mid_code = self.chunk.code@;
        self.define_variable(global);
        proof {
            let pre = old(self).chunk.code@;
            let mid = mid_code.skip(pre.len() as int);
            assert(mid_code =~= pre + mid);
            assert(final(self).chunk.code@ =~= pre + mid + seq![
                OpCode::DefineGlobal.byte(),
                global,
            ]);
            assert(global < final(self).chunk.constants@.len());
            if old(self).tokens@[old(self).current as int].token_type == TokenType::Identifier
                && old(self).chunk.constants@.len() < 255 {
                assert(named[global as int]@ == LiteralV::Str(
                    old(self).tokens@[old(self).current as int].lexeme@,
                ));
                assert(named.is_prefix_of(final(self).chunk.constants@));
                assert(final(self).chunk.constants@[global as int] == named[global as int]);
            }
        }
    }

    /// Consume the declared name and put it into the constant pool.
    fn parse_variable(&mut self, error: &str) -> (index: u8)
        requires
            old(self).wf(),
        ensures
            parse_step(*old(self), *final(self)),
            weak_progress(*old(self), *final(self)),
            index < final(self).chunk.constants@.len(),
            (old(self).tokens@[old(self).current as int].token_type == TokenType::Identifier
                && old(self).chunk.constants@.len() < 255) ==> final(self).chunk.constants@[index as int]@ == LiteralV::Str(
                old(self).tokens@[old(self).current as int].lexeme@,
            ),
    {
        self.consume(TokenType::Identifier, error);
        let at = self.previous;
        self.identifier_constant(at)
    }

    /// Emit `DefineGlobal` for a name already in the pool.
    fn define_variable(&mut self, global: u8)
        requires
            old(self).wf(),
            global < old(self).chunk.constants@.len(),
        ensures
            parse_step(*old(self), *final(self)),
            final(self).pos == old(self).pos,
            final(self).current == old(self).current,
            final(self).chunk.code@ == old(self).chunk.code@ + seq![
                OpCode::DefineGlobal.byte(),
                global,
            ],
    {
        self.emit_op_operand(OpCode::DefineGlobal, global);
    }

    /// Put the lexeme of the token at `at` into the pool as a name.
    fn identifier_constant(&mut self, at: usize) -> (index: u8)
        requires
            old(self).wf(),
            at < old(self).tokens@.len(),
        ensures
            parse_step(*old(self), *final(self)),
            final(self).pos == old(self).pos,
            final(self).current == old(self).current,
            index < final(self).chunk.constants@.len(),
            old(self).chunk.constants@.len() < 255 ==> final(self).chunk.constants@[index as int]@
                == LiteralV::Str(old(self).tokens@[at as int].lexeme@),
    {
        let lexeme = self.tokens[at].lexeme.clone();
        self.make_constant(Literal::Str(lexeme))
    }

    /// Leave panic mode and skip to the next statement boundary: just
    /// after a `;`, or just before a keyword that starts a statement.
    /// Panic mode stays off unless a lexical-error token reported while
    /// skipping raises it again.
    fn synchronize(&mut self)
        requires
            old(self).wf(),
        ensures
            parse_step(*old(self), *final(self)),
            weak_progress(*old(self), *final(self)),
            final(self).diagnostics@.len() == old(self).diagnostics@.len() ==> !final(self).panic_mode,
            final(self).chunk == old(self).chunk,
            final(self).tokens@[final(self).current as int].token_type == TokenType::Eof || final(self).tokens@[final(self).previous as int].token_type == TokenType::Semicolon || statement_boundary(final(self).tokens@[final(self).current as int].token_type),
    {
        self.panic_mode = false;
        loop
            invariant
                self.wf(),
                parse_step(*old(self), *self),
                weak_progress(*old(self), *self),
                self.diagnostics@.len() == old(self).diagnostics@.len() ==> !self.panic_mode,
                self.chunk == old(self).chunk,
            ensures
                self.tokens@[self.current as int].token_type == TokenType::Eof
                    || self.tokens@[self.previous as int].token_type == TokenType::Semicolon
                    || statement_boundary(self.tokens@[self.current as int].token_type),
            decreases parse_measure(*self), eof_flag(*self),
        {
            let cur_tt = self.tokens[self.current].token_type;
            if cur_tt == TokenType::Eof {
                break;
            }
            if self.tokens[self.previous].token_type == TokenType::Semicolon {
                break;
            }
            match cur_tt {
                TokenType::Class | TokenType::Fun | TokenType::Var | TokenType::For
                    | TokenType::If | TokenType::While | TokenType::Print | TokenType::Return => {
                    break;
                },
                _ => {
                    self.advance();
                },
            }
        }
    }

    /// Finish the chunk.
    fn end_compilation(&mut self)
        requires
            old(self).wf(),
        ensures
            final(self).wf(),
            *final(self) == (Parser { chunk: final(self).chunk, ..*old(self) }),
            final(self).chunk.code@ == old(self).chunk.code@ + seq![OpCode::Return.byte()],
            final(self).chunk.constants@ == old(self).chunk.constants@,
            has_print_from(final(self).chunk.code@, 0) == has_print_from(
                old(self).chunk.code@,
                0,
            ),
            wf_code_from(
                final(self).chunk.code@,
                final(self).chunk.constants@.len() as nat,
                old(self).chunk.code@.len() as int,
            ),
    {
        self.emit_return();
    }

    /// Emit the final `Return`.
    fn emit_return(&mut self)
        requires
            old(self).wf(),
        ensures
            final(self).wf(),
            *final(self) == (Parser { chunk: final(self).chunk, ..*old(self) }),
            final(self).chunk.code@ == old(self).chunk.code@ + seq![OpCode::Return.byte()],
            final(self).chunk.constants@ == old(self).chunk.constants@,
            has_print_from(final(self).chunk.code@, 0) == has_print_from(
                old(self).chunk.code@,
                0,
            ),
            wf_code_from(
                final(self).chunk.code@,
                final(self).chunk.constants@.len() as nat,
                old(self).chunk.code@.len() as int,
            ),
    {
        self.emit_op(OpCode::Return);
    }
}

/// Compile source text to a chunk. On success the chunk is a well-formed
/// instruction stream ending in `Return`, every operand byte indexes its
/// pool, the pool holds at most 255 constants, and no diagnostic was
/// produced. On failure the error is `CompileError` and at least one
/// diagnostic says why. A source of nothing but whitespace and comments
/// compiles to the single instruction `Return`.
pub fn compile(source: String) -> (r: (Result<Chunk, InterpretError>, Vec<String>))
    ensures
        r.0 matches Ok(c) ==> c.wf_code() && c.lines_match() && c.constants@.len() <= 255
            && c.code@.len() > 0 && c.code@.last() == OpCode::Return.byte() && wf_code_from(
            c.code@,
            c.constants@.len() as nat,
            c.code@.len() - 1,
        ) && r.1@.len() == 0,
        r.0 matches Err(e) ==> e == InterpretError::CompileError && r.1@.len() > 0,
        blank_from(source@, 0, false) ==> (r.0 matches Ok(c) && c.code@ == seq![
            OpCode::Return.byte(),
        ] && c.constants@ == Seq::<Literal>::empty()),
        !blank_from(source@, 0, false) ==> (r.0 matches Ok(c) ==> c.code@.len() >= 2),
        r.0 matches Ok(c) ==> (c.code@ == seq![OpCode::Return.byte()] <==> blank_from(
            source@,
            0,
            false,
        )),
        (first_significant(source@, 0, false) < source@.len() && starts_no_token(
            source@[first_significant(source@, 0, false)],
        )) ==> r.0 is Err,
        starts_no_expression(source@) ==> r.0 is Err,
        !contains_print_word(source@) ==> (r.0 matches Ok(c) ==> !has_print_from(c.code@, 0)),
{
    let ghost blank = blank_from(source@, 0, false);
    let ghost bad_start = first_significant(source@, 0, false) < source@.len() && starts_no_token(
        source@[first_significant(source@, 0, false)],
    );
    let ghost stuck_start = starts_no_expression(source@);
    let ghost no_print = !contains_print_word(source@);
    let mut parser = Parser::init(source);
    let ghost scanned = parser.tokens@;
    parser.advance();
    proof {
        if !blank && !parser.had_error {
            assert(scanned.len() >= 2);
            if scanned[0].token_type == TokenType::Error {
                assert(parser.had_error);
            }
            assert(parser.current == 0);
            assert(parser.tokens@[parser.current as int].token_type != TokenType::Eof);
        }
        if bad_start {
            assert(scanned[0].token_type == TokenType::Error);
            assert(scanned[0].token_type != scanned.last().token_type);
            assert(scanned.len() >= 2);
            assert(parser.had_error);
        }
    }
    loop
        invariant
            parser.wf(),
            blank ==> (!parser.had_error && parser.chunk.code@ == Seq::<u8>::empty()
                && parser.chunk.constants@ == Seq::<Literal>::empty() && parser.tokens@.len() == 1
                && parser.pos == 0 && parser.current == 0),
            no_print ==> (!tokens_have_print(parser.tokens@) && !has_print_from(
                parser.chunk.code@,
                0,
            )),
            !blank && !parser.had_error && parser.chunk.code@.len() == 0 ==> parser.tokens@[parser.current as int].token_type != TokenType::Eof,
            bad_start ==> parser.had_error,
            stuck_start ==> (parser.had_error || (parser.current == 0
                && cannot_open_statement(parser.tokens@[0].token_type))),
        ensures
            !blank ==> parser.chunk.code@.len() >= 1 || parser.had_error,
            stuck_start ==> parser.had_error,
        decreases parse_measure(parser), eof_flag(parser),
    {
        if parser.match_token(TokenType::Eof) {
            break;
        }
        parser.declaration();
    }
    parser.end_compilation();
    if parser.had_error {
        (Err(InterpretError::CompileError), parser.diagnostics)
    } else {
        (Ok(parser.chunk), parser.diagnostics)
    }
}

} // verus!
