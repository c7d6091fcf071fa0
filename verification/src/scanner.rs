//! On-demand lexical analysis: source text to a stream of tokens.

use vstd::prelude::*;
use vstd::string::StrSliceExecFns;

verus! {

/// The closed set of token kinds.
#[derive(Debug, Clone, Copy, PartialEq, Eq, Structural, Hash)]
pub enum TokenType {
    // Single-character tokens.
    Leftparen,
    Rightparen,
    Leftbrace,
    Rightbrace,
    Comma,
    Dot,
    Minus,
    Plus,
    Semicolon,
    Slash,
    Star,
    // One or two character tokens.
    Bang,
    Bangequal,
    Equal,
    Equalequal,
    Greater,
    Greaterequal,
    Less,
    Lessequal,
    // Literals.
    Identifier,
    String,
    Number,
    // Keywords.
    And,
    Class,
    Else,
    False,
    For,
    Fun,
    If,
    Nil,
    Or,
    Print,
    Return,
    Super,
    This,
    True,
    Var,
    While,
    // Special
    Error,
    Eof,
}

/// A token: its kind, its text, and the 1-based line it began on.
/// For an `Error` token the text carries the diagnostic message instead.
#[derive(Debug)]
pub struct Token {
    pub token_type: TokenType,
    pub lexeme: String,
    pub line: usize,
}

impl Token {
    pub fn make_token(tt: TokenType, lexeme: &str, line: usize) -> (t: Token)
        ensures
            t.token_type == tt,
            t.lexeme@ == lexeme@,
            t.line == line,
    {
        Token { token_type: tt, lexeme: lexeme.to_owned(), line }
    }

    pub fn make_error_token(error: &str, line: usize) -> (t: Token)
        ensures
            t.token_type == TokenType::Error,
            t.lexeme@ == error@,
            t.line == line,
    {
        Token { token_type: TokenType::Error, lexeme: error.to_owned(), line }
    }
}

pub open spec fn is_digit_char(c: char) -> bool {
    48 <= c as u32 <= 57
}

pub open spec fn is_alpha_char(c: char) -> bool {
    (97 <= c as u32 <= 122) || (65 <= c as u32 <= 90) || c == '_'
}

pub open spec fn is_space_char(c: char) -> bool {
    c == ' ' || c == '\r' || c == '\t'
}

fn is_digit(c: char) -> (r: bool)
    ensures
        r == is_digit_char(c),
{
    let u = c as u32;
    48 <= u && u <= 57
}

fn is_alpha(c: char) -> (r: bool)
    ensures
        r == is_alpha_char(c),
{
    let u = c as u32;
    (97 <= u && u <= 122) || (65 <= u && u <= 90) || c == '_'
}

/// Nothing but spaces, tabs, carriage returns, newlines and `//` comments
/// from position `i` to the end of `s`; `in_comment` tells whether `i`
/// stands inside a line comment.
pub open spec fn blank_from(s: Seq<char>, i: int, in_comment: bool) -> bool
    decreases s.len() - i,
{
    if i < 0 {
        false
    } else if i >= s.len() {
        true
    } else if in_comment {
        if s[i] == '\n' {
            blank_from(s, i + 1, false)
        } else {
            blank_from(s, i + 1, true)
        }
    } else if is_space_char(s[i]) || s[i] == '\n' {
        blank_from(s, i + 1, false)
    } else if s[i] == '/' && i + 1 < s.len() && s[i + 1] == '/' {
        blank_from(s, i + 2, true)
    } else {
        false
    }
}

/// The position of the first character from `i` on that is neither
/// whitespace nor inside a `//` comment; the length of `s` when there is
/// none. The scanner's next token begins here.
pub open spec fn first_significant(s: Seq<char>, i: int, in_comment: bool) -> int
    decreases s.len() - i,
{
    if i < 0 || i >= s.len() {
        s.len() as int
    } else if in_comment {
        if s[i] == '\n' {
            first_significant(s, i + 1, false)
        } else {
            first_significant(s, i + 1, true)
        }
    } else if is_space_char(s[i]) || s[i] == '\n' {
        first_significant(s, i + 1, false)
    } else if s[i] == '/' && i + 1 < s.len() && s[i + 1] == '/' {
        first_significant(s, i + 2, true)
    } else {
        i
    }
}

/// A stretch is blank exactly when it has no significant character.
pub proof fn lemma_blank_iff_no_significant(s: Seq<char>, i: int, in_comment: bool)
    requires
        0 <= i,
    ensures
        blank_from(s, i, in_comment) <==> first_significant(s, i, in_comment) == s.len(),
    decreases s.len() - i,
{
    if 0 <= i < s.len() {
        if in_comment {
            if s[i] == '\n' {
                lemma_blank_iff_no_significant(s, i + 1, false);
            } else {
                lemma_blank_iff_no_significant(s, i + 1, true);
            }
        } else if is_space_char(s[i]) || s[i] == '\n' {
            lemma_blank_iff_no_significant(s, i + 1, false);
        } else if s[i] == '/' && i + 1 < s.len() && s[i + 1] == '/' {
            lemma_blank_iff_no_significant(s, i + 2, true);
        }
    }
}

/// The first significant character exists and is punctuation or an
/// operator that no expression and no statement can begin with.
pub open spec fn starts_no_expression(s: Seq<char>) -> bool {
    first_significant(s, 0, false) < s.len() && {
        let c = s[first_significant(s, 0, false)];
        c == ')' || c == '{' || c == '}' || c == ';' || c == ',' || c == '.' || c == '+' || c
            == '/' || c == '*' || c == '=' || c == '<' || c == '>'
    }
}

/// A character that cannot begin any token: not a letter, digit,
/// underscore, quote, or punctuation of the language.
pub open spec fn starts_no_token(c: char) -> bool {
    !(is_alpha_char(c) || is_digit_char(c) || c == '(' || c == ')' || c == '{' || c == '}'
        || c == ';' || c == ',' || c == '.' || c == '-' || c == '+' || c == '/' || c == '*'
        || c == '!' || c == '=' || c == '<' || c == '>' || c == '"')
}

/// The 1-based line on which position `i` of `s` stands: one more than
/// the newlines strictly before it.
pub open spec fn line_at(s: Seq<char>, i: int) -> int
    decreases i,
{
    if i <= 0 {
        1
    } else {
        line_at(s, i - 1) + (if s[i - 1] == '\n' {
            1int
        } else {
            0int
        })
    }
}

/// Lines grow by at most one per character.
pub proof fn lemma_line_at_bound(s: Seq<char>, i: int)
    ensures
        1 <= line_at(s, i) <= (if i < 0 {
            1int
        } else {
            i + 1
        }),
    decreases i,
{
    if i > 0 {
        lemma_line_at_bound(s, i - 1);
    }
}

/// A stretch without newlines stays on one line.
pub proof fn lemma_line_at_same(s: Seq<char>, a: int, b: int)
    requires
        0 <= a <= b,
        forall|j: int| a <= j < b ==> #[trigger] s[j] != '\n',
    ensures
        line_at(s, b) == line_at(s, a),
    decreases b - a,
{
    if b > a {
        lemma_line_at_same(s, a, b - 1);
    }
}

/// A character that continues an identifier run.
pub open spec fn is_ident_char(c: char) -> bool {
    is_alpha_char(c) || is_digit_char(c)
}

/// Every character of `s` is an ASCII digit.
pub open spec fn all_digits(s: Seq<char>) -> bool {
    forall|i: int| 0 <= i < s.len() ==> is_digit_char(s[i])
}

/// The shape of a number literal: one or more digits, optionally followed
/// by a dot and one or more digits.
pub open spec fn is_number_lexeme(lex: Seq<char>) -> bool {
    lex.len() > 0 && (all_digits(lex) || (exists|k: int|
        1 <= k < lex.len() - 1 && lex[k] == '.' && all_digits(#[trigger] lex.subrange(0, k))
            && all_digits(lex.subrange(k + 1, lex.len() as int))))
}

/// Whether the operator starting at `i` is followed by `=`, making the
/// two-character form.
pub open spec fn two_char_operator(s: Seq<char>, i: int) -> bool {
    i + 1 < s.len() && s[i + 1] == '='
}

/// The five characters `print` occur as a substring of `s` — whether as
/// the keyword, or inside a longer identifier or a string.
pub open spec fn contains_print_word(s: Seq<char>) -> bool {
    exists|i: int| 0 <= i && i + 5 <= s.len() && #[trigger] s.subrange(i, i + 5) == "print"@
}

/// The kind an identifier run denotes: one of the sixteen keywords when the
/// text matches it exactly, otherwise `Identifier`.
pub open spec fn keyword_type(lex: Seq<char>) -> TokenType {
    if lex == "and"@ {
        TokenType::And
    } else if lex == "class"@ {
        TokenType::Class
    } else if lex == "else"@ {
        TokenType::Else
    } else if lex == "false"@ {
        TokenType::False
    } else if lex == "for"@ {
        TokenType::For
    } else if lex == "fun"@ {
        TokenType::Fun
    } else if lex == "if"@ {
        TokenType::If
    } else if lex == "nil"@ {
        TokenType::Nil
    } else if lex == "or"@ {
        TokenType::Or
    } else if lex == "print"@ {
        TokenType::Print
    } else if lex == "return"@ {
        TokenType::Return
    } else if lex == "super"@ {
        TokenType::Super
    } else if lex == "this"@ {
        TokenType::This
    } else if lex == "true"@ {
        TokenType::True
    } else if lex == "var"@ {
        TokenType::Var
    } else if lex == "while"@ {
        TokenType::While
    } else {
        TokenType::Identifier
    }
}


/// Token `t` is what one scanner step produces when reading from
/// position `from`: it begins at the first significant character, its
/// kind and extent follow the source's characters, and `upto` is the
/// read position afterwards. `Eof` is produced exactly when the rest is
/// blank.
pub open spec fn scanned_token(s: Seq<char>, from: int, upto: int, t: Token) -> bool {
    let start = first_significant(s, from, false);
    &&& (t.token_type == TokenType::Eof <==> blank_from(s, from, false))
    &&& (t.token_type == TokenType::Eof ==> upto == s.len())
    &&& (t.token_type != TokenType::Eof ==> 0 <= from && from <= start < upto <= s.len())
    &&& ((t.token_type != TokenType::Eof && t.token_type != TokenType::Error) ==> t.lexeme@
        == s.subrange(start, upto))
    &&& (t.token_type == TokenType::Error ==> t.lexeme@ == "Unterminated string."@ || t.lexeme@
        == "Unexpected character."@)
    &&& (t.token_type == TokenType::String ==> t.lexeme@.len() >= 2 && t.lexeme@[0] == '"'
        && t.lexeme@.last() == '"')
    &&& (t.token_type == TokenType::Number ==> is_number_lexeme(t.lexeme@))
    &&& (t.token_type != TokenType::Eof ==> {
        let c = s[start];
        let one_more = (if two_char_operator(s, start) {
            2int
        } else {
            1int
        });
        &&& (starts_no_token(c) ==> t.token_type == TokenType::Error && t.lexeme@
            == "Unexpected character."@)
        &&& (is_alpha_char(c) ==> t.token_type == keyword_type(s.subrange(start, upto)) && (
        forall|j: int| start < j < upto ==> is_ident_char(#[trigger] s[j])) && (upto == s.len()
            || !is_ident_char(s[upto])))
        &&& (is_digit_char(c) ==> t.token_type == TokenType::Number && (upto == s.len()
            || !is_digit_char(s[upto])) && ((all_digits(t.lexeme@) && upto < s.len() && s[upto]
            == '.') ==> !(upto + 1 < s.len() && is_digit_char(s[upto + 1]))))
        &&& (c == '(' ==> t.token_type == TokenType::Leftparen && upto == start + 1)
        &&& (c == ')' ==> t.token_type == TokenType::Rightparen && upto == start + 1)
        &&& (c == '{' ==> t.token_type == TokenType::Leftbrace && upto == start + 1)
        &&& (c == '}' ==> t.token_type == TokenType::Rightbrace && upto == start + 1)
        &&& (c == ';' ==> t.token_type == TokenType::Semicolon && upto == start + 1)
        &&& (c == ',' ==> t.token_type == TokenType::Comma && upto == start + 1)
        &&& (c == '.' ==> t.token_type == TokenType::Dot && upto == start + 1)
        &&& (c == '-' ==> t.token_type == TokenType::Minus && upto == start + 1)
        &&& (c == '+' ==> t.token_type == TokenType::Plus && upto == start + 1)
        &&& (c == '/' ==> t.token_type == TokenType::Slash && upto == start + 1)
        &&& (c == '*' ==> t.token_type == TokenType::Star && upto == start + 1)
        &&& (c == '!' ==> t.token_type == (if two_char_operator(s, start) {
            TokenType::Bangequal
        } else {
            TokenType::Bang
        }) && upto == start + one_more)
        &&& (c == '=' ==> t.token_type == (if two_char_operator(s, start) {
            TokenType::Equalequal
        } else {
            TokenType::Equal
        }) && upto == start + one_more)
        &&& (c == '<' ==> t.token_type == (if two_char_operator(s, start) {
            TokenType::Lessequal
        } else {
            TokenType::Less
        }) && upto == start + one_more)
        &&& (c == '>' ==> t.token_type == (if two_char_operator(s, start) {
            TokenType::Greaterequal
        } else {
            TokenType::Greater
        }) && upto == start + one_more)
        &&& (c == '"' ==> ((t.token_type == TokenType::String <==> (exists|j: int|
            start < j < s.len() && #[trigger] s[j] == '"')) && (t.token_type == TokenType::String
            ==> s[upto - 1] == '"' && (forall|j: int| start < j < upto - 1 ==> #[trigger] s[j]
            != '"'))))
    })
}

/// `tokens` is exactly one scan of `s` read from position `from`: each
/// token is one scanner step, chained at the read positions, with the
/// stream's one `Eof` last.
pub open spec fn scan_of(s: Seq<char>, from: int, tokens: Seq<Token>) -> bool
    decreases tokens.len(),
{
    if tokens.len() == 0 {
        false
    } else if tokens.len() == 1 {
        tokens[0].token_type == TokenType::Eof && scanned_token(s, from, s.len() as int, tokens[0])
    } else {
        tokens[0].token_type != TokenType::Eof && (exists|upto: int|
            #[trigger] scanned_token(s, from, upto, tokens[0]) && scan_of(s, upto, tokens.skip(1)))
    }
}

/// A cursor over the source text. `start` marks the first character of the
/// token being scanned, `current` the next character to read, `line` the
/// 1-based line `current` stands on.
pub struct Scanner {
    pub source: String,
    pub start: usize,
    pub current: usize,
    pub line: usize,
}

impl Scanner {
    pub open spec fn wf(&self) -> bool {
        self.start <= self.current <= self.source@.len() && self.source@.len() <= usize::MAX
    }

    pub fn init(source: String) -> (r: Self)
        ensures
            r.wf(),
            r.source@ == source@,
            r.current == 0,
            r.line == 1,
            r.line == line_at(source@, 0),
    {
        let _length: usize = source.as_str().unicode_len();
        proof {
            assert(source@.len() <= usize::MAX);
        }
        Scanner { source, start: 0, current: 0, line: 1 }
    }

    /// Produce the next token. Always returns: at the end of the input it
    /// returns `Eof` (and only there), on a lexical fault it returns an
    /// `Error` token carrying the message. Every non-`Eof` token consumes
    /// at least one character.
    pub fn scan_token(&mut self) -> (t: Token)
        requires
            old(self).wf(),
        ensures
            final(self).wf(),
            final(self).source@ == old(self).source@,
            old(self).current <= final(self).current,
            old(self).line <= final(self).line,
            t.token_type == TokenType::Eof ==> final(self).current == final(self).source@.len(),
            t.token_type != TokenType::Eof ==> final(self).current > old(self).current,
            t.token_type == TokenType::Eof <==> blank_from(
                old(self).source@,
                old(self).current as int,
                false,
            ),
            old(self).line <= t.line <= final(self).line,
            final(self).start == first_significant(
                old(self).source@,
                old(self).current as int,
                false,
            ),
            t.token_type != TokenType::Eof ==> final(self).start < final(self).source@.len()
                && old(self).current <= final(self).start,
            t.token_type != TokenType::Eof ==> (starts_no_token(
                final(self).source@[final(self).start as int],
            ) ==> t.token_type == TokenType::Error && t.lexeme@ == "Unexpected character."@),
            t.token_type != TokenType::Eof ==> {
                let c = final(self).source@[final(self).start as int];
                let one_more = (if two_char_operator(
                    final(self).source@,
                    final(self).start as int,
                ) {
                    2int
                } else {
                    1int
                });
                &&& (is_alpha_char(c) ==> t.token_type == keyword_type(
                    final(self).source@.subrange(
                        final(self).start as int,
                        final(self).current as int,
                    ),
                ) && (forall|j: int|
                    final(self).start < j < final(self).current ==> is_ident_char(
                        #[trigger] final(self).source@[j],
                    )) && (final(self).current == final(self).source@.len() || !is_ident_char(
                    final(self).source@[final(self).current as int],
                )))
                &&& (is_digit_char(c) ==> t.token_type == TokenType::Number && (final(self).current
                    == final(self).source@.len() || !is_digit_char(
                    final(self).source@[final(self).current as int],
                )) && ((all_digits(t.lexeme@) && final(self).current < final(self).source@.len()
                    && final(self).source@[final(self).current as int] == '.') ==> !(final(self).current + 1 < final(self).source@.len() && is_digit_char(
                    final(self).source@[final(self).current as int + 1],
                ))))
                &&& (c == '(' ==> t.token_type == TokenType::Leftparen && final(self).current
                    == final(self).start + 1)
                &&& (c == ')' ==> t.token_type == TokenType::Rightparen && final(self).current
                    == final(self).start + 1)
                &&& (c == '{' ==> t.token_type == TokenType::Leftbrace && final(self).current
                    == final(self).start + 1)
                &&& (c == '}' ==> t.token_type == TokenType::Rightbrace && final(self).current
                    == final(self).start + 1)
                &&& (c == ';' ==> t.token_type == TokenType::Semicolon && final(self).current
                    == final(self).start + 1)
                &&& (c == ',' ==> t.token_type == TokenType::Comma && final(self).current == final(self).start + 1)
                &&& (c == '.' ==> t.token_type == TokenType::Dot && final(self).current == final(self).start + 1)
                &&& (c == '-' ==> t.token_type == TokenType::Minus && final(self).current == final(self).start + 1)
                &&& (c == '+' ==> t.token_type == TokenType::Plus && final(self).current == final(self).start + 1)
                &&& (c == '/' ==> t.token_type == TokenType::Slash && final(self).current == final(self).start + 1)
                &&& (c == '*' ==> t.token_type == TokenType::Star && final(self).current == final(self).start + 1)
                &&& (c == '!' ==> t.token_type == (if two_char_operator(
                    final(self).source@,
                    final(self).start as int,
                ) {
                    TokenType::Bangequal
                } else {
                    TokenType::Bang
                }) && final(self).current == final(self).start + one_more)
                &&& (c == '=' ==> t.token_type == (if two_char_operator(
                    final(self).source@,
                    final(self).start as int,
                ) {
                    TokenType::Equalequal
                } else {
                    TokenType::Equal
                }) && final(self).current == final(self).start + one_more)
                &&& (c == '<' ==> t.token_type == (if two_char_operator(
                    final(self).source@,
                    final(self).start as int,
                ) {
                    TokenType::Lessequal
                } else {
                    TokenType::Less
                }) && final(self).current == final(self).start + one_more)
                &&& (c == '>' ==> t.token_type == (if two_char_operator(
                    final(self).source@,
                    final(self).start as int,
                ) {
                    TokenType::Greaterequal
                } else {
                    TokenType::Greater
                }) && final(self).current == final(self).start + one_more)
                &&& (c == '"' ==> ((t.token_type == TokenType::String <==> (exists|j: int|
                    final(self).start < j < final(self).source@.len()
                        && #[trigger] final(self).source@[j] == '"')) && (t.token_type
                    == TokenType::String ==> final(self).source@[final(self).current - 1] == '"'
                    && (forall|j: int|
                    final(self).start < j < final(self).current - 1
                        ==> #[trigger] final(self).source@[j] != '"'))))
            },
            t.token_type == TokenType::Error ==> t.lexeme@ == "Unterminated string."@ || t.lexeme@
                == "Unexpected character."@,
            t.token_type == TokenType::String ==> t.lexeme@.len() >= 2 && t.lexeme@[0] == '"'
                && t.lexeme@.last() == '"',
            t.token_type == TokenType::Number ==> is_number_lexeme(t.lexeme@),
            (t.token_type != TokenType::Eof && t.token_type != TokenType::Error) ==> t.lexeme@
                == final(self).source@.subrange(
                final(self).start as int,
                final(self).current as int,
            ),
            t.token_type == TokenType::Print ==> contains_print_word(old(self).source@),
            scanned_token(old(self).source@, old(self).current as int, final(self).current as int, t),
            (old(self).source@.len() < usize::MAX && old(self).line == line_at(old(self).source@, old(self).current as int)) ==> (final(self).line == line_at(final(self).source@, final(self).current as int) && (t.token_type != TokenType::Error ==> t.line == line_at(final(self).source@, final(self).start as int)) && (t.token_type == TokenType::Error ==> t.line == line_at(final(self).source@, final(self).current as int))),
    {
        let ghost src = self.source@;
        let ghost tracked_line = self.source@.len() < usize::MAX && self.line == line_at(
            self.source@,
            self.current as int,
        );
        self.skip_whitespace_and_comments();

        self.start = self.current;
        let line0 = self.line;
        proof {
            if tracked_line {
                assert(line0 == line_at(src, self.start as int));
            }
        }

        if self.is_at_end() {
            return Token::make_token(TokenType::Eof, "", line0);
        }
        let c = self.advance();

        if is_alpha(c) {
            let t = self.parse_identifier(line0);
            proof {
                if t.token_type == TokenType::Print {
                    reveal_strlit("print");
                    assert(t.lexeme@ == "print"@);
                    let s = self.start as int;
                    assert(self.source@.subrange(s, s + 5) == "print"@);
                    assert(contains_print_word(self.source@));
                }
                if tracked_line {
                    assert forall|j: int|
                        self.start <= j < self.current implies #[trigger] src[j] != '\n' by {
                        if j > self.start {
                            assert(is_ident_char(src[j]));
                        }
                    }
                    lemma_line_at_same(src, self.start as int, self.current as int);
                }
            }
            return t;
        }
        if is_digit(c) {
            let t = self.parse_number(line0);
            proof {
                if tracked_line {
                    let lex = src.subrange(self.start as int, self.current as int);
                    assert forall|j: int|
                        self.start <= j < self.current implies #[trigger] src[j] != '\n' by {
                        let o = j - self.start;
                        assert(lex[o] == src[j]);
                        if all_digits(lex) {
                            assert(is_digit_char(lex[o]));
                        } else {
                            let k = choose|k: int|
                                1 <= k < lex.len() - 1 && lex[k] == '.' && all_digits(
                                    #[trigger] lex.subrange(0, k),
                                ) && all_digits(lex.subrange(k + 1, lex.len() as int));
                            if o < k {
                                assert(lex.subrange(0, k)[o] == lex[o]);
                                assert(is_digit_char(lex[o]));
                            } else if o > k {
                                assert(lex.subrange(k + 1, lex.len() as int)[o - k - 1] == lex[o]);
                                assert(is_digit_char(lex[o]));
                            }
                        }
                    }
                    lemma_line_at_same(src, self.start as int, self.current as int);
                }
            }
            return t;
        }
        proof {
            if tracked_line {
                assert(src[self.start as int] == c);
                if c != '\n' {
                    assert(line_at(src, self.start as int + 1) == line_at(src, self.start as int));
                }
            }
        }
        match c {
            '(' => self.make_token(TokenType::Leftparen, line0),
            ')' => self.make_token(TokenType::Rightparen, line0),
            '{' => self.make_token(TokenType::Leftbrace, line0),
            '}' => self.make_token(TokenType::Rightbrace, line0),
            ';' => self.make_token(TokenType::Semicolon, line0),
            ',' => self.make_token(TokenType::Comma, line0),
            '.' => self.make_token(TokenType::Dot, line0),
            '-' => self.make_token(TokenType::Minus, line0),
            '+' => self.make_token(TokenType::Plus, line0),
            '/' => self.make_token(TokenType::Slash, line0),
            '*' => self.make_token(TokenType::Star, line0),
            '!' => {
                let matched = self.match_char('=');
                proof {
                    if tracked_line {
                        assert(line_at(src, self.start as int + 1) == line_at(
                            src,
                            self.start as int,
                        ));
                        if matched {
                            assert(line_at(src, self.start as int + 2) == line_at(
                                src,
                                self.start as int + 1,
                            ));
                        }
                    }
                }
                self.make_token(
                    if matched {
                        TokenType::Bangequal
                    } else {
                        TokenType::Bang
                    },
                    line0,
                )
            },
            '=' => {
                let matched = self.match_char('=');
                proof {
                    if tracked_line {
                        assert(line_at(src, self.start as int + 1) == line_at(
                            src,
                            self.start as int,
                        ));
                        if matched {
                            assert(line_at(src, self.start as int + 2) == line_at(
                                src,
                                self.start as int + 1,
                            ));
                        }
                    }
                }
                self.make_token(
                    if matched {
                        TokenType::Equalequal
                    } else {
                        TokenType::Equal
                    },
                    line0,
                )
            },
            '<' => {
                let matched = self.match_char('=');
                proof {
                    if tracked_line {
                        assert(line_at(src, self.start as int + 1) == line_at(
                            src,
                            self.start as int,
                        ));
                        if matched {
                            assert(line_at(src, self.start as int + 2) == line_at(
                                src,
                                self.start as int + 1,
                            ));
                        }
                    }
                }
                self.make_token(
                    if matched {
                        TokenType::Lessequal
                    } else {
                        TokenType::Less
                    },
                    line0,
                )
            },
            '>' => {
                let matched = self.match_char('=');
                proof {
                    if tracked_line {
                        assert(line_at(src, self.start as int + 1) == line_at(
                            src,
                            self.start as int,
                        ));
                        if matched {
                            assert(line_at(src, self.start as int + 2) == line_at(
                                src,
                                self.start as int + 1,
                            ));
                        }
                    }
                }
                self.make_token(
                    if matched {
                        TokenType::Greaterequal
                    } else {
                        TokenType::Greater
                    },
                    line0,
                )
            },
            '"' => self.parse_string(line0),
            _ => Token::make_error_token("Unexpected character.", line0),
        }
    }

    fn make_token(&self, t: TokenType, line: usize) -> (tok: Token)
        requires
            self.wf(),
        ensures
            tok.token_type == t,
            tok.lexeme@ == self.source@.subrange(self.start as int, self.current as int),
            tok.line == line,
    {
        let lexeme = self.source.as_str().substring_char(self.start, self.current);
        Token::make_token(t, lexeme, line)
    }

    fn is_at_end(&self) -> (r: bool)
        requires
            self.wf(),
        ensures
            r == (self.current == self.source@.len()),
    {
        self.current == self.source.as_str().unicode_len()
    }

    fn advance(&mut self) -> (c: char)
        requires
            old(self).wf(),
            old(self).current < old(self).source@.len(),
        ensures
            final(self).wf(),
            final(self).source@ == old(self).source@,
            final(self).start == old(self).start,
            final(self).line == old(self).line,
            final(self).current == old(self).current + 1,
            c == old(self).source@[old(self).current as int],
    {
        let c = self.source.as_str().get_char(self.current);
        self.current = self.current + 1;
        c
    }

    fn match_char(&mut self, expected: char) -> (r: bool)
        requires
            old(self).wf(),
        ensures
            final(self).wf(),
            final(self).source@ == old(self).source@,
            final(self).start == old(self).start,
            final(self).line == old(self).line,
            r == (old(self).current < old(self).source@.len() && old(self).source@[old(self).current as int] == expected),
            r ==> final(self).current == old(self).current + 1,
            !r ==> final(self).current == old(self).current,
    {
        if self.is_at_end() {
            return false;
        }
        let c = self.source.as_str().get_char(self.current);
        if c != expected {
            return false;
        }
        self.current = self.current + 1;
        true
    }

    #[verifier::loop_isolation(false)]
    fn skip_whitespace_and_comments(&mut self)
        requires
            old(self).wf(),
        ensures
            final(self).wf(),
            final(self).source@ == old(self).source@,
            old(self).current <= final(self).current,
            old(self).line <= final(self).line,
            blank_from(old(self).source@, old(self).current as int, false) <==> final(self).current
                == final(self).source@.len(),
            final(self).current == first_significant(
                old(self).source@,
                old(self).current as int,
                false,
            ),
            final(self).start == old(self).start,
            (old(self).source@.len() < usize::MAX && old(self).line == line_at(old(self).source@, old(self).current as int)) ==> final(self).line == line_at(final(self).source@, final(self).current as int),
            final(self).current < final(self).source@.len() ==> !is_space_char(
                final(self).source@[final(self).current as int],
            ) && final(self).source@[final(self).current as int] != '\n',
    {
        let ghost src = self.source@;
        let ghost cur0 = self.current;
        let len = self.source.as_str().unicode_len();
        loop
            invariant
                self.wf(),
                self.source@ == src,
                len == src.len(),
                cur0 <= self.current,
                old(self).line <= self.line,
                self.start == old(self).start,
                blank_from(src, cur0 as int, false) == blank_from(src, self.current as int, false),
                first_significant(src, cur0 as int, false) == first_significant(
                    src,
                    self.current as int,
                    false,
                ),
                (old(self).source@.len() < usize::MAX && old(self).line == line_at(old(self).source@, old(self).current as int)) ==> self.line == line_at(src, self.current as int),
            decreases src.len() - self.current,
        {
            if self.current >= len {
                return;
            }
            let c = self.source.as_str().get_char(self.current);
            if c == ' ' || c == '\r' || c == '\t' {
                self.current = self.current + 1;
            } else if c == '\n' {
                proof {
                    lemma_line_at_bound(src, self.current as int);
                }
                if self.line < usize::MAX {
                    self.line = self.line + 1;
                }
                self.current = self.current + 1;
            } else if c == '/' && self.current + 1 < len && self.source.as_str().get_char(
                self.current + 1,
            ) == '/' {
                let ghost head_cur = self.current;
                self.current = self.current + 2;
                proof {
                    assert(line_at(src, head_cur as int + 1) == line_at(src, head_cur as int));
                    assert(line_at(src, head_cur as int + 2) == line_at(src, head_cur as int + 1));
                }
                loop
                    invariant
                        head_cur < self.current,
                        self.wf(),
                        self.source@ == src,
                        len == src.len(),
                        cur0 <= self.current,
                        old(self).line <= self.line,
                        self.start == old(self).start,
                        blank_from(src, cur0 as int, false) == blank_from(
                            src,
                            self.current as int,
                            true,
                        ),
                        first_significant(src, cur0 as int, false) == first_significant(
                            src,
                            self.current as int,
                            true,
                        ),
                        (old(self).source@.len() < usize::MAX && old(self).line == line_at(old(self).source@, old(self).current as int)) ==> self.line == line_at(src, self.current as int),
                    decreases src.len() - self.current,
                {
                    if self.current >= len {
                        return;
                    }
                    if self.source.as_str().get_char(self.current) == '\n' {
                        break;
                    }
                    self.current = self.current + 1;
                }
            } else {
                return;
            }
        }
    }

    fn parse_identifier(&mut self, line: usize) -> (t: Token)
        requires
            old(self).wf(),
            old(self).start + 1 == old(self).current,
            is_alpha_char(old(self).source@[old(self).start as int]),
        ensures
            final(self).wf(),
            final(self).source@ == old(self).source@,
            final(self).start == old(self).start,
            final(self).line == old(self).line,
            old(self).current <= final(self).current,
            t.lexeme@ == final(self).source@.subrange(
                final(self).start as int,
                final(self).current as int,
            ),
            t.token_type == keyword_type(t.lexeme@),
            t.line == line,
            forall|j: int|
                final(self).start < j < final(self).current ==> is_ident_char(
                    #[trigger] final(self).source@[j],
                ),
            final(self).current == final(self).source@.len() || !is_ident_char(
                final(self).source@[final(self).current as int],
            ),
    {
        loop
            invariant
                self.wf(),
                self.source@ == old(self).source@,
                self.start == old(self).start,
                self.line == old(self).line,
                old(self).current <= self.current,
                self.start < self.current,
                is_alpha_char(self.source@[self.start as int]),
                forall|j: int|
                    old(self).current <= j < self.current ==> is_ident_char(
                        #[trigger] self.source@[j],
                    ),
            ensures
                self.current == self.source@.len() || !is_ident_char(
                    self.source@[self.current as int],
                ),
            decreases self.source@.len() - self.current,
        {
            if self.is_at_end() {
                break;
            }
            let c = self.source.as_str().get_char(self.current);
            if is_alpha(c) || is_digit(c) {
                self.current = self.current + 1;
            } else {
                break;
            }
        }
        let token_type = self.get_identifier_type();
        self.make_token(token_type, line)
    }

    fn get_identifier_type(&self) -> (r: TokenType)
        requires
            self.wf(),
            self.start < self.current,
            is_alpha_char(self.source@[self.start as int]),
        ensures
            r == keyword_type(self.source@.subrange(self.start as int, self.current as int)),
    {
        proof {
            reveal_strlit("and");
            reveal_strlit("class");
            reveal_strlit("else");
            reveal_strlit("false");
            reveal_strlit("for");
            reveal_strlit("fun");
            reveal_strlit("if");
            reveal_strlit("nil");
            reveal_strlit("or");
            reveal_strlit("print");
            reveal_strlit("return");
            reveal_strlit("super");
            reveal_strlit("this");
            reveal_strlit("true");
            reveal_strlit("var");
            reveal_strlit("while");
        }
        let ghost lex = self.source@.subrange(self.start as int, self.current as int);
        let c = self.source.as_str().get_char(self.start);
        proof {
            assert(lex.len() == self.current - self.start);
            assert(lex[0] == c);
        }
        match c {
            'a' => self.check_keyword("and", TokenType::And),
            'c' => self.check_keyword("class", TokenType::Class),
            'e' => self.check_keyword("else", TokenType::Else),
            'f' => {
                if self.current - self.start > 1 {
                    let c2 = self.source.as_str().get_char(self.start + 1);
                    proof {
                        assert(lex[1] == c2);
                    }
                    match c2 {
                        'a' => self.check_keyword("false", TokenType::False),
                        'o' => self.check_keyword("for", TokenType::For),
                        'u' => self.check_keyword("fun", TokenType::Fun),
                        _ => TokenType::Identifier,
                    }
                } else {
                    TokenType::Identifier
                }
            },
            'i' => self.check_keyword("if", TokenType::If),
            'n' => self.check_keyword("nil", TokenType::Nil),
            'o' => self.check_keyword("or", TokenType::Or),
            'p' => self.check_keyword("print", TokenType::Print),
            'r' => self.check_keyword("return", TokenType::Return),
            's' => self.check_keyword("super", TokenType::Super),
            't' => {
                if self.current - self.start > 1 {
                    let c2 = self.source.as_str().get_char(self.start + 1);
                    proof {
                        assert(lex[1] == c2);
                    }
                    match c2 {
                        'h' => self.check_keyword("this", TokenType::This),
                        'r' => self.check_keyword("true", TokenType::True),
                        _ => TokenType::Identifier,
                    }
                } else {
                    TokenType::Identifier
                }
            },
            'v' => self.check_keyword("var", TokenType::Var),
            'w' => self.check_keyword("while", TokenType::While),
            _ => TokenType::Identifier,
        }
    }

    /// Whether the token being scanned is exactly `keyword`.
    #[verifier::loop_isolation(false)]
    fn check_keyword(&self, keyword: &str, tt: TokenType) -> (r: TokenType)
        requires
            self.wf(),
        ensures
            r == if self.source@.subrange(self.start as int, self.current as int) == keyword@ {
                tt
            } else {
                TokenType::Identifier
            },
    {
        let ghost lex = self.source@.subrange(self.start as int, self.current as int);
        let klen = keyword.unicode_len();
        if self.current - self.start != klen {
            proof {
                assert(lex.len() != keyword@.len());
                assert(lex != keyword@);
            }
            return TokenType::Identifier;
        }
        let mut j: usize = 0;
        while j < klen
            invariant
                self.wf(),
                klen == keyword@.len(),
                self.current - self.start == klen,
                j <= klen,
                lex == self.source@.subrange(self.start as int, self.current as int),
                forall|k: int| 0 <= k < j ==> lex[k] == keyword@[k],
            decreases klen - j,
        {
            let a = self.source.as_str().get_char(self.start + j);
            let b = keyword.get_char(j);
            if a != b {
                proof {
                    assert(lex[j as int] != keyword@[j as int]);
                    assert(lex != keyword@);
                }
                return TokenType::Identifier;
            }
            j = j + 1;
        }
        proof {
            assert(lex =~= keyword@);
        }
        tt
    }

    fn parse_number(&mut self, line: usize) -> (t: Token)
        requires
            old(self).wf(),
            old(self).start + 1 == old(self).current,
            is_digit_char(old(self).source@[old(self).start as int]),
        ensures
            final(self).wf(),
            final(self).source@ == old(self).source@,
            final(self).start == old(self).start,
            final(self).line == old(self).line,
            old(self).current <= final(self).current,
            t.token_type == TokenType::Number,
            t.lexeme@ == final(self).source@.subrange(
                final(self).start as int,
                final(self).current as int,
            ),
            is_number_lexeme(t.lexeme@),
            t.line == line,
            final(self).current == final(self).source@.len() || !is_digit_char(
                final(self).source@[final(self).current as int],
            ),
            (all_digits(t.lexeme@) && final(self).current < final(self).source@.len() && final(self).source@[final(self).current as int] == '.') ==> !(final(self).current + 1
                < final(self).source@.len() && is_digit_char(
                final(self).source@[final(self).current as int + 1],
            )),
    {
        let ghost src = self.source@;
        loop
            invariant
                self.wf(),
                self.source@ == src,
                self.start == old(self).start,
                self.line == old(self).line,
                old(self).current <= self.current,
                self.start < self.current,
                all_digits(src.subrange(self.start as int, self.current as int)),
            ensures
                self.current == src.len() || !is_digit_char(src[self.current as int]),
            decreases src.len() - self.current,
        {
            if self.is_at_end() {
                break;
            }
            let c = self.source.as_str().get_char(self.current);
            if is_digit(c) {
                proof {
                    let pre = src.subrange(self.start as int, self.current as int);
                    let post = src.subrange(self.start as int, self.current as int + 1);
                    assert(forall|i: int| 0 <= i < pre.len() ==> post[i] == pre[i]);
                }
                self.current = self.current + 1;
            } else {
                break;
            }
        }
        let ghost int_end = self.current;
        if !self.is_at_end() && self.source.as_str().get_char(self.current) == '.' && self.current
            + 1 < self.source.as_str().unicode_len() && is_digit(
            self.source.as_str().get_char(self.current + 1),
        ) {
            self.current = self.current + 1;
            loop
                invariant
                    self.wf(),
                    self.source@ == src,
                    self.start == old(self).start,
                    self.line == old(self).line,
                    self.start < int_end < self.current,
                    src[int_end as int] == '.',
                    int_end as int + 1 < src.len(),
                    is_digit_char(src[int_end as int + 1]),
                    all_digits(src.subrange(self.start as int, int_end as int)),
                    all_digits(src.subrange(int_end as int + 1, self.current as int)),
                    old(self).current <= self.current,
                ensures
                    self.current == src.len() || !is_digit_char(src[self.current as int]),
                decreases src.len() - self.current,
            {
                if self.is_at_end() {
                    break;
                }
                let c = self.source.as_str().get_char(self.current);
                if is_digit(c) {
                    proof {
                        let pre = src.subrange(int_end as int + 1, self.current as int);
                        let post = src.subrange(int_end as int + 1, self.current as int + 1);
                        assert(forall|i: int| 0 <= i < pre.len() ==> post[i] == pre[i]);
                    }
                    self.current = self.current + 1;
                } else {
                    break;
                }
            }
            assert(self.current > int_end + 1);
            proof {
                let lex = src.subrange(self.start as int, self.current as int);
                let k = int_end - self.start;
                assert(lex[k as int] == '.');
                assert(lex.subrange(0, k as int) =~= src.subrange(
                    self.start as int,
                    int_end as int,
                ));
                assert(lex.subrange(k as int + 1, lex.len() as int) =~= src.subrange(
                    int_end as int + 1,
                    self.current as int,
                ));
                assert(is_number_lexeme(lex));
                assert(!is_digit_char('.'));
                assert(!all_digits(lex));
            }
        }
        self.make_token(TokenType::Number, line)
    }

    fn parse_string(&mut self, line: usize) -> (t: Token)
        requires
            old(self).wf(),
            old(self).start + 1 == old(self).current,
            old(self).source@[old(self).start as int] == '"',
            line == old(self).line,
        ensures
            final(self).wf(),
            final(self).source@ == old(self).source@,
            final(self).start == old(self).start,
            old(self).current <= final(self).current,
            old(self).line <= final(self).line,
            old(self).line <= t.line <= final(self).line,
            t.token_type == TokenType::Error ==> t.line == final(self).line,
            t.token_type == TokenType::String ==> t.line == line,
            (old(self).source@.len() < usize::MAX && old(self).line == line_at(old(self).source@, old(self).current as int)) ==> final(self).line == line_at(old(self).source@, final(self).current as int),
            t.token_type == TokenType::String || t.token_type == TokenType::Error,
            t.token_type == TokenType::String <==> (exists|j: int|
                old(self).current <= j < old(self).source@.len() && #[trigger] old(self).source@[j]
                    == '"'),
            t.token_type == TokenType::Error ==> t.lexeme@ == "Unterminated string."@ && final(self).current == final(self).source@.len(),
            t.token_type == TokenType::String ==> t.lexeme@ == final(self).source@.subrange(
                final(self).start as int,
                final(self).current as int,
            ) && t.lexeme@.len() >= 2 && t.lexeme@[0] == '"' && t.lexeme@.last() == '"' && final(self).source@[final(self).current - 1] == '"' && (forall|j: int|
                final(self).start < j < final(self).current - 1 ==> #[trigger] final(self).source@[j] != '"'),
    {
        let ghost src = self.source@;
        loop
            invariant
                self.wf(),
                self.source@ == src,
                self.start == old(self).start,
                old(self).current <= self.current,
                old(self).line <= self.line,
                self.start < self.current,
                src[self.start as int] == '"',
                forall|j: int|
                    old(self).current <= j < self.current ==> #[trigger] src[j] != '"',
                (src.len() < usize::MAX && old(self).line == line_at(src, old(self).current as int)) ==> self.line == line_at(src, self.current as int),
            ensures
                self.current == src.len() || src[self.current as int] == '"',
            decreases src.len() - self.current,
        {
            if self.is_at_end() {
                break;
            }
            let c = self.source.as_str().get_char(self.current);
            if c == '"' {
                break;
            }
            if c == '\n' {
                proof {
                    lemma_line_at_bound(src, self.current as int);
                }
                if self.line < usize::MAX {
                    self.line = self.line + 1;
                }
            }
            self.current = self.current + 1;
        }
        if self.is_at_end() {
            Token::make_error_token("Unterminated string.", self.line)
        } else {
            self.current = self.current + 1;
            self.make_token(TokenType::String, line)
        }
    }
}

} // verus!
