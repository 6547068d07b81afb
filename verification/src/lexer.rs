use crate::token::{chars_of, Token, TokenType};
use vstd::prelude::*;
use vstd::string::StrSliceExecFns;
use vstd::string::StringExecFns;
use vstd::utf8::encode_utf8;

verus! {

/// Whitespace separates tokens and is never part of one: space, tab,
/// newline, carriage return.
pub open spec fn is_ws_byte(b: u8) -> bool {
    b == ' ' as u8 || b == '\t' as u8 || b == '\n' as u8 || b == '\r' as u8
}

/// The bytes an identifier-shaped lexeme is made of: ASCII letters and
/// underscore. Digits are deliberately not included.
pub open spec fn is_letter_byte(b: u8) -> bool {
    ||| 'a' as u8 <= b && b <= 'z' as u8
    ||| 'A' as u8 <= b && b <= 'Z' as u8
    ||| b == '_' as u8
}

/// The bytes an integer literal is made of: ASCII digits.
pub open spec fn is_digit_byte(b: u8) -> bool {
    '0' as u8 <= b && b <= '9' as u8
}

/// The category of a token made of the single byte `b`, for bytes that do
/// not start a longer lexeme (not a letter, digit, `=` or `!`). Every byte
/// outside the fixed punctuation set is Illegal.
pub open spec fn punct_kind(b: u8) -> TokenType {
    if b == ';' as u8 {
        TokenType::Semicolon
    } else if b == '(' as u8 {
        TokenType::LParen
    } else if b == ')' as u8 {
        TokenType::RParen
    } else if b == ',' as u8 {
        TokenType::Comma
    } else if b == '+' as u8 {
        TokenType::Plus
    } else if b == '-' as u8 {
        TokenType::Minus
    } else if b == '/' as u8 {
        TokenType::Slash
    } else if b == '*' as u8 {
        TokenType::Star
    } else if b == '<' as u8 {
        TokenType::LT
    } else if b == '>' as u8 {
        TokenType::GT
    } else if b == '{' as u8 {
        TokenType::LBrace
    } else if b == '}' as u8 {
        TokenType::RBrace
    } else {
        TokenType::Illegal
    }
}

/// The fixed keyword table: an identifier-shaped lexeme is classified as a
/// keyword iff it exactly equals one of the seven reserved words, and as a
/// plain identifier otherwise.
pub open spec fn spec_lookup(s: Seq<char>) -> TokenType {
    if s == "fn"@ {
        TokenType::Function
    } else if s == "let"@ {
        TokenType::Let
    } else if s == "true"@ {
        TokenType::True
    } else if s == "false"@ {
        TokenType::False
    } else if s == "if"@ {
        TokenType::If
    } else if s == "else"@ {
        TokenType::Else
    } else if s == "return"@ {
        TokenType::Return
    } else {
        TokenType::Ident
    }
}

/// The first position at or after `pos` whose byte is not whitespace, or the
/// end of the input.
pub open spec fn skip_ws(input: Seq<u8>, pos: int) -> int
    recommends
        0 <= pos <= input.len(),
    decreases input.len() - pos,
{
    if pos < input.len() && is_ws_byte(input[pos]) {
        skip_ws(input, pos + 1)
    } else {
        pos
    }
}

/// The end of the maximal run of letter bytes that starts at `pos`.
pub open spec fn letter_run_end(input: Seq<u8>, pos: int) -> int
    recommends
        0 <= pos <= input.len(),
    decreases input.len() - pos,
{
    if pos < input.len() && is_letter_byte(input[pos]) {
        letter_run_end(input, pos + 1)
    } else {
        pos
    }
}

/// The end of the maximal run of digit bytes that starts at `pos`.
pub open spec fn digit_run_end(input: Seq<u8>, pos: int) -> int
    recommends
        0 <= pos <= input.len(),
    decreases input.len() - pos,
{
    if pos < input.len() && is_digit_byte(input[pos]) {
        digit_run_end(input, pos + 1)
    } else {
        pos
    }
}

/// One scanning step at position `start` (whitespace already skipped):
/// the token's category, its lexeme bytes, and the position of the first
/// byte after the lexeme.
///
/// A NUL byte, like the end of the buffer, is the end-of-input sentinel:
/// the scanner emits EOF there and does not advance, so EOF repeats forever.
/// A two-character operator takes strict precedence over the one-character
/// reading of its first byte.
pub open spec fn scan_token(input: Seq<u8>, start: int) -> (TokenType, Seq<u8>, int)
    recommends
        0 <= start <= input.len(),
{
    if start >= input.len() || input[start] == 0 {
        (TokenType::EOF, Seq::<u8>::empty(), start)
    } else {
        let b = input[start];
        if b == '=' as u8 || b == '!' as u8 {
            if start + 1 < input.len() && input[start + 1] == '=' as u8 {
                let kind = if b == '=' as u8 {
                    TokenType::EQ
                } else {
                    TokenType::NotEQ
                };
                (kind, input.subrange(start, start + 2), start + 2)
            } else {
                let kind = if b == '=' as u8 {
                    TokenType::Assign
                } else {
                    TokenType::Bang
                };
                (kind, input.subrange(start, start + 1), start + 1)
            }
        } else if is_letter_byte(b) {
            let end = letter_run_end(input, start);
            let lex = input.subrange(start, end);
            (spec_lookup(chars_of(lex)), lex, end)
        } else if is_digit_byte(b) {
            let end = digit_run_end(input, start);
            (TokenType::Int, input.subrange(start, end), end)
        } else {
            (punct_kind(b), input.subrange(start, start + 1), start + 1)
        }
    }
}

/// What one call of `next_token` produces from cursor position `pos`:
/// leading whitespace is skipped, then exactly one token is scanned.
pub open spec fn next_token_spec(input: Seq<u8>, pos: int) -> (TokenType, Seq<u8>, int)
    recommends
        0 <= pos <= input.len(),
{
    scan_token(input, skip_ws(input, pos))
}

/// Relies on String::push: it appends exactly the given character.
#[verifier::external_body]
fn push_char(s: &mut String, c: char)
    ensures
        final(s)@ == old(s)@.push(c),
{
    s.push(c);
}

/// Builds the string that spells the given bytes, one character per byte.
fn string_of_bytes(bytes: &Vec<u8>) -> (s: String)
    ensures
        s@ == chars_of(bytes@),
{
    let mut s = String::new();
    let mut i: usize = 0;
    while i < bytes.len()
        invariant
            i <= bytes@.len(),
            s@ == chars_of(bytes@.subrange(0, i as int)),
        decreases bytes@.len() - i,
    {
        push_char(&mut s, bytes[i] as char);
        i = i + 1;
        proof {
            assert(s@ =~= chars_of(bytes@.subrange(0, i as int)));
        }
    }
    proof {
        assert(bytes@.subrange(0, bytes@.len() as int) =~= bytes@);
    }
    s
}

/// Classifies an identifier-shaped lexeme as a keyword or an identifier by
/// exact lookup against the seven reserved words.
fn lookup_ident(ident: String) -> (t: TokenType)
    ensures
        t == spec_lookup(ident@),
{
    if ident == String::from_str("fn") {
        TokenType::Function
    } else if ident == String::from_str("let") {
        TokenType::Let
    } else if ident == String::from_str("true") {
        TokenType::True
    } else if ident == String::from_str("false") {
        TokenType::False
    } else if ident == String::from_str("if") {
        TokenType::If
    } else if ident == String::from_str("else") {
        TokenType::Else
    } else if ident == String::from_str("return") {
        TokenType::Return
    } else {
        TokenType::Ident
    }
}

/// The scanner: it owns the raw input bytes, a cursor to the byte under
/// examination, a one-byte-ahead cursor, and that byte itself.
pub struct Lexer {
    pub input: Vec<u8>,
    pub position: usize,
    pub read_position: usize,
    pub ch: u8,
}

impl Lexer {
    /// The scanner's internal invariant: the cursor stays inside the buffer
    /// (one past the last byte at most), the read cursor is one byte ahead,
    /// and `ch` caches the byte under the cursor, with 0 standing for the
    /// end of the buffer.
    pub open spec fn wf(self) -> bool {
        &&& self.input@.len() < usize::MAX
        &&& self.position <= self.input@.len()
        &&& self.read_position == self.position + 1
        &&& self.ch == (if self.position < self.input@.len() {
            self.input@[self.position as int]
        } else {
            0u8
        })
    }

    /// Makes a scanner over the UTF-8 bytes of `input`, positioned on the
    /// first byte. An empty input is well-defined: the first call of
    /// `next_token` returns EOF at once.
    #[must_use]
    pub fn new(input: String) -> (r: Lexer)
        requires
            encode_utf8(input@).len() < usize::MAX,
        ensures
            r.wf(),
            r.input@ == encode_utf8(input@),
            r.position == 0,
    {
        let bytes = input.as_str().as_bytes_vec();
        let ch: u8 = if bytes.len() > 0 {
            bytes[0]
        } else {
            0
        };
        Lexer { input: bytes, position: 0, read_position: 1, ch }
    }

    /// Advances the cursor by one byte and reloads `ch`.
    fn read_char(&mut self)
        requires
            old(self).wf(),
            old(self).position < old(self).input@.len(),
        ensures
            final(self).wf(),
            final(self).input@ == old(self).input@,
            final(self).position == old(self).position + 1,
    {
        if self.read_position >= self.input.len() {
            self.ch = 0;
        } else {
            self.ch = self.input[self.read_position];
        }

        self.position = self.read_position;
        self.read_position = self.read_position + 1;
    }

    /// The byte one position ahead of the cursor, without consuming it;
    /// 0 past the end of the buffer.
    fn peek(&self) -> (b: u8)
        requires
            self.wf(),
        ensures
            b == (if self.position + 1 < self.input@.len() {
                self.input@[self.position as int + 1]
            } else {
                0u8
            }),
    {
        if self.read_position >= self.input.len() {
            0
        } else {
            self.input[self.read_position]
        }
    }

    /// Whether the byte under the cursor can be part of an identifier.
    fn is_letter(&self) -> (r: bool)
        ensures
            r == is_letter_byte(self.ch),
    {
        (self.ch >= 'a' as u8 && self.ch <= 'z' as u8) || (self.ch >= 'A' as u8 && self.ch
            <= 'Z' as u8) || self.ch == '_' as u8
    }

    /// Moves the cursor past consecutive whitespace bytes.
    fn skip_whitespace(&mut self)
        requires
            old(self).wf(),
        ensures
            final(self).wf(),
            final(self).input@ == old(self).input@,
            final(self).position as int == skip_ws(old(self).input@, old(self).position as int),
    {
        while self.ch == ' ' as u8 || self.ch == '\t' as u8 || self.ch == '\n' as u8 || self.ch
            == '\r' as u8
            invariant
                self.wf(),
                self.input@ == old(self).input@,
                skip_ws(self.input@, self.position as int) == skip_ws(
                    old(self).input@,
                    old(self).position as int,
                ),
            decreases self.input@.len() - self.position,
        {
            self.read_char();
        }
    }

    /// Consumes the maximal run of letter bytes that starts at the cursor
    /// and returns it as a string.
    fn read_identifier(&mut self) -> (lit: String)
        requires
            old(self).wf(),
            is_letter_byte(old(self).ch),
        ensures
            final(self).wf(),
            final(self).input@ == old(self).input@,
            final(self).position as int == letter_run_end(
                old(self).input@,
                old(self).position as int,
            ),
            old(self).position <= final(self).position,
            lit@ == chars_of(
                old(self).input@.subrange(
                    old(self).position as int,
                    final(self).position as int,
                ),
            ),
    {
        let position: usize = self.position;
        while self.is_letter()
            invariant
                self.wf(),
                self.input@ == old(self).input@,
                position <= self.position,
                letter_run_end(self.input@, self.position as int) == letter_run_end(
                    old(self).input@,
                    old(self).position as int,
                ),
            decreases self.input@.len() - self.position,
        {
            self.read_char();
        }
        let bytes = vstd::slice::slice_to_vec(
            vstd::slice::slice_subrange(self.input.as_slice(), position, self.position),
        );
        string_of_bytes(&bytes)
    }

    /// Consumes the maximal run of digit bytes that starts at the cursor
    /// and returns it as a string.
    fn read_number(&mut self) -> (lit: String)
        requires
            old(self).wf(),
            is_digit_byte(old(self).ch),
        ensures
            final(self).wf(),
            final(self).input@ == old(self).input@,
            final(self).position as int == digit_run_end(
                old(self).input@,
                old(self).position as int,
            ),
            old(self).position <= final(self).position,
            lit@ == chars_of(
                old(self).input@.subrange(
                    old(self).position as int,
                    final(self).position as int,
                ),
            ),
    {
        let position: usize = self.position;
        while self.ch >= '0' as u8 && self.ch <= '9' as u8
            invariant
                self.wf(),
                self.input@ == old(self).input@,
                position <= self.position,
                digit_run_end(self.input@, self.position as int) == digit_run_end(
                    old(self).input@,
                    old(self).position as int,
                ),
            decreases self.input@.len() - self.position,
        {
            self.read_char();
        }
        let bytes = vstd::slice::slice_to_vec(
            vstd::slice::slice_subrange(self.input.as_slice(), position, self.position),
        );
        string_of_bytes(&bytes)
    }

    /// Produces the next token in source order and advances the scanner by
    /// exactly the bytes consumed. Leading whitespace is skipped and never
    /// emitted. `==` and `!=` take strict precedence over `=` and `!`. At the
    /// end of the input (or on a NUL byte) every call returns EOF and the
    /// scanner does not move, so the terminal state is idempotent. The
    /// scanner never fails: an unrecognized byte comes back as an Illegal
    /// token and scanning continues past it.
    pub fn next_token(&mut self) -> (token: Token)
        requires
            old(self).wf(),
        ensures
            final(self).wf(),
            final(self).input@ == old(self).input@,
            ({
                let (kind, lex, end) = next_token_spec(old(self).input@, old(self).position as int);
                &&& token.token_type == kind
                &&& token.literal@ == chars_of(lex)
                &&& final(self).position as int == end
            }),
    {
        self.skip_whitespace();
        let tok: Token;
        if self.ch == '=' as u8 {
            if self.peek() == '=' as u8 {
                self.read_char();
                let mut bs: Vec<u8> = Vec::new();
                bs.push('=' as u8);
                bs.push('=' as u8);
                let literal = string_of_bytes(&bs);
                proof {
                    assert(bs@ =~= old(self).input@.subrange(
                        self.position - 1,
                        self.position + 1,
                    ));
                }
                tok = Token { token_type: TokenType::EQ, literal };
            } else {
                tok = Self::new_token(TokenType::Assign, self.ch);
                proof {
                    assert(seq![self.ch] =~= self.input@.subrange(
                        self.position as int,
                        self.position + 1,
                    ));
                }
            }
        } else if self.ch == '!' as u8 {
            if self.peek() == '=' as u8 {
                self.read_char();
                let mut bs: Vec<u8> = Vec::new();
                bs.push('!' as u8);
                bs.push('=' as u8);
                let literal = string_of_bytes(&bs);
                proof {
                    assert(bs@ =~= old(self).input@.subrange(
                        self.position - 1,
                        self.position + 1,
                    ));
                }
                tok = Token { token_type: TokenType::NotEQ, literal };
            } else {
                tok = Self::new_token(TokenType::Bang, self.ch);
                proof {
                    assert(seq![self.ch] =~= self.input@.subrange(
                        self.position as int,
                        self.position + 1,
                    ));
                }
            }
        } else if self.ch == 0 {
            proof {
                assert(chars_of(Seq::<u8>::empty()) =~= Seq::<char>::empty());
            }
            return Token { token_type: TokenType::EOF, literal: String::new() };
        } else if self.is_letter() {
            let literal = self.read_identifier();
            let token_type = lookup_ident(literal.clone());
            return Token { token_type, literal };
        } else if self.ch >= '0' as u8 && self.ch <= '9' as u8 {
            let literal = self.read_number();
            return Token { token_type: TokenType::Int, literal };
        } else {
            let kind = if self.ch == ';' as u8 {
                TokenType::Semicolon
            } else if self.ch == '(' as u8 {
                TokenType::LParen
            } else if self.ch == ')' as u8 {
                TokenType::RParen
            } else if self.ch == ',' as u8 {
                TokenType::Comma
            } else if self.ch == '+' as u8 {
                TokenType::Plus
            } else if self.ch == '-' as u8 {
                TokenType::Minus
            } else if self.ch == '/' as u8 {
                TokenType::Slash
            } else if self.ch == '*' as u8 {
                TokenType::Star
            } else if self.ch == '<' as u8 {
                TokenType::LT
            } else if self.ch == '>' as u8 {
                TokenType::GT
            } else if self.ch == '{' as u8 {
                TokenType::LBrace
            } else if self.ch == '}' as u8 {
                TokenType::RBrace
            } else {
                TokenType::Illegal
            };
            tok = Self::new_token(kind, self.ch);
            proof {
                assert(seq![self.ch] =~= self.input@.subrange(
                    self.position as int,
                    self.position + 1,
                ));
            }
        }

        self.read_char();
        tok
    }

    /// Makes a token whose text is the single byte `ch`.
    fn new_token(token_type: TokenType, ch: u8) -> (t: Token)
        ensures
            t.token_type == token_type,
            t.literal@ == chars_of(seq![ch]),
    {
        let mut literal = String::new();
        push_char(&mut literal, ch as char);
        proof {
            assert(literal@ =~= chars_of(seq![ch]));
        }
        Token { token_type, literal }
    }
}


/// The cursor never moves backward while skipping whitespace, and stays
/// inside the buffer.
proof fn lemma_skip_ws_bounds(input: Seq<u8>, pos: int)
    requires
        0 <= pos <= input.len(),
    ensures
        pos <= skip_ws(input, pos) <= input.len(),
    decreases input.len() - pos,
{
    if pos < input.len() && is_ws_byte(input[pos]) {
        lemma_skip_ws_bounds(input, pos + 1);
    }
}

/// The end of a letter run lies between its start and the end of the input.
proof fn lemma_letter_run_bounds(input: Seq<u8>, pos: int)
    requires
        0 <= pos <= input.len(),
    ensures
        pos <= letter_run_end(input, pos) <= input.len(),
    decreases input.len() - pos,
{
    if pos < input.len() && is_letter_byte(input[pos]) {
        lemma_letter_run_bounds(input, pos + 1);
    }
}

/// The end of a digit run lies between its start and the end of the input.
proof fn lemma_digit_run_bounds(input: Seq<u8>, pos: int)
    requires
        0 <= pos <= input.len(),
    ensures
        pos <= digit_run_end(input, pos) <= input.len(),
    decreases input.len() - pos,
{
    if pos < input.len() && is_digit_byte(input[pos]) {
        lemma_digit_run_bounds(input, pos + 1);
    }
}

/// Totality of scanning, first half: one call of `next_token` never moves
/// the cursor backward or past the end of the input, and it advances
/// strictly unless it produced EOF. On any finite input, repeated calls
/// therefore reach EOF after at most `input.len()` non-EOF tokens.
pub proof fn lemma_progress(input: Seq<u8>, pos: int)
    requires
        0 <= pos <= input.len(),
    ensures
        ({
            let (kind, lex, end) = next_token_spec(input, pos);
            &&& pos <= end <= input.len()
            &&& (kind != TokenType::EOF ==> pos < end)
        }),
{
    lemma_skip_ws_bounds(input, pos);
    let start = skip_ws(input, pos);
    if start < input.len() && input[start] != 0 {
        let b = input[start];
        if b == '=' as u8 || b == '!' as u8 {
        } else if is_letter_byte(b) {
            lemma_letter_run_bounds(input, start + 1);
        } else if is_digit_byte(b) {
            lemma_digit_run_bounds(input, start + 1);
        }
    }
}

/// Totality of scanning, second half: the terminal state is idempotent.
/// Where a call produced EOF, its text was empty, and every later call
/// scans from the same position and produces EOF with empty text again,
/// so the scanner returns EOF indefinitely.
pub proof fn lemma_eof_stable(input: Seq<u8>, pos: int)
    requires
        0 <= pos <= input.len(),
        next_token_spec(input, pos).0 == TokenType::EOF,
    ensures
        ({
            let end = next_token_spec(input, pos).2;
            &&& next_token_spec(input, pos).1 == Seq::<u8>::empty()
            &&& next_token_spec(input, end).0 == TokenType::EOF
            &&& next_token_spec(input, end).1 == Seq::<u8>::empty()
            &&& next_token_spec(input, end).2 == end
        }),
{
    let start = skip_ws(input, pos);
    lemma_skip_ws_bounds(input, pos);
    assert(start >= input.len() || input[start] == 0);
}

/// The keyword table partitions identifier-shaped lexemes, case-sensitively:
/// a lexeme is classified as a keyword kind iff it equals that reserved word
/// exactly, and as a plain identifier iff it equals none of the seven.
pub proof fn lemma_keyword_partition(s: Seq<char>)
    ensures
        (spec_lookup(s) == TokenType::Function) == (s == "fn"@),
        (spec_lookup(s) == TokenType::Let) == (s == "let"@),
        (spec_lookup(s) == TokenType::True) == (s == "true"@),
        (spec_lookup(s) == TokenType::False) == (s == "false"@),
        (spec_lookup(s) == TokenType::If) == (s == "if"@),
        (spec_lookup(s) == TokenType::Else) == (s == "else"@),
        (spec_lookup(s) == TokenType::Return) == (s == "return"@),
        (spec_lookup(s) == TokenType::Ident) == (s != "fn"@ && s != "let"@ && s != "true"@
            && s != "false"@ && s != "if"@ && s != "else"@ && s != "return"@),
{
    reveal_strlit("fn");
    reveal_strlit("let");
    reveal_strlit("true");
    reveal_strlit("false");
    reveal_strlit("if");
    reveal_strlit("else");
    reveal_strlit("return");
    assert("fn"@.len() == 2);
    assert("let"@.len() == 3);
    assert("true"@.len() == 4);
    assert("false"@.len() == 5);
    assert("if"@.len() == 2);
    assert("else"@.len() == 4);
    assert("return"@.len() == 6);
    assert("if"@[0] == 'i' && "fn"@[0] == 'f');
    assert("else"@[0] == 'e' && "true"@[0] == 't');
}

/// A letter run that reaches the end of the input ends the lexeme there.
proof fn lemma_letter_run_full(input: Seq<u8>, pos: int)
    requires
        0 <= pos <= input.len(),
        forall|i: int| pos <= i < input.len() ==> is_letter_byte(input[i]),
    ensures
        letter_run_end(input, pos) == input.len(),
    decreases input.len() - pos,
{
    if pos < input.len() {
        lemma_letter_run_full(input, pos + 1);
    }
}

/// A whole input made of letters and underscores is scanned as one lexeme
/// covering the full run, and classified by the keyword table; with
/// `lemma_keyword_partition`, such a run comes back as the matching keyword
/// kind iff it equals a reserved word, and otherwise as one Ident token
/// whose text is the entire run.
pub proof fn lemma_letter_run(input: Seq<u8>)
    requires
        input.len() > 0,
        forall|i: int| 0 <= i < input.len() ==> is_letter_byte(input[i]),
    ensures
        ({
            let (kind, lex, end) = next_token_spec(input, 0);
            &&& lex == input
            &&& end == input.len()
            &&& kind == spec_lookup(chars_of(input))
        }),
{
    assert(!is_ws_byte(input[0]));
    assert(skip_ws(input, 0) == 0);
    lemma_letter_run_full(input, 0);
    assert(input.subrange(0, input.len() as int) =~= input);
}


/// The whole token stream of an input, scanned from `pos`: one entry per
/// call of `next_token`, ending with the EOF sentinel. That this function
/// terminates is itself the totality of scanning: it is well-defined because
/// every step before EOF strictly advances the cursor (`lemma_progress`).
pub open spec fn token_stream(input: Seq<u8>, pos: int) -> Seq<(TokenType, Seq<u8>)>
    recommends
        0 <= pos <= input.len(),
    decreases input.len() - pos,
        when 0 <= pos <= input.len() via token_stream_decreases
{
    let (kind, lex, end) = next_token_spec(input, pos);
    if kind == TokenType::EOF {
        seq![(kind, lex)]
    } else {
        seq![(kind, lex)] + token_stream(input, end)
    }
}

#[via_fn]
proof fn token_stream_decreases(input: Seq<u8>, pos: int) {
    lemma_progress(input, pos);
}

/// Totality of scanning: from any position of any finite input the token
/// stream is finite and its last element is the EOF sentinel with empty
/// text, so repeated calls of `next_token` reach EOF; by
/// `lemma_eof_stable`, they then return EOF indefinitely.
pub proof fn lemma_stream_ends_with_eof(input: Seq<u8>, pos: int)
    requires
        0 <= pos <= input.len(),
    ensures
        token_stream(input, pos).len() >= 1,
        token_stream(input, pos).last() == (TokenType::EOF, Seq::<u8>::empty()),
    decreases input.len() - pos,
{
    lemma_progress(input, pos);
    let (kind, lex, end) = next_token_spec(input, pos);
    if kind == TokenType::EOF {
        lemma_eof_stable(input, pos);
    } else {
        lemma_stream_ends_with_eof(input, end);
    }
}


/// Skipping whitespace is idempotent: after the skip, the cursor stands on a
/// non-whitespace byte or at the end, so a second skip does not move it.
proof fn lemma_skip_ws_idempotent(input: Seq<u8>, pos: int)
    requires
        0 <= pos <= input.len(),
    ensures
        skip_ws(input, skip_ws(input, pos)) == skip_ws(input, pos),
    decreases input.len() - pos,
{
    if pos < input.len() && is_ws_byte(input[pos]) {
        lemma_skip_ws_idempotent(input, pos + 1);
    }
}

/// Whitespace transparency: the token stream is the same whether scanning
/// starts before or after a run of whitespace, with the same token texts;
/// whitespace is never emitted as a token.
pub proof fn lemma_ws_transparent(input: Seq<u8>, pos: int)
    requires
        0 <= pos <= input.len(),
    ensures
        token_stream(input, pos) == token_stream(input, skip_ws(input, pos)),
{
    lemma_skip_ws_bounds(input, pos);
    lemma_skip_ws_idempotent(input, pos);
}

} // verus!
