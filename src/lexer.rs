//! The scanner: source bytes to tokens, one at a time.

use vstd::prelude::*;
use crate::token::{keyword_kind, Token, TokenModel, TokenType};

verus! {

pub open spec fn spec_is_letter(c: u8) -> bool {
    (97 <= c && c <= 122) || (65 <= c && c <= 90) || c == 95
}

pub open spec fn spec_is_digit(c: u8) -> bool {
    48 <= c && c <= 57
}

pub open spec fn spec_is_space(c: u8) -> bool {
    c == 32 || c == 9 || c == 10 || c == 13
}

/// The byte at `i`, or the zero sentinel past the end.
pub open spec fn byte_at(s: Seq<u8>, i: int) -> u8 {
    if 0 <= i < s.len() {
        s[i]
    } else {
        0
    }
}

/// The text of a run of bytes, each byte taken as the character of that code.
pub open spec fn byte_text(b: Seq<u8>) -> Seq<char> {
    b.map_values(|x: u8| x as char)
}

/// The first position at or after `i` that does not hold whitespace.
pub open spec fn skip_ws(s: Seq<u8>, i: int) -> int
    decreases s.len() - i,
{
    if 0 <= i < s.len() && spec_is_space(s[i]) {
        skip_ws(s, i + 1)
    } else {
        i
    }
}

/// The end of the maximal run of letters starting at `i`.
pub open spec fn letters_end(s: Seq<u8>, i: int) -> int
    decreases s.len() - i,
{
    if 0 <= i < s.len() && spec_is_letter(s[i]) {
        letters_end(s, i + 1)
    } else {
        i
    }
}

/// The end of the maximal run of digits starting at `i`.
pub open spec fn digits_end(s: Seq<u8>, i: int) -> int
    decreases s.len() - i,
{
    if 0 <= i < s.len() && spec_is_digit(s[i]) {
        digits_end(s, i + 1)
    } else {
        i
    }
}

/// The kind of a byte that is a token by itself, whatever follows it.
pub open spec fn single_kind(c: u8) -> Option<TokenType> {
    if c == 43 {
        Some(TokenType::PLUS)
    } else if c == 45 {
        Some(TokenType::MINUS)
    } else if c == 42 {
        Some(TokenType::ASTERISK)
    } else if c == 47 {
        Some(TokenType::SLASH)
    } else if c == 60 {
        Some(TokenType::LT)
    } else if c == 62 {
        Some(TokenType::GT)
    } else if c == 44 {
        Some(TokenType::COMMA)
    } else if c == 59 {
        Some(TokenType::SEMICOLON)
    } else if c == 40 {
        Some(TokenType::LPAREN)
    } else if c == 41 {
        Some(TokenType::RPAREN)
    } else if c == 123 {
        Some(TokenType::LBRACE)
    } else if c == 125 {
        Some(TokenType::RBRACE)
    } else {
        None
    }
}

pub open spec fn tok(kind: TokenType, literal: Seq<char>) -> TokenModel {
    TokenModel { kind, literal }
}

/// The token that starts at or after position `i` of `s`, and the position
/// just past it. At the end of input: `EOF`, and the position stays.
pub open spec fn lex_next(s: Seq<u8>, i: int) -> (TokenModel, int) {
    let p = skip_ws(s, i);
    if p >= s.len() {
        (tok(TokenType::EOF, seq![]), p)
    } else {
        let c = s[p];
        if c == 61 {
            if byte_at(s, p + 1) == 61 {
                (tok(TokenType::EQ, seq!['=', '=']), p + 2)
            } else {
                (tok(TokenType::ASSIGN, seq!['=']), p + 1)
            }
        } else if c == 33 {
            if byte_at(s, p + 1) == 61 {
                (tok(TokenType::NOT_EQ, seq!['!', '=']), p + 2)
            } else {
                (tok(TokenType::BANG, seq!['!']), p + 1)
            }
        } else if single_kind(c) is Some {
            (tok(single_kind(c)->Some_0, seq![c as char]), p + 1)
        } else if spec_is_letter(c) {
            let e = letters_end(s, p);
            let w = byte_text(s.subrange(p, e));
            (tok(keyword_kind(w), w), e)
        } else if spec_is_digit(c) {
            let e = digits_end(s, p);
            (tok(TokenType::INT, byte_text(s.subrange(p, e))), e)
        } else {
            (tok(TokenType::ILLEGAL, seq![c as char]), p + 1)
        }
    }
}

proof fn lemma_skip_ws(s: Seq<u8>, i: int)
    requires
        0 <= i <= s.len(),
    ensures
        i <= skip_ws(s, i) <= s.len(),
        skip_ws(s, skip_ws(s, i)) == skip_ws(s, i),
    decreases s.len() - i,
{
    if i < s.len() && spec_is_space(s[i]) {
        lemma_skip_ws(s, i + 1);
    }
}

proof fn lemma_letters_end(s: Seq<u8>, i: int)
    requires
        0 <= i <= s.len(),
    ensures
        i <= letters_end(s, i) <= s.len(),
    decreases s.len() - i,
{
    if i < s.len() && spec_is_letter(s[i]) {
        lemma_letters_end(s, i + 1);
    }
}

proof fn lemma_digits_end(s: Seq<u8>, i: int)
    requires
        0 <= i <= s.len(),
    ensures
        i <= digits_end(s, i) <= s.len(),
    decreases s.len() - i,
{
    if i < s.len() && spec_is_digit(s[i]) {
        lemma_digits_end(s, i + 1);
    }
}

/// Scanning moves forward and stays within the input; a token other than
/// `EOF` consumes at least one byte, and once `EOF` is reached it stays.
pub proof fn lemma_lex_progress(s: Seq<u8>, i: int)
    requires
        0 <= i <= s.len(),
    ensures
        i <= lex_next(s, i).1 <= s.len(),
        lex_next(s, i).0.kind != TokenType::EOF ==> i < lex_next(s, i).1,
        lex_next(s, i).0.kind == TokenType::EOF ==> lex_next(s, lex_next(s, i).1) == lex_next(s, i),
{
    lemma_skip_ws(s, i);
    let p = skip_ws(s, i);
    if p < s.len() {
        lemma_letters_end(s, p + 1);
        lemma_digits_end(s, p + 1);
        assert(letters_end(s, p) == letters_end(s, p + 1) || !spec_is_letter(s[p]));
        assert(digits_end(s, p) == digits_end(s, p + 1) || !spec_is_digit(s[p]));
    }
}

/// The tokens scanned from position `i` on, up to but not including `EOF`.
pub open spec fn tokens_from(s: Seq<u8>, i: int) -> Seq<TokenModel>
    decreases s.len() - i,
{
    let (t, j) = lex_next(s, i);
    if i < 0 || i > s.len() || t.kind == TokenType::EOF {
        seq![]
    } else {
        proof {
            lemma_lex_progress(s, i);
        }
        seq![t] + tokens_from(s, j)
    }
}

/// A punctuation or operator byte met where a token starts becomes exactly
/// one token of its kind, with that byte as its text, and scanning resumes
/// right after it.
pub proof fn lemma_single_byte_token(s: Seq<u8>, i: int)
    requires
        0 <= i,
        skip_ws(s, i) < s.len(),
        single_kind(s[skip_ws(s, i)]) is Some,
    ensures
        lex_next(s, i) == (
            tok(single_kind(s[skip_ws(s, i)])->Some_0, seq![s[skip_ws(s, i)] as char]),
            skip_ws(s, i) + 1,
        ),
{
}

/// `=` and `!` not followed by `=` are one token each, likewise.
pub proof fn lemma_lone_assign_or_bang(s: Seq<u8>, i: int)
    requires
        0 <= i,
        skip_ws(s, i) < s.len(),
        s[skip_ws(s, i)] == 61 || s[skip_ws(s, i)] == 33,
        byte_at(s, skip_ws(s, i) + 1) != 61,
    ensures
        lex_next(s, i) == (
            tok(
                if s[skip_ws(s, i)] == 61 {
                    TokenType::ASSIGN
                } else {
                    TokenType::BANG
                },
                seq![s[skip_ws(s, i)] as char],
            ),
            skip_ws(s, i) + 1,
        ),
{
}

/// Relies on String::push: the character is appended; `u8 as char` gives the
/// character whose code is the byte.
#[verifier::external_body]
fn push_byte(s: &mut String, b: u8)
    ensures
        final(s)@ == old(s)@.push(b as char),
{
    s.push(b as char)
}

/// The text of the bytes `b[from..to]`.
fn text_of(b: &Vec<u8>, from: usize, to: usize) -> (r: String)
    requires
        from <= to <= b@.len(),
    ensures
        r@ == byte_text(b@.subrange(from as int, to as int)),
{
    let mut r = String::new();
    let mut k = from;
    while k < to
        invariant
            from <= k <= to <= b@.len(),
            r@ == byte_text(b@.subrange(from as int, k as int)),
        decreases to - k,
    {
        push_byte(&mut r, b[k]);
        assert(b@.subrange(from as int, k + 1) =~= b@.subrange(from as int, k as int).push(b@[k as int]));
        k = k + 1;
    }
    r
}

/// The scanner's state: the source bytes and a cursor into them.
pub struct Lexer {
    input: Vec<u8>,
    position: usize,
}

impl Lexer {
    pub closed spec fn source(&self) -> Seq<u8> {
        self.input@
    }

    /// The position of the byte under the cursor.
    pub closed spec fn pos(&self) -> int {
        self.position as int
    }

    pub closed spec fn wf(&self) -> bool {
        self.position <= self.input@.len()
    }

    pub proof fn lemma_wf_bounds(&self)
        requires
            self.wf(),
        ensures
            0 <= self.pos() <= self.source().len(),
    {
    }

    pub fn new(input: String) -> (r: Lexer)
        ensures
            r.wf(),
            r.source() == vstd::utf8::encode_utf8(input@),
            r.pos() == 0,
    {
        Lexer { input: input.as_str().as_bytes_vec(), position: 0 }
    }

    /// The byte under the cursor, or the zero sentinel at the end.
    fn current(&self) -> (r: u8)
        requires
            self.wf(),
        ensures
            r == byte_at(self.input@, self.pos()),
    {
        if self.position < self.input.len() {
            self.input[self.position]
        } else {
            0
        }
    }

    /// Moves the cursor one byte on, never past the end of input.
    fn read_char(&mut self)
        requires
            old(self).wf(),
        ensures
            final(self).wf(),
            final(self).input == old(self).input,
            final(self).pos() == if old(self).pos() < old(self).input@.len() {
                old(self).pos() + 1
            } else {
                old(self).pos()
            },
    {
        if self.position < self.input.len() {
            self.position = self.position + 1;
        }
    }

    fn skip_whitespace(&mut self)
        requires
            old(self).wf(),
        ensures
            final(self).wf(),
            final(self).input == old(self).input,
            final(self).pos() == skip_ws(old(self).input@, old(self).pos()),
    {
        while self.position < self.input.len() && is_space(self.input[self.position])
            invariant
                self.wf(),
                self.input == old(self).input,
                skip_ws(self.input@, self.pos()) == skip_ws(old(self).input@, old(self).pos()),
            decreases self.input@.len() - self.position,
        {
            self.read_char();
        }
    }

    fn read_identifier(&mut self) -> (r: String)
        requires
            old(self).wf(),
        ensures
            final(self).wf(),
            final(self).input == old(self).input,
            final(self).pos() == letters_end(old(self).input@, old(self).pos()),
            r@ == byte_text(old(self).input@.subrange(old(self).pos(), final(self).pos())),
    {
        let start = self.position;
        while self.position < self.input.len() && is_letter(self.input[self.position])
            invariant
                self.wf(),
                self.input == old(self).input,
                start <= self.position,
                letters_end(self.input@, self.pos()) == letters_end(old(self).input@, start as int),
            decreases self.input@.len() - self.position,
        {
            self.read_char();
        }
        text_of(&self.input, start, self.position)
    }

    fn read_number(&mut self) -> (r: String)
        requires
            old(self).wf(),
        ensures
            final(self).wf(),
            final(self).input == old(self).input,
            final(self).pos() == digits_end(old(self).input@, old(self).pos()),
            r@ == byte_text(old(self).input@.subrange(old(self).pos(), final(self).pos())),
    {
        let start = self.position;
        while self.position < self.input.len() && is_digit(self.input[self.position])
            invariant
                self.wf(),
                self.input == old(self).input,
                start <= self.position,
                digits_end(self.input@, self.pos()) == digits_end(old(self).input@, start as int),
            decreases self.input@.len() - self.position,
        {
            self.read_char();
        }
        text_of(&self.input, start, self.position)
    }

    /// Scans the next token. Past the end of input it keeps returning `EOF`.
    pub fn next_token(&mut self) -> (r: Token)
        requires
            old(self).wf(),
        ensures
            final(self).wf(),
            final(self).source() == old(self).source(),
            (r@, final(self).pos()) == lex_next(old(self).source(), old(self).pos()),
    {
        self.skip_whitespace();
        let p = self.position;
        if p >= self.input.len() {
            return Token::new(TokenType::EOF, String::new());
        }
        let c = self.current();
        if c == 61 || c == 33 {
            let two = p + 1 < self.input.len() && self.input[p + 1] == 61;
            let mut lit = String::new();
            push_byte(&mut lit, c);
            self.read_char();
            if two {
                push_byte(&mut lit, 61);
                self.read_char();
            }
            let kind = if c == 61 {
                if two { TokenType::EQ } else { TokenType::ASSIGN }
            } else {
                if two { TokenType::NOT_EQ } else { TokenType::BANG }
            };
            assert(lit@ =~= seq![c as char] || lit@ =~= seq![c as char, '=']);
            return Token::new(kind, lit);
        }
        if let Some(kind) = single_kind_of(c) {
            let lit = u8to_String(c);
            self.read_char();
            return Token::new(kind, lit);
        }
        if is_letter(c) {
            let lit = self.read_identifier();
            let kind = TokenType::lookup_ident(lit.as_str());
            return Token::new(kind, lit);
        }
        if is_digit(c) {
            let lit = self.read_number();
            return Token::new(TokenType::INT, lit);
        }
        let lit = u8to_String(c);
        self.read_char();
        Token::new(TokenType::ILLEGAL, lit)
    }
}

fn single_kind_of(c: u8) -> (r: Option<TokenType>)
    ensures
        r == single_kind(c),
{
    if c == 43 {
        Some(TokenType::PLUS)
    } else if c == 45 {
        Some(TokenType::MINUS)
    } else if c == 42 {
        Some(TokenType::ASTERISK)
    } else if c == 47 {
        Some(TokenType::SLASH)
    } else if c == 60 {
        Some(TokenType::LT)
    } else if c == 62 {
        Some(TokenType::GT)
    } else if c == 44 {
        Some(TokenType::COMMA)
    } else if c == 59 {
        Some(TokenType::SEMICOLON)
    } else if c == 40 {
        Some(TokenType::LPAREN)
    } else if c == 41 {
        Some(TokenType::RPAREN)
    } else if c == 123 {
        Some(TokenType::LBRACE)
    } else if c == 125 {
        Some(TokenType::RBRACE)
    } else {
        None
    }
}

pub fn is_letter(c: u8) -> (r: bool)
    ensures
        r == spec_is_letter(c),
{
    (97 <= c && c <= 122) || (65 <= c && c <= 90) || c == 95
}

pub fn is_digit(c: u8) -> (r: bool)
    ensures
        r == spec_is_digit(c),
{
    48 <= c && c <= 57
}

fn is_space(c: u8) -> (r: bool)
    ensures
        r == spec_is_space(c),
{
    c == 32 || c == 9 || c == 10 || c == 13
}

/// The one-character text of a byte.
#[allow(non_snake_case)]
pub fn u8to_String(c: u8) -> (r: String)
    ensures
        r@ == seq![c as char],
{
    let mut r = String::new();
    push_byte(&mut r, c);
    assert(r@ =~= seq![c as char]);
    r
}

} // verus!
