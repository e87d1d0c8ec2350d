//! Token kinds, tokens, and the keyword table.

use vstd::prelude::*;

verus! {

/// The closed set of token kinds.
#[allow(non_camel_case_types)]
#[derive(PartialEq, Eq, Debug, Clone, Copy, Structural)]
pub enum TokenType {
    ILLEGAL,
    EOF,
    IDENT,
    INT,
    ASSIGN,
    PLUS,
    MINUS,
    BANG,
    ASTERISK,
    SLASH,
    LT,
    GT,
    EQ,
    NOT_EQ,
    COMMA,
    SEMICOLON,
    LPAREN,
    RPAREN,
    LBRACE,
    RBRACE,
    FUNCTION,
    LET,
    TRUE,
    FALSE,
    IF,
    ELSE,
    RETURN,
}

/// The kind a word of letters takes: a keyword's own kind, else `IDENT`.
pub open spec fn keyword_kind(w: Seq<char>) -> TokenType {
    if w == seq!['f', 'n'] {
        TokenType::FUNCTION
    } else if w == seq!['l', 'e', 't'] {
        TokenType::LET
    } else if w == seq!['t', 'r', 'u', 'e'] {
        TokenType::TRUE
    } else if w == seq!['f', 'a', 'l', 's', 'e'] {
        TokenType::FALSE
    } else if w == seq!['i', 'f'] {
        TokenType::IF
    } else if w == seq!['e', 'l', 's', 'e'] {
        TokenType::ELSE
    } else if w == seq!['r', 'e', 't', 'u', 'r', 'n'] {
        TokenType::RETURN
    } else {
        TokenType::IDENT
    }
}

/// Whether `s` holds exactly the characters of `w`.
fn same_chars(s: &str, w: &str) -> (r: bool)
    ensures
        r == (s@ == w@),
{
    let n = s.unicode_len();
    if n != w.unicode_len() {
        return false;
    }
    let mut i: usize = 0;
    while i < n
        invariant
            n == s@.len() == w@.len(),
            i <= n,
            s@.subrange(0, i as int) == w@.subrange(0, i as int),
        decreases n - i,
    {
        if s.get_char(i) != w.get_char(i) {
            assert(s@[i as int] != w@[i as int]);
            return false;
        }
        assert(s@.subrange(0, i + 1) =~= s@.subrange(0, i as int).push(s@[i as int]));
        assert(w@.subrange(0, i + 1) =~= w@.subrange(0, i as int).push(w@[i as int]));
        i = i + 1;
    }
    assert(s@ =~= s@.subrange(0, n as int));
    assert(w@ =~= w@.subrange(0, n as int));
    true
}

impl TokenType {
    /// Classifies a word against the keyword table.
    pub fn lookup_ident(s: &str) -> (r: TokenType)
        ensures
            r == keyword_kind(s@),
    {
        proof {
            reveal_strlit("fn");
            reveal_strlit("let");
            reveal_strlit("true");
            reveal_strlit("false");
            reveal_strlit("if");
            reveal_strlit("else");
            reveal_strlit("return");
        }
        assert("fn"@ =~= seq!['f', 'n']);
        assert("let"@ =~= seq!['l', 'e', 't']);
        assert("true"@ =~= seq!['t', 'r', 'u', 'e']);
        assert("false"@ =~= seq!['f', 'a', 'l', 's', 'e']);
        assert("if"@ =~= seq!['i', 'f']);
        assert("else"@ =~= seq!['e', 'l', 's', 'e']);
        assert("return"@ =~= seq!['r', 'e', 't', 'u', 'r', 'n']);
        if same_chars(s, "fn") {
            TokenType::FUNCTION
        } else if same_chars(s, "let") {
            TokenType::LET
        } else if same_chars(s, "true") {
            TokenType::TRUE
        } else if same_chars(s, "false") {
            TokenType::FALSE
        } else if same_chars(s, "if") {
            TokenType::IF
        } else if same_chars(s, "else") {
            TokenType::ELSE
        } else if same_chars(s, "return") {
            TokenType::RETURN
        } else {
            TokenType::IDENT
        }
    }
}

/// What a token stands for: its kind and its literal text.
pub struct TokenModel {
    pub kind: TokenType,
    pub literal: Seq<char>,
}

/// A lexical unit: its kind and the source text it came from.
#[derive(Debug, Clone)]
pub struct Token {
    pub typ: TokenType,
    pub literal: String,
}

impl View for Token {
    type V = TokenModel;

    open spec fn view(&self) -> TokenModel {
        TokenModel { kind: self.typ, literal: self.literal@ }
    }
}

impl Token {
    pub fn new(typ: TokenType, literal: String) -> (r: Token)
        ensures
            r.typ == typ,
            r.literal@ == literal@,
    {
        Token { typ, literal }
    }

    /// A copy of this token.
    pub fn duplicate(&self) -> (r: Token)
        ensures
            r@ == self@,
    {
        Token { typ: self.typ, literal: self.literal.clone() }
    }
}

impl PartialEq for Token {
    fn eq(&self, other: &Token) -> (r: bool) {
        self.typ == other.typ && self.literal == other.literal
    }
}

impl vstd::std_specs::cmp::PartialEqSpecImpl for Token {
    open spec fn obeys_eq_spec() -> bool {
        true
    }

    open spec fn eq_spec(&self, other: &Token) -> bool {
        self@ == other@
    }
}

impl Eq for Token {
}

} // verus!
