use vstd::prelude::*;

verus! {

/// The kinds of tokens of the Lox language.
#[derive(Debug, Clone, Copy, PartialEq, Eq, Structural)]
pub enum TokenType {
    LeftParen,
    RightParen,
    LeftBrace,
    RightBrace,
    Star,
    Slash,
    Semicolon,
    Plus,
    Minus,
    Dot,
    Comma,
    Equal,
    EqualEqual,
    BangEqual,
    Bang,
    LessThan,
    GreaterThan,
    LessEqual,
    GreaterEqual,
    String,
    Number,
    Identifier,
    And,
    Class,
    Else,
    False,
    For,
    Fun,
    If,
    Nil,
    Or,
    Print,
    Return,
    Super,
    This,
    True,
    Var,
    While,
    Eof,
}

/// A token: its kind, the text it was read from, and the line it ends on.
#[derive(Debug)]
pub struct Token {
    /// The kind of the token.
    pub token: TokenType,
    /// The text of the token.
    pub lexeme: String,
    /// The line the token was found on.
    pub line: u32,
}

/// The kind of a word: a reserved word's own kind, else `Identifier`.
pub open spec fn keyword_kind(word: Seq<char>) -> TokenType {
    if word == seq!['a', 'n', 'd'] {
        TokenType::And
    } else if word == seq!['c', 'l', 'a', 's', 's'] {
        TokenType::Class
    } else if word == seq!['e', 'l', 's', 'e'] {
        TokenType::Else
    } else if word == seq!['f', 'a', 'l', 's', 'e'] {
        TokenType::False
    } else if word == seq!['f', 'o', 'r'] {
        TokenType::For
    } else if word == seq!['f', 'u', 'n'] {
        TokenType::Fun
    } else if word == seq!['i', 'f'] {
        TokenType::If
    } else if word == seq!['n', 'i', 'l'] {
        TokenType::Nil
    } else if word == seq!['o', 'r'] {
        TokenType::Or
    } else if word == seq!['p', 'r', 'i', 'n', 't'] {
        TokenType::Print
    } else if word == seq!['r', 'e', 't', 'u', 'r', 'n'] {
        TokenType::Return
    } else if word == seq!['s', 'u', 'p', 'e', 'r'] {
        TokenType::Super
    } else if word == seq!['t', 'h', 'i', 's'] {
        TokenType::This
    } else if word == seq!['t', 'r', 'u', 'e'] {
        TokenType::True
    } else if word == seq!['v', 'a', 'r'] {
        TokenType::Var
    } else if word == seq!['w', 'h', 'i', 'l', 'e'] {
        TokenType::While
    } else {
        TokenType::Identifier
    }
}

/// What a Lox binary operator computes of its left operand `a` and right
/// operand `b`, taken as numbers (a truth as 1 or 0; a quotient by zero as
/// 0); `None` for a token that is no such operator. (`and` and `or` are
/// not: they are compiled to jumps.)
pub open spec fn operator_meaning(k: TokenType, a: int, b: int) -> Option<int> {
    if k == TokenType::Plus {
        Some(a + b)
    } else if k == TokenType::Minus {
        Some(a - b)
    } else if k == TokenType::Star {
        Some(a * b)
    } else if k == TokenType::Slash {
        Some(if b == 0 { 0 } else { a / b })
    } else if k == TokenType::EqualEqual {
        Some(if a == b { 1 } else { 0 })
    } else if k == TokenType::BangEqual {
        Some(if a == b { 0 } else { 1 })
    } else if k == TokenType::LessThan {
        Some(if a < b { 1 } else { 0 })
    } else if k == TokenType::LessEqual {
        Some(if b < a { 0 } else { 1 })
    } else if k == TokenType::GreaterThan {
        Some(if b < a { 1 } else { 0 })
    } else if k == TokenType::GreaterEqual {
        Some(if a < b { 0 } else { 1 })
    } else {
        None
    }
}

/// No word is the `Eof` token.
pub(crate) proof fn lemma_keyword_not_eof(word: Seq<char>)
    ensures
        keyword_kind(word) != TokenType::Eof,
{
}

/// Whether `a` holds the characters of `b`.
fn same_chars(a: &Vec<char>, b: &[char]) -> (r: bool)
    ensures
        r == (a@ == b@),
{
    if a.len() != b.len() {
        return false;
    }
    let mut i: usize = 0;
    while i < a.len()
        invariant
            a.len() == b@.len(),
            i <= a.len(),
            forall|j: int| 0 <= j < i ==> a@[j] == b@[j],
        decreases a.len() - i,
    {
        if a[i] != b[i] {
            return false;
        }
        i = i + 1;
    }
    assert(a@ =~= b@);
    true
}

/// The kind of a word read as an identifier: a reserved word's kind, else
/// `Identifier`.
pub fn keyword_type(word: &Vec<char>) -> (t: TokenType)
    ensures
        t == keyword_kind(word@),
{
    let w: [char; 3] = ['a', 'n', 'd'];
    if same_chars(word, &w) {
        assert(w@ =~= seq!['a', 'n', 'd']);
        return TokenType::And;
    }
    assert(w@ =~= seq!['a', 'n', 'd']);
    let w: [char; 5] = ['c', 'l', 'a', 's', 's'];
    if same_chars(word, &w) {
        assert(w@ =~= seq!['c', 'l', 'a', 's', 's']);
        return TokenType::Class;
    }
    assert(w@ =~= seq!['c', 'l', 'a', 's', 's']);
    let w: [char; 4] = ['e', 'l', 's', 'e'];
    if same_chars(word, &w) {
        assert(w@ =~= seq!['e', 'l', 's', 'e']);
        return TokenType::Else;
    }
    assert(w@ =~= seq!['e', 'l', 's', 'e']);
    let w: [char; 5] = ['f', 'a', 'l', 's', 'e'];
    if same_chars(word, &w) {
        assert(w@ =~= seq!['f', 'a', 'l', 's', 'e']);
        return TokenType::False;
    }
    assert(w@ =~= seq!['f', 'a', 'l', 's', 'e']);
    let w: [char; 3] = ['f', 'o', 'r'];
    if same_chars(word, &w) {
        assert(w@ =~= seq!['f', 'o', 'r']);
        return TokenType::For;
    }
    assert(w@ =~= seq!['f', 'o', 'r']);
    let w: [char; 3] = ['f', 'u', 'n'];
    if same_chars(word, &w) {
        assert(w@ =~= seq!['f', 'u', 'n']);
        return TokenType::Fun;
    }
    assert(w@ =~= seq!['f', 'u', 'n']);
    let w: [char; 2] = ['i', 'f'];
    if same_chars(word, &w) {
        assert(w@ =~= seq!['i', 'f']);
        return TokenType::If;
    }
    assert(w@ =~= seq!['i', 'f']);
    let w: [char; 3] = ['n', 'i', 'l'];
    if same_chars(word, &w) {
        assert(w@ =~= seq!['n', 'i', 'l']);
        return TokenType::Nil;
    }
    assert(w@ =~= seq!['n', 'i', 'l']);
    let w: [char; 2] = ['o', 'r'];
    if same_chars(word, &w) {
        assert(w@ =~= seq!['o', 'r']);
        return TokenType::Or;
    }
    assert(w@ =~= seq!['o', 'r']);
    let w: [char; 5] = ['p', 'r', 'i', 'n', 't'];
    if same_chars(word, &w) {
        assert(w@ =~= seq!['p', 'r', 'i', 'n', 't']);
        return TokenType::Print;
    }
    assert(w@ =~= seq!['p', 'r', 'i', 'n', 't']);
    let w: [char; 6] = ['r', 'e', 't', 'u', 'r', 'n'];
    if same_chars(word, &w) {
        assert(w@ =~= seq!['r', 'e', 't', 'u', 'r', 'n']);
        return TokenType::Return;
    }
    assert(w@ =~= seq!['r', 'e', 't', 'u', 'r', 'n']);
    let w: [char; 5] = ['s', 'u', 'p', 'e', 'r'];
    if same_chars(word, &w) {
        assert(w@ =~= seq!['s', 'u', 'p', 'e', 'r']);
        return TokenType::Super;
    }
    assert(w@ =~= seq!['s', 'u', 'p', 'e', 'r']);
    let w: [char; 4] = ['t', 'h', 'i', 's'];
    if same_chars(word, &w) {
        assert(w@ =~= seq!['t', 'h', 'i', 's']);
        return TokenType::This;
    }
    assert(w@ =~= seq!['t', 'h', 'i', 's']);
    let w: [char; 4] = ['t', 'r', 'u', 'e'];
    if same_chars(word, &w) {
        assert(w@ =~= seq!['t', 'r', 'u', 'e']);
        return TokenType::True;
    }
    assert(w@ =~= seq!['t', 'r', 'u', 'e']);
    let w: [char; 3] = ['v', 'a', 'r'];
    if same_chars(word, &w) {
        assert(w@ =~= seq!['v', 'a', 'r']);
        return TokenType::Var;
    }
    assert(w@ =~= seq!['v', 'a', 'r']);
    let w: [char; 5] = ['w', 'h', 'i', 'l', 'e'];
    if same_chars(word, &w) {
        assert(w@ =~= seq!['w', 'h', 'i', 'l', 'e']);
        return TokenType::While;
    }
    assert(w@ =~= seq!['w', 'h', 'i', 'l', 'e']);
    TokenType::Identifier
}

} // verus!
