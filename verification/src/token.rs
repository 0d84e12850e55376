use vstd::prelude::*;
use crate::object::{Object, ObjectModel};

verus! {

/// The kinds of Lox tokens.
#[derive(Clone, Copy, PartialEq, Eq, Debug, Structural)]
pub enum TokenType {
    // Single-character tokens.
    LeftParen,
    RightParen,
    LeftBrace,
    RightBrace,
    Comma,
    Dot,
    Minus,
    Plus,
    Semicolon,
    Slash,
    Star,
    // One or two character tokens.
    Bang,
    BangEqual,
    Equal,
    EqualEqual,
    Greater,
    GreaterEqual,
    Less,
    LessEqual,
    // Literals.
    Identifier,
    String,
    Number,
    // Keywords.
    And,
    Class,
    Else,
    False,
    Fun,
    For,
    If,
    Nil,
    Or,
    Print,
    Return,
    Super,
    This,
    True,
    Var,
    While,
    EOF,
}

/// The keyword that a word spells, if it spells one.
pub open spec fn spec_keyword_token(s: Seq<char>) -> Option<TokenType> {
    if s == "and"@ {
        Some(TokenType::And)
    } else if s == "class"@ {
        Some(TokenType::Class)
    } else if s == "else"@ {
        Some(TokenType::Else)
    } else if s == "false"@ {
        Some(TokenType::False)
    } else if s == "fun"@ {
        Some(TokenType::Fun)
    } else if s == "for"@ {
        Some(TokenType::For)
    } else if s == "if"@ {
        Some(TokenType::If)
    } else if s == "nil"@ {
        Some(TokenType::Nil)
    } else if s == "or"@ {
        Some(TokenType::Or)
    } else if s == "print"@ {
        Some(TokenType::Print)
    } else if s == "return"@ {
        Some(TokenType::Return)
    } else if s == "super"@ {
        Some(TokenType::Super)
    } else if s == "this"@ {
        Some(TokenType::This)
    } else if s == "true"@ {
        Some(TokenType::True)
    } else if s == "var"@ {
        Some(TokenType::Var)
    } else if s == "while"@ {
        Some(TokenType::While)
    } else {
        None
    }
}

/// Whether two strings hold the same characters.
pub fn str_equal(a: &str, b: &str) -> (r: bool)
    ensures
        r == (a@ == b@),
{
    let n = a.unicode_len();
    if n != b.unicode_len() {
        return false;
    }
    let mut i: usize = 0;
    while i < n
        invariant
            n == a@.len(),
            n == b@.len(),
            i <= n,
            forall|j: int| 0 <= j < i ==> a@[j] == b@[j],
        decreases n - i,
    {
        if a.get_char(i) != b.get_char(i) {
            return false;
        }
        i = i + 1;
    }
    assert(a@ =~= b@);
    true
}

/// The keyword token type that `s` spells, or `None` for any other word.
pub fn keyword_token(s: &str) -> (r: Option<TokenType>)
    ensures
        r == spec_keyword_token(s@),
{
    if str_equal(s, "and") {
        Some(TokenType::And)
    } else if str_equal(s, "class") {
        Some(TokenType::Class)
    } else if str_equal(s, "else") {
        Some(TokenType::Else)
    } else if str_equal(s, "false") {
        Some(TokenType::False)
    } else if str_equal(s, "fun") {
        Some(TokenType::Fun)
    } else if str_equal(s, "for") {
        Some(TokenType::For)
    } else if str_equal(s, "if") {
        Some(TokenType::If)
    } else if str_equal(s, "nil") {
        Some(TokenType::Nil)
    } else if str_equal(s, "or") {
        Some(TokenType::Or)
    } else if str_equal(s, "print") {
        Some(TokenType::Print)
    } else if str_equal(s, "return") {
        Some(TokenType::Return)
    } else if str_equal(s, "super") {
        Some(TokenType::Super)
    } else if str_equal(s, "this") {
        Some(TokenType::This)
    } else if str_equal(s, "true") {
        Some(TokenType::True)
    } else if str_equal(s, "var") {
        Some(TokenType::Var)
    } else if str_equal(s, "while") {
        Some(TokenType::While)
    } else {
        None
    }
}

/// The text of a token whose text its type determines; empty for identifiers,
/// strings, numbers and the end marker.
pub open spec fn spec_fixed_lexeme(t: TokenType) -> Seq<char> {
    match t {
        TokenType::LeftParen => "("@,
        TokenType::RightParen => ")"@,
        TokenType::LeftBrace => "{"@,
        TokenType::RightBrace => "}"@,
        TokenType::Comma => ","@,
        TokenType::Dot => "."@,
        TokenType::Minus => "-"@,
        TokenType::Plus => "+"@,
        TokenType::Semicolon => ";"@,
        TokenType::Slash => "/"@,
        TokenType::Star => "*"@,
        TokenType::Bang => "!"@,
        TokenType::BangEqual => "!="@,
        TokenType::Equal => "="@,
        TokenType::EqualEqual => "=="@,
        TokenType::Greater => ">"@,
        TokenType::GreaterEqual => ">="@,
        TokenType::Less => "<"@,
        TokenType::LessEqual => "<="@,
        TokenType::And => "and"@,
        TokenType::Class => "class"@,
        TokenType::Else => "else"@,
        TokenType::False => "false"@,
        TokenType::Fun => "fun"@,
        TokenType::For => "for"@,
        TokenType::If => "if"@,
        TokenType::Nil => "nil"@,
        TokenType::Or => "or"@,
        TokenType::Print => "print"@,
        TokenType::Return => "return"@,
        TokenType::Super => "super"@,
        TokenType::This => "this"@,
        TokenType::True => "true"@,
        TokenType::Var => "var"@,
        TokenType::While => "while"@,
        TokenType::EOF => ""@,
        TokenType::Identifier | TokenType::String | TokenType::Number => ""@,
    }
}

/// Whether the token type has a text of its own (every type but identifiers,
/// strings, numbers and the end marker).
pub open spec fn has_fixed_text(t: TokenType) -> bool {
    !(t == TokenType::Identifier || t == TokenType::String || t == TokenType::Number || t == TokenType::EOF)
}

/// The length, first and second character of a fixed text; together they
/// tell the fixed texts apart.
pub open spec fn fixed_key(t: TokenType) -> (nat, char, char) {
    match t {
        TokenType::LeftParen => (1, '(', ' '),
        TokenType::RightParen => (1, ')', ' '),
        TokenType::LeftBrace => (1, '{', ' '),
        TokenType::RightBrace => (1, '}', ' '),
        TokenType::Comma => (1, ',', ' '),
        TokenType::Dot => (1, '.', ' '),
        TokenType::Minus => (1, '-', ' '),
        TokenType::Plus => (1, '+', ' '),
        TokenType::Semicolon => (1, ';', ' '),
        TokenType::Slash => (1, '/', ' '),
        TokenType::Star => (1, '*', ' '),
        TokenType::Bang => (1, '!', ' '),
        TokenType::BangEqual => (2, '!', '='),
        TokenType::Equal => (1, '=', ' '),
        TokenType::EqualEqual => (2, '=', '='),
        TokenType::Greater => (1, '>', ' '),
        TokenType::GreaterEqual => (2, '>', '='),
        TokenType::Less => (1, '<', ' '),
        TokenType::LessEqual => (2, '<', '='),
        TokenType::And => (3, 'a', 'n'),
        TokenType::Class => (5, 'c', 'l'),
        TokenType::Else => (4, 'e', 'l'),
        TokenType::False => (5, 'f', 'a'),
        TokenType::Fun => (3, 'f', 'u'),
        TokenType::For => (3, 'f', 'o'),
        TokenType::If => (2, 'i', 'f'),
        TokenType::Nil => (3, 'n', 'i'),
        TokenType::Or => (2, 'o', 'r'),
        TokenType::Print => (5, 'p', 'r'),
        TokenType::Return => (6, 'r', 'e'),
        TokenType::Super => (5, 's', 'u'),
        TokenType::This => (4, 't', 'h'),
        TokenType::True => (4, 't', 'r'),
        TokenType::Var => (3, 'v', 'a'),
        TokenType::While => (5, 'w', 'h'),
        _ => (0, ' ', ' '),
    }
}

pub proof fn lemma_fixed_key(t: TokenType)
    requires
        has_fixed_text(t),
    ensures
        spec_fixed_lexeme(t).len() == fixed_key(t).0,
        spec_fixed_lexeme(t)[0] == fixed_key(t).1,
        spec_fixed_lexeme(t).len() > 1 ==> spec_fixed_lexeme(t)[1] == fixed_key(t).2,
{
    match t {
        TokenType::LeftParen => reveal_strlit("("),
        TokenType::RightParen => reveal_strlit(")"),
        TokenType::LeftBrace => reveal_strlit("{"),
        TokenType::RightBrace => reveal_strlit("}"),
        TokenType::Comma => reveal_strlit(","),
        TokenType::Dot => reveal_strlit("."),
        TokenType::Minus => reveal_strlit("-"),
        TokenType::Plus => reveal_strlit("+"),
        TokenType::Semicolon => reveal_strlit(";"),
        TokenType::Slash => reveal_strlit("/"),
        TokenType::Star => reveal_strlit("*"),
        TokenType::Bang => reveal_strlit("!"),
        TokenType::BangEqual => reveal_strlit("!="),
        TokenType::Equal => reveal_strlit("="),
        TokenType::EqualEqual => reveal_strlit("=="),
        TokenType::Greater => reveal_strlit(">"),
        TokenType::GreaterEqual => reveal_strlit(">="),
        TokenType::Less => reveal_strlit("<"),
        TokenType::LessEqual => reveal_strlit("<="),
        TokenType::And => reveal_strlit("and"),
        TokenType::Class => reveal_strlit("class"),
        TokenType::Else => reveal_strlit("else"),
        TokenType::False => reveal_strlit("false"),
        TokenType::Fun => reveal_strlit("fun"),
        TokenType::For => reveal_strlit("for"),
        TokenType::If => reveal_strlit("if"),
        TokenType::Nil => reveal_strlit("nil"),
        TokenType::Or => reveal_strlit("or"),
        TokenType::Print => reveal_strlit("print"),
        TokenType::Return => reveal_strlit("return"),
        TokenType::Super => reveal_strlit("super"),
        TokenType::This => reveal_strlit("this"),
        TokenType::True => reveal_strlit("true"),
        TokenType::Var => reveal_strlit("var"),
        TokenType::While => reveal_strlit("while"),
        _ => {},
    }
}

/// Every token type with a text of its own has a non-empty text, and no two
/// such types share one: a fixed text names its token type.
pub proof fn law_fixed_lexemes_distinct(t1: TokenType, t2: TokenType)
    requires
        has_fixed_text(t1),
        has_fixed_text(t2),
        t1 != t2,
    ensures
        spec_fixed_lexeme(t1).len() > 0,
        spec_fixed_lexeme(t1) != spec_fixed_lexeme(t2),
{
    lemma_fixed_key(t1);
    lemma_fixed_key(t2);
    if spec_fixed_lexeme(t1) == spec_fixed_lexeme(t2) {
        assert(fixed_key(t1).0 == fixed_key(t2).0);
        assert(fixed_key(t1).1 == fixed_key(t2).1);
        if fixed_key(t1).0 > 1 {
            assert(fixed_key(t1).2 == fixed_key(t2).2);
        }
    }
}

/// A keyword's text is the fixed text of the type it names.
pub proof fn lemma_keyword_is_fixed(s: Seq<char>)
    ensures
        spec_keyword_token(s) matches Some(k) ==> has_fixed_text(k) && spec_fixed_lexeme(k) == s,
{
}

/// The fixed text of a type that begins with a letter is a keyword naming
/// that type.
pub proof fn lemma_keyword_of_fixed(t: TokenType)
    requires
        has_fixed_text(t),
        ({
            let c = spec_fixed_lexeme(t)[0];
            ('a' <= c && c <= 'z') || ('A' <= c && c <= 'Z') || c == '_'
        }),
    ensures
        spec_keyword_token(spec_fixed_lexeme(t)) == Some(t),
{
    lemma_fixed_key(t);
    let ks = seq![
        TokenType::And, TokenType::Class, TokenType::Else, TokenType::False, TokenType::Fun, TokenType::For,
        TokenType::If, TokenType::Nil, TokenType::Or, TokenType::Print, TokenType::Return, TokenType::Super,
        TokenType::This, TokenType::True, TokenType::Var, TokenType::While,
    ];
    assert forall|i: int| 0 <= i < ks.len() && ks[i] != t implies spec_fixed_lexeme(#[trigger] ks[i])
        != spec_fixed_lexeme(t) by {
        law_fixed_lexemes_distinct(ks[i], t);
    }
    assert(spec_fixed_lexeme(ks[0]) == "and"@);
    assert(ks[1] == TokenType::Class);
    assert(ks[2] == TokenType::Else);
    assert(ks[3] == TokenType::False);
    assert(ks[4] == TokenType::Fun);
    assert(ks[5] == TokenType::For);
    assert(ks[6] == TokenType::If);
    assert(ks[7] == TokenType::Nil);
    assert(ks[8] == TokenType::Or);
    assert(ks[9] == TokenType::Print);
    assert(ks[10] == TokenType::Return);
    assert(ks[11] == TokenType::Super);
    assert(ks[12] == TokenType::This);
    assert(ks[13] == TokenType::True);
    assert(ks[14] == TokenType::Var);
    assert(ks[15] == TokenType::While);
}

pub fn fixed_lexeme(t: TokenType) -> (s: &'static str)
    ensures
        s@ == spec_fixed_lexeme(t),
{
    match t {
        TokenType::LeftParen => "(",
        TokenType::RightParen => ")",
        TokenType::LeftBrace => "{",
        TokenType::RightBrace => "}",
        TokenType::Comma => ",",
        TokenType::Dot => ".",
        TokenType::Minus => "-",
        TokenType::Plus => "+",
        TokenType::Semicolon => ";",
        TokenType::Slash => "/",
        TokenType::Star => "*",
        TokenType::Bang => "!",
        TokenType::BangEqual => "!=",
        TokenType::Equal => "=",
        TokenType::EqualEqual => "==",
        TokenType::Greater => ">",
        TokenType::GreaterEqual => ">=",
        TokenType::Less => "<",
        TokenType::LessEqual => "<=",
        TokenType::And => "and",
        TokenType::Class => "class",
        TokenType::Else => "else",
        TokenType::False => "false",
        TokenType::Fun => "fun",
        TokenType::For => "for",
        TokenType::If => "if",
        TokenType::Nil => "nil",
        TokenType::Or => "or",
        TokenType::Print => "print",
        TokenType::Return => "return",
        TokenType::Super => "super",
        TokenType::This => "this",
        TokenType::True => "true",
        TokenType::Var => "var",
        TokenType::While => "while",
        TokenType::EOF => "",
        TokenType::Identifier | TokenType::String | TokenType::Number => "",
    }
}

/// A literal value as the scanner produces it. A number is held as its numeral.
pub enum Literal {
    String(String),
    Number(String),
    Boolean(bool),
    Nil,
}

impl Literal {
    pub open spec fn spec_type_name(&self) -> Seq<char> {
        match self {
            Literal::String(_) => "string"@,
            Literal::Number(_) => "number"@,
            Literal::Boolean(_) => "boolean"@,
            Literal::Nil => "nil"@,
        }
    }

    pub fn get_type(&self) -> (name: &'static str)
        ensures
            name@ == self.spec_type_name(),
    {
        match self {
            Literal::String(_) => "string",
            Literal::Number(_) => "number",
            Literal::Boolean(_) => "boolean",
            Literal::Nil => "nil",
        }
    }
}

impl Default for Literal {
    fn default() -> (r: Self)
        ensures
            r == Literal::Nil,
    {
        Literal::Nil
    }
}

/// A token: its type, the source text of an identifier, string or number
/// (other tokens take their text from their type), its literal value, and the
/// line it ends on.
pub struct Token {
    pub token_type: TokenType,
    pub lexeme: Option<String>,
    pub literal: Option<Object>,
    pub line: usize,
}

/// The mathematical value of a [`Token`].
pub struct TokenModel {
    pub token_type: TokenType,
    pub lexeme: Option<Seq<char>>,
    pub literal: Option<ObjectModel>,
    pub line: nat,
}

impl TokenModel {
    /// The token's text.
    pub open spec fn text(self) -> Seq<char> {
        match self.lexeme {
            Some(s) => s,
            None => spec_fixed_lexeme(self.token_type),
        }
    }
}

impl View for Token {
    type V = TokenModel;

    open spec fn view(&self) -> TokenModel {
        TokenModel {
            token_type: self.token_type,
            lexeme: match self.lexeme {
                Some(s) => Some(s@),
                None => None,
            },
            literal: match self.literal {
                Some(o) => Some(o@),
                None => None,
            },
            line: self.line as nat,
        }
    }
}

/// The views of a list of tokens.
pub open spec fn tokens_view(ts: Seq<Token>) -> Seq<TokenModel> {
    ts.map_values(|t: Token| t@)
}

impl Token {
    /// The token's text.
    pub open spec fn spec_lexeme(&self) -> Seq<char> {
        match self.lexeme {
            Some(s) => s@,
            None => spec_fixed_lexeme(self.token_type),
        }
    }

    pub fn new(token_type: TokenType, lexeme: Option<&str>, literal: Option<Object>, line: usize) -> (t: Self)
        ensures
            t.token_type == token_type,
            t.lexeme is Some <==> lexeme is Some,
            lexeme is Some ==> t.lexeme->0@ == lexeme->0@,
            t.literal == literal,
            t.line == line,
    {
        let lexeme = match lexeme {
            Some(s) => Some(String::from_str(s)),
            None => None,
        };
        Token { token_type, lexeme, literal, line }
    }

    /// A token whose text its type determines, such as an operator.
    pub fn operator(token_type: TokenType, line: usize) -> (t: Self)
        ensures
            t.token_type == token_type,
            t.lexeme is None,
            t.literal is None,
            t.line == line,
    {
        Token { token_type, lexeme: None, literal: None, line }
    }

    pub fn lexeme(&self) -> (s: &str)
        ensures
            s@ == self.spec_lexeme(),
    {
        match &self.lexeme {
            Some(s) => s.as_str(),
            None => fixed_lexeme(self.token_type),
        }
    }
}

impl Clone for Token {
    fn clone(&self) -> (r: Self)
        ensures
            r == *self,
    {
        let lexeme = match &self.lexeme {
            Some(s) => Some(s.clone()),
            None => None,
        };
        let literal = match &self.literal {
            Some(o) => Some(o.clone()),
            None => None,
        };
        Token { token_type: self.token_type, lexeme, literal, line: self.line }
    }
}

} // verus!
