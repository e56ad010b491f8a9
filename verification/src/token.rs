//! Tokens produced by the lexer, the literal values they carry, and the table
//! of reserved words.

use vstd::prelude::*;

verus! {

#[allow(non_camel_case_types)]
#[derive(Clone, Copy, PartialEq, Eq, Structural, Debug)]
pub enum TokenType {
    LEFT_PAREN,
    RIGHT_PAREN,
    LEFT_BRACKET,
    RIGHT_BRACKET,
    LEFT_BRACE,
    RIGHT_BRACE,
    COLON,
    DOT,
    DOTDOT,
    DOTDOTDOT,
    COMMA,
    STAR,
    SLASH,
    PERCENT,
    HASH,
    PLUS,
    MINUS,
    LTLT,
    GTGT,
    PIPE,
    PIPEPIPE,
    CARET,
    AMP,
    AMPAMP,
    BANG,
    TILDE,
    QUESTION,
    EQ,
    LT,
    GT,
    LTEQ,
    GTEQ,
    EQEQ,
    BANGEQ,
    BREAK,
    CONTINUE,
    CLASS,
    CONSTRUCT,
    ELSE,
    FALSE,
    FOR,
    FOREIGN,
    IF,
    IMPORT,
    AS,
    IN,
    IS,
    NULL,
    RETURN,
    STATIC,
    SUPER,
    THIS,
    TRUE,
    VAR,
    WHILE,
    FIELD,
    STATIC_FIELD,
    NAME,
    NUMBER,
    /// A string literal without any interpolation, or the last section of a
    /// string following the last interpolated expression.
    STRING,
    /// A portion of a string literal preceding an interpolated expression.
    /// This string:
    ///
    ///     "a %(b) c %(d) e"
    ///
    /// is tokenized to:
    ///
    ///     INTERPOLATION "a "
    ///     NAME          b
    ///     INTERPOLATION " c "
    ///     NAME          d
    ///     STRING        " e"
    INTERPOLATION,
    LINE,
    ERROR,
    EOF,
}

/// The literal value carried by a NUMBER, STRING or INTERPOLATION token, and
/// a constant-pool entry. Number literals keep their lexeme text; turning that
/// text into a runtime number object is the collaborating virtual machine's
/// concern, not the front end's.
#[derive(Clone, Debug)]
pub enum Value {
    Null,
    Boolean(bool),
    Num(Vec<char>),
    Str(Vec<char>),
}

/// Two values are the same constant exactly when they have the same shape and
/// the same characters. The constant pool deduplicates by this relation.
pub open spec fn value_matches(a: Value, b: Value) -> bool {
    match (a, b) {
        (Value::Null, Value::Null) => true,
        (Value::Boolean(x), Value::Boolean(y)) => x == y,
        (Value::Num(x), Value::Num(y)) => x@ == y@,
        (Value::Str(x), Value::Str(y)) => x@ == y@,
        _ => false,
    }
}

/// Whether `v` is a number value whose text is exactly `text`.
pub open spec fn value_is_num(v: Value, text: Seq<char>) -> bool {
    match v {
        Value::Num(t) => t@ == text,
        _ => false,
    }
}

/// Whether `v` is a string value whose characters are exactly `text`.
pub open spec fn value_is_str(v: Value, text: Seq<char>) -> bool {
    match v {
        Value::Str(t) => t@ == text,
        _ => false,
    }
}

/// Character-for-character equality of two character buffers.
pub fn chars_eq(a: &Vec<char>, b: &Vec<char>) -> (r: bool)
    ensures
        r == (a@ == b@),
{
    if a.len() != b.len() {
        proof {
            assert(a@.len() != b@.len());
        }
        return false;
    }
    let n = a.len();
    let mut i: usize = 0;
    while i < n
        invariant
            n == a@.len() == b@.len(),
            i <= n,
            forall|j: int| 0 <= j < i ==> a@[j] == b@[j],
        decreases n - i,
    {
        if a[i] != b[i] {
            return false;
        }
        i = i + 1;
    }
    proof {
        assert(a@ =~= b@);
    }
    true
}

/// Decides `value_matches` on two values.
pub fn value_eq(a: &Value, b: &Value) -> (r: bool)
    ensures
        r == value_matches(*a, *b),
{
    match (a, b) {
        (Value::Null, Value::Null) => true,
        (Value::Boolean(x), Value::Boolean(y)) => *x == *y,
        (Value::Num(x), Value::Num(y)) => chars_eq(x, y),
        (Value::Str(x), Value::Str(y)) => chars_eq(x, y),
        _ => false,
    }
}

/// One lexed token. The lexeme is identified by its start offset and length
/// in the source buffer; literal tokens also carry their parsed value as an
/// owned copy, so a token never depends on the source buffer's lifetime.
#[derive(Clone, Debug)]
pub struct Token {
    pub ty: TokenType,
    /// Offset of the start of the token in the source buffer.
    pub start: usize,
    /// The length of the token in characters.
    pub length: usize,
    /// The 1-based line where the token appears.
    pub line: usize,
    /// The parsed value if the token is a literal.
    pub value: Value,
}

/// Two tokens carry the same information: same kind, lexeme span, line and
/// literal value.
pub open spec fn token_like(a: Token, b: Token) -> bool {
    a.ty == b.ty && a.start == b.start && a.length == b.length && a.line == b.line
        && value_matches(a.value, b.value)
}

/// An owned copy of a character buffer.
pub fn chars_clone(v: &Vec<char>) -> (r: Vec<char>)
    ensures
        r@ == v@,
{
    let n = v.len();
    let mut r: Vec<char> = Vec::new();
    let mut i: usize = 0;
    while i < n
        invariant
            n == v@.len(),
            i <= n,
            r@ =~= v@.subrange(0, i as int),
        decreases n - i,
    {
        r.push(v[i]);
        proof {
            assert(r@ =~= v@.subrange(0, i as int + 1));
        }
        i = i + 1;
    }
    proof {
        assert(v@.subrange(0, n as int) =~= v@);
    }
    r
}

/// An owned copy of a literal value.
pub fn value_clone(v: &Value) -> (r: Value)
    ensures
        value_matches(r, *v),
{
    match v {
        Value::Null => Value::Null,
        Value::Boolean(b) => Value::Boolean(*b),
        Value::Num(t) => Value::Num(chars_clone(t)),
        Value::Str(t) => Value::Str(chars_clone(t)),
    }
}

/// An owned copy of a token.
pub fn token_clone(t: &Token) -> (r: Token)
    ensures
        token_like(r, *t),
{
    Token {
        ty: t.ty,
        start: t.start,
        length: t.length,
        line: t.line,
        value: value_clone(&t.value),
    }
}

/// One reserved word and the token type it lexes to.
pub struct Keyword {
    pub identifier: Vec<char>,
    pub token_type: TokenType,
}

impl Keyword {
    pub fn len(&self) -> (r: usize)
        ensures
            r == self.identifier@.len(),
    {
        self.identifier.len()
    }
}

/// The reserved words, in table order, each with its token type.
pub open spec fn keyword_entries() -> Seq<(Seq<char>, TokenType)> {
    seq![
        ("break"@, TokenType::BREAK),
        ("continue"@, TokenType::CONTINUE),
        ("class"@, TokenType::CLASS),
        ("construct"@, TokenType::CONSTRUCT),
        ("else"@, TokenType::ELSE),
        ("false"@, TokenType::FALSE),
        ("for"@, TokenType::FOR),
        ("foreign"@, TokenType::FOREIGN),
        ("if"@, TokenType::IF),
        ("import"@, TokenType::IMPORT),
        ("as"@, TokenType::AS),
        ("in"@, TokenType::IN),
        ("is"@, TokenType::IS),
        ("null"@, TokenType::NULL),
        ("return"@, TokenType::RETURN),
        ("static"@, TokenType::STATIC),
        ("super"@, TokenType::SUPER),
        ("this"@, TokenType::THIS),
        ("true"@, TokenType::TRUE),
        ("var"@, TokenType::VAR),
        ("while"@, TokenType::WHILE),
    ]
}

/// The token type an identifier lexes to: its keyword's type if it is a
/// reserved word, otherwise `default`.
pub open spec fn keyword_token_type(name: Seq<char>, default: TokenType) -> TokenType {
    if name == "break"@ {
        TokenType::BREAK
    } else if name == "continue"@ {
        TokenType::CONTINUE
    } else if name == "class"@ {
        TokenType::CLASS
    } else if name == "construct"@ {
        TokenType::CONSTRUCT
    } else if name == "else"@ {
        TokenType::ELSE
    } else if name == "false"@ {
        TokenType::FALSE
    } else if name == "for"@ {
        TokenType::FOR
    } else if name == "foreign"@ {
        TokenType::FOREIGN
    } else if name == "if"@ {
        TokenType::IF
    } else if name == "import"@ {
        TokenType::IMPORT
    } else if name == "as"@ {
        TokenType::AS
    } else if name == "in"@ {
        TokenType::IN
    } else if name == "is"@ {
        TokenType::IS
    } else if name == "null"@ {
        TokenType::NULL
    } else if name == "return"@ {
        TokenType::RETURN
    } else if name == "static"@ {
        TokenType::STATIC
    } else if name == "super"@ {
        TokenType::SUPER
    } else if name == "this"@ {
        TokenType::THIS
    } else if name == "true"@ {
        TokenType::TRUE
    } else if name == "var"@ {
        TokenType::VAR
    } else if name == "while"@ {
        TokenType::WHILE
    } else {
        default
    }
}

/// The reserved-word table and the keyword decision agree entry by entry: a
/// name that matches the table's entry `i` and none before it lexes to that
/// entry's type, and a name matching no entry lexes to the default.
pub proof fn lemma_keyword_entries_agree(name: Seq<char>, default: TokenType)
    ensures
        forall|i: int|
            0 <= i < keyword_entries().len() && (#[trigger] keyword_entries()[i]).0 == name && (
            forall|j: int| 0 <= j < i ==> (#[trigger] keyword_entries()[j]).0 != name)
                ==> keyword_token_type(name, default) == keyword_entries()[i].1,
        (forall|j: int|
            0 <= j < keyword_entries().len() ==> (#[trigger] keyword_entries()[j]).0 != name)
            ==> keyword_token_type(name, default) == default,
{
}

/// Copies the characters of a string slice into an owned buffer.
pub fn chars_of(s: &str) -> (r: Vec<char>)
    ensures
        r@ == s@,
{
    let n = s.unicode_len();
    let mut r: Vec<char> = Vec::new();
    let mut i: usize = 0;
    while i < n
        invariant
            n == s@.len(),
            i <= n,
            r@ =~= s@.subrange(0, i as int),
        decreases n - i,
    {
        r.push(s.get_char(i));
        proof {
            assert(r@ =~= s@.subrange(0, i as int + 1));
        }
        i = i + 1;
    }
    proof {
        assert(s@.subrange(0, n as int) =~= s@);
    }
    r
}

/// Builds the table of reserved words.
pub fn keywords() -> (r: Vec<Keyword>)
    ensures
        r@.len() == keyword_entries().len(),
        forall|i: int|
            0 <= i < r@.len() ==> (#[trigger] r@[i]).identifier@ == keyword_entries()[i].0
                && r@[i].token_type == keyword_entries()[i].1,
{
    let mut r: Vec<Keyword> = Vec::new();
    r.push(Keyword { identifier: chars_of("break"), token_type: TokenType::BREAK });
    r.push(Keyword { identifier: chars_of("continue"), token_type: TokenType::CONTINUE });
    r.push(Keyword { identifier: chars_of("class"), token_type: TokenType::CLASS });
    r.push(Keyword { identifier: chars_of("construct"), token_type: TokenType::CONSTRUCT });
    r.push(Keyword { identifier: chars_of("else"), token_type: TokenType::ELSE });
    r.push(Keyword { identifier: chars_of("false"), token_type: TokenType::FALSE });
    r.push(Keyword { identifier: chars_of("for"), token_type: TokenType::FOR });
    r.push(Keyword { identifier: chars_of("foreign"), token_type: TokenType::FOREIGN });
    r.push(Keyword { identifier: chars_of("if"), token_type: TokenType::IF });
    r.push(Keyword { identifier: chars_of("import"), token_type: TokenType::IMPORT });
    r.push(Keyword { identifier: chars_of("as"), token_type: TokenType::AS });
    r.push(Keyword { identifier: chars_of("in"), token_type: TokenType::IN });
    r.push(Keyword { identifier: chars_of("is"), token_type: TokenType::IS });
    r.push(Keyword { identifier: chars_of("null"), token_type: TokenType::NULL });
    r.push(Keyword { identifier: chars_of("return"), token_type: TokenType::RETURN });
    r.push(Keyword { identifier: chars_of("static"), token_type: TokenType::STATIC });
    r.push(Keyword { identifier: chars_of("super"), token_type: TokenType::SUPER });
    r.push(Keyword { identifier: chars_of("this"), token_type: TokenType::THIS });
    r.push(Keyword { identifier: chars_of("true"), token_type: TokenType::TRUE });
    r.push(Keyword { identifier: chars_of("var"), token_type: TokenType::VAR });
    r.push(Keyword { identifier: chars_of("while"), token_type: TokenType::WHILE });
    r
}

/// Looks an identifier up in the reserved-word table: the type of the first
/// matching entry, or `default` when the identifier is no reserved word.
pub fn keyword_type(table: &Vec<Keyword>, name: &Vec<char>, default: TokenType) -> (r: TokenType)
    requires
        table@.len() == keyword_entries().len(),
        forall|i: int|
            0 <= i < table@.len() ==> (#[trigger] table@[i]).identifier@ == keyword_entries()[i].0
                && table@[i].token_type == keyword_entries()[i].1,
    ensures
        r == keyword_token_type(name@, default),
{
    let n = table.len();
    let mut i: usize = 0;
    while i < n
        invariant
            n == table@.len() == keyword_entries().len(),
            i <= n,
            forall|j: int|
                0 <= j < n ==> (#[trigger] table@[j]).identifier@ == keyword_entries()[j].0
                    && table@[j].token_type == keyword_entries()[j].1,
            forall|j: int| 0 <= j < i ==> (#[trigger] keyword_entries()[j]).0 != name@,
        decreases n - i,
    {
        if chars_eq(&table[i].identifier, name) {
            proof {
                lemma_keyword_entries_agree(name@, default);
            }
            return table[i].token_type;
        }
        i = i + 1;
    }
    proof {
        lemma_keyword_entries_agree(name@, default);
    }
    default
}

} // verus!
