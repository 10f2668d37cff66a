//! Token and token-kind definitions.

use vstd::prelude::*;
use crate::span::Span;
use crate::text::str_eq;

verus! {

/// A float literal's value, carried as the bits of the IEEE-754 double it
/// denotes, together with the shortest text that prints that double.
///
/// Both are computed outside the library (see [`crate::lexer::finish_lex`]);
/// the library only moves them around and spells them.
#[derive(Clone, PartialEq, Eq, Debug)]
pub struct FloatValue {
    pub bits: u64,
    /// The double as std's `Display` spells it, e.g. `1.5` or `1`.
    pub display: String,
}

impl FloatValue {
    /// `0.0`, the placeholder value of a malformed float literal.
    pub fn zero() -> (v: FloatValue)
        ensures
            v.bits == 0,
            v.display@ == seq!['0'],
    {
        let v = FloatValue { bits: 0, display: String::from_str("0") };
        proof { reveal_strlit("0"); }
        v
    }
}

/// A lexed token: its kind plus the byte span it occupies.
#[derive(Clone, PartialEq, Debug)]
pub struct Token {
    pub kind: TokenKind,
    pub span: Span,
}

/// One piece of a string literal.
#[derive(Clone, PartialEq, Eq, Debug)]
pub enum StrPart {
    /// Literal text with escapes already resolved.
    Lit(String),
    /// An interpolated `{expr}`: the expression source and its span in the file.
    Expr { src: String, span: Span },
}

/// Every token kind.
///
/// `py` is deliberately not a keyword: it arrives as [`TokenKind::Ident`].
#[derive(Clone, PartialEq, Debug)]
pub enum TokenKind {
    /// Integer literal, already parsed into `i64`.
    Int(i64),
    /// Float literal.
    Float(FloatValue),
    /// String literal, split into literal and interpolated parts.
    Str(Vec<StrPart>),
    /// Identifier.
    Ident(String),
    /// Reserved keyword.
    Kw(Keyword),
    /// A collapsed line break.
    Newline,
    /// End of input; always the last token.
    Eof,
    /// `(`
    LParen,
    /// `)`
    RParen,
    /// `[`
    LBracket,
    /// `]`
    RBracket,
    /// `{`
    LBrace,
    /// `}`
    RBrace,
    /// `#{`
    HashLBrace,
    /// `,`
    Comma,
    /// `:`
    Colon,
    /// `;`
    Semicolon,
    /// `.`
    Dot,
    /// `..`
    DotDot,
    /// `..=`
    DotDotEq,
    /// `->`
    Arrow,
    /// `=>`
    FatArrow,
    /// `?`
    Question,
    /// `?.`
    QuestionDot,
    /// `??`
    QuestionQuestion,
    /// `=`
    Eq,
    /// `==`
    EqEq,
    /// `!=`
    NotEq,
    /// `<`
    Lt,
    /// `<=`
    Le,
    /// `>`
    Gt,
    /// `>=`
    Ge,
    /// `+`
    Plus,
    /// `-`
    Minus,
    /// `*`
    Star,
    /// `/`
    Slash,
    /// `%`
    Percent,
    /// `+=`
    PlusEq,
    /// `-=`
    MinusEq,
    /// `*=`
    StarEq,
    /// `/=`
    SlashEq,
}

/// The punctuation and operator kinds, without payload.
#[derive(Clone, Copy, PartialEq, Eq, Debug)]
pub enum Punct {
    LParen,
    RParen,
    LBracket,
    RBracket,
    LBrace,
    RBrace,
    HashLBrace,
    Comma,
    Colon,
    Semicolon,
    Dot,
    DotDot,
    DotDotEq,
    Arrow,
    FatArrow,
    Question,
    QuestionDot,
    QuestionQuestion,
    Eq,
    EqEq,
    NotEq,
    Lt,
    Le,
    Gt,
    Ge,
    Plus,
    Minus,
    Star,
    Slash,
    Percent,
    PlusEq,
    MinusEq,
    StarEq,
    SlashEq,
}

/// The mathematical model of a string part.
pub enum PartV {
    Lit(Seq<char>),
    Expr(Seq<char>, Span),
}

/// The mathematical model of a token kind.
pub enum KindV {
    Int(i64),
    Float(u64, Seq<char>),
    Str(Seq<PartV>),
    Ident(Seq<char>),
    Kw(Keyword),
    Newline,
    Eof,
    P(Punct),
}

impl View for StrPart {
    type V = PartV;

    open spec fn view(&self) -> PartV {
        match self {
            StrPart::Lit(text) => PartV::Lit(text@),
            StrPart::Expr { src, span } => PartV::Expr(src@, *span),
        }
    }
}

/// The models of a list of string parts.
pub open spec fn parts_view(parts: Seq<StrPart>) -> Seq<PartV> {
    parts.map_values(|p: StrPart| p@)
}

impl View for TokenKind {
    type V = KindV;

    open spec fn view(&self) -> KindV {
        match self {
            TokenKind::Int(v) => KindV::Int(*v),
            TokenKind::Float(v) => KindV::Float(v.bits, v.display@),
            TokenKind::Str(parts) => KindV::Str(parts_view(parts@)),
            TokenKind::Ident(name) => KindV::Ident(name@),
            TokenKind::Kw(kw) => KindV::Kw(*kw),
            TokenKind::Newline => KindV::Newline,
            TokenKind::Eof => KindV::Eof,
            TokenKind::LParen => KindV::P(Punct::LParen),
            TokenKind::RParen => KindV::P(Punct::RParen),
            TokenKind::LBracket => KindV::P(Punct::LBracket),
            TokenKind::RBracket => KindV::P(Punct::RBracket),
            TokenKind::LBrace => KindV::P(Punct::LBrace),
            TokenKind::RBrace => KindV::P(Punct::RBrace),
            TokenKind::HashLBrace => KindV::P(Punct::HashLBrace),
            TokenKind::Comma => KindV::P(Punct::Comma),
            TokenKind::Colon => KindV::P(Punct::Colon),
            TokenKind::Semicolon => KindV::P(Punct::Semicolon),
            TokenKind::Dot => KindV::P(Punct::Dot),
            TokenKind::DotDot => KindV::P(Punct::DotDot),
            TokenKind::DotDotEq => KindV::P(Punct::DotDotEq),
            TokenKind::Arrow => KindV::P(Punct::Arrow),
            TokenKind::FatArrow => KindV::P(Punct::FatArrow),
            TokenKind::Question => KindV::P(Punct::Question),
            TokenKind::QuestionDot => KindV::P(Punct::QuestionDot),
            TokenKind::QuestionQuestion => KindV::P(Punct::QuestionQuestion),
            TokenKind::Eq => KindV::P(Punct::Eq),
            TokenKind::EqEq => KindV::P(Punct::EqEq),
            TokenKind::NotEq => KindV::P(Punct::NotEq),
            TokenKind::Lt => KindV::P(Punct::Lt),
            TokenKind::Le => KindV::P(Punct::Le),
            TokenKind::Gt => KindV::P(Punct::Gt),
            TokenKind::Ge => KindV::P(Punct::Ge),
            TokenKind::Plus => KindV::P(Punct::Plus),
            TokenKind::Minus => KindV::P(Punct::Minus),
            TokenKind::Star => KindV::P(Punct::Star),
            TokenKind::Slash => KindV::P(Punct::Slash),
            TokenKind::Percent => KindV::P(Punct::Percent),
            TokenKind::PlusEq => KindV::P(Punct::PlusEq),
            TokenKind::MinusEq => KindV::P(Punct::MinusEq),
            TokenKind::StarEq => KindV::P(Punct::StarEq),
            TokenKind::SlashEq => KindV::P(Punct::SlashEq),
        }
    }
}

impl Punct {
    /// The token kind of a punctuation mark.
    pub fn kind(self) -> (k: TokenKind)
        ensures
            k@ == KindV::P(self),
    {
        match self {
            Punct::LParen => TokenKind::LParen,
            Punct::RParen => TokenKind::RParen,
            Punct::LBracket => TokenKind::LBracket,
            Punct::RBracket => TokenKind::RBracket,
            Punct::LBrace => TokenKind::LBrace,
            Punct::RBrace => TokenKind::RBrace,
            Punct::HashLBrace => TokenKind::HashLBrace,
            Punct::Comma => TokenKind::Comma,
            Punct::Colon => TokenKind::Colon,
            Punct::Semicolon => TokenKind::Semicolon,
            Punct::Dot => TokenKind::Dot,
            Punct::DotDot => TokenKind::DotDot,
            Punct::DotDotEq => TokenKind::DotDotEq,
            Punct::Arrow => TokenKind::Arrow,
            Punct::FatArrow => TokenKind::FatArrow,
            Punct::Question => TokenKind::Question,
            Punct::QuestionDot => TokenKind::QuestionDot,
            Punct::QuestionQuestion => TokenKind::QuestionQuestion,
            Punct::Eq => TokenKind::Eq,
            Punct::EqEq => TokenKind::EqEq,
            Punct::NotEq => TokenKind::NotEq,
            Punct::Lt => TokenKind::Lt,
            Punct::Le => TokenKind::Le,
            Punct::Gt => TokenKind::Gt,
            Punct::Ge => TokenKind::Ge,
            Punct::Plus => TokenKind::Plus,
            Punct::Minus => TokenKind::Minus,
            Punct::Star => TokenKind::Star,
            Punct::Slash => TokenKind::Slash,
            Punct::Percent => TokenKind::Percent,
            Punct::PlusEq => TokenKind::PlusEq,
            Punct::MinusEq => TokenKind::MinusEq,
            Punct::StarEq => TokenKind::StarEq,
            Punct::SlashEq => TokenKind::SlashEq,
        }
    }
}

/// The model of a token.
pub struct TokenV {
    pub kind: KindV,
    pub span: Span,
}

impl View for Token {
    type V = TokenV;

    open spec fn view(&self) -> TokenV {
        TokenV { kind: self.kind@, span: self.span }
    }
}

/// The models of a list of tokens.
pub open spec fn tokens_view(tokens: Seq<Token>) -> Seq<TokenV> {
    tokens.map_values(|t: Token| t@)
}

impl Token {
    /// Creates a token.
    pub fn new(kind: TokenKind, span: Span) -> (t: Token)
        ensures
            t.kind == kind,
            t.span == span,
    {
        Token { kind, span }
    }

    /// The keyword behind this token, if it is one.
    pub fn keyword(&self) -> (k: Option<Keyword>)
        ensures
            k == (match self.kind@ {
                KindV::Kw(kw) => Some(kw),
                _ => None::<Keyword>,
            }),
    {
        match self.kind {
            TokenKind::Kw(kw) => Some(kw),
            _ => None,
        }
    }

    /// Whether this token is a `Newline`.
    pub fn is_newline(&self) -> (b: bool)
        ensures
            b == (self.kind@ is Newline),
    {
        match self.kind {
            TokenKind::Newline => true,
            _ => false,
        }
    }

    /// Whether this token is the end of file.
    pub fn is_eof(&self) -> (b: bool)
        ensures
            b == (self.kind@ is Eof),
    {
        match self.kind {
            TokenKind::Eof => true,
            _ => false,
        }
    }
}

/// Reserved keywords (without `py`, which is contextual).
#[derive(Clone, Copy, PartialEq, Eq, Hash, Debug)]
pub enum Keyword {
    Fn,
    Intent,
    How,
    Given,
    Ensure,
    When,
    Via,
    Priority,
    Data,
    Enum,
    Let,
    Mut,
    If,
    Else,
    Match,
    For,
    In,
    While,
    Return,
    Break,
    Continue,
    Use,
    As,
    Try,
    Fail,
    True,
    False,
    NoneLit,
    And,
    Or,
    Not,
    Pub,
    Test,
}

impl Keyword {
    /// The source spelling of a keyword.
    pub open spec fn spelling(self) -> Seq<char> {
        match self {
            Keyword::Fn => "fn"@,
            Keyword::Intent => "intent"@,
            Keyword::How => "how"@,
            Keyword::Given => "given"@,
            Keyword::Ensure => "ensure"@,
            Keyword::When => "when"@,
            Keyword::Via => "via"@,
            Keyword::Priority => "priority"@,
            Keyword::Data => "data"@,
            Keyword::Enum => "enum"@,
            Keyword::Let => "let"@,
            Keyword::Mut => "mut"@,
            Keyword::If => "if"@,
            Keyword::Else => "else"@,
            Keyword::Match => "match"@,
            Keyword::For => "for"@,
            Keyword::In => "in"@,
            Keyword::While => "while"@,
            Keyword::Return => "return"@,
            Keyword::Break => "break"@,
            Keyword::Continue => "continue"@,
            Keyword::Use => "use"@,
            Keyword::As => "as"@,
            Keyword::Try => "try"@,
            Keyword::Fail => "fail"@,
            Keyword::True => "true"@,
            Keyword::False => "false"@,
            Keyword::NoneLit => "none"@,
            Keyword::And => "and"@,
            Keyword::Or => "or"@,
            Keyword::Not => "not"@,
            Keyword::Pub => "pub"@,
            Keyword::Test => "test"@,
        }
    }

    /// The source spelling of the keyword.
    pub fn as_str(self) -> (s: &'static str)
        ensures
            s@ == self.spelling(),
    {
        match self {
            Keyword::Fn => "fn",
            Keyword::Intent => "intent",
            Keyword::How => "how",
            Keyword::Given => "given",
            Keyword::Ensure => "ensure",
            Keyword::When => "when",
            Keyword::Via => "via",
            Keyword::Priority => "priority",
            Keyword::Data => "data",
            Keyword::Enum => "enum",
            Keyword::Let => "let",
            Keyword::Mut => "mut",
            Keyword::If => "if",
            Keyword::Else => "else",
            Keyword::Match => "match",
            Keyword::For => "for",
            Keyword::In => "in",
            Keyword::While => "while",
            Keyword::Return => "return",
            Keyword::Break => "break",
            Keyword::Continue => "continue",
            Keyword::Use => "use",
            Keyword::As => "as",
            Keyword::Try => "try",
            Keyword::Fail => "fail",
            Keyword::True => "true",
            Keyword::False => "false",
            Keyword::NoneLit => "none",
            Keyword::And => "and",
            Keyword::Or => "or",
            Keyword::Not => "not",
            Keyword::Pub => "pub",
            Keyword::Test => "test",
        }
    }

    /// Looks a keyword up by identifier text; `py` is not a keyword.
    pub fn from_str(text: &str) -> (k: Option<Keyword>)
        ensures
            k == keyword_of(text@),
            k matches Some(kw) ==> kw.spelling() == text@,
    {
        if str_eq(text, "fn") {
            Some(Keyword::Fn)
        } else if str_eq(text, "intent") {
            Some(Keyword::Intent)
        } else if str_eq(text, "how") {
            Some(Keyword::How)
        } else if str_eq(text, "given") {
            Some(Keyword::Given)
        } else if str_eq(text, "ensure") {
            Some(Keyword::Ensure)
        } else if str_eq(text, "when") {
            Some(Keyword::When)
        } else if str_eq(text, "via") {
            Some(Keyword::Via)
        } else if str_eq(text, "priority") {
            Some(Keyword::Priority)
        } else if str_eq(text, "data") {
            Some(Keyword::Data)
        } else if str_eq(text, "enum") {
            Some(Keyword::Enum)
        } else if str_eq(text, "let") {
            Some(Keyword::Let)
        } else if str_eq(text, "mut") {
            Some(Keyword::Mut)
        } else if str_eq(text, "if") {
            Some(Keyword::If)
        } else if str_eq(text, "else") {
            Some(Keyword::Else)
        } else if str_eq(text, "match") {
            Some(Keyword::Match)
        } else if str_eq(text, "for") {
            Some(Keyword::For)
        } else if str_eq(text, "in") {
            Some(Keyword::In)
        } else if str_eq(text, "while") {
            Some(Keyword::While)
        } else if str_eq(text, "return") {
            Some(Keyword::Return)
        } else if str_eq(text, "break") {
            Some(Keyword::Break)
        } else if str_eq(text, "continue") {
            Some(Keyword::Continue)
        } else if str_eq(text, "use") {
            Some(Keyword::Use)
        } else if str_eq(text, "as") {
            Some(Keyword::As)
        } else if str_eq(text, "try") {
            Some(Keyword::Try)
        } else if str_eq(text, "fail") {
            Some(Keyword::Fail)
        } else if str_eq(text, "true") {
            Some(Keyword::True)
        } else if str_eq(text, "false") {
            Some(Keyword::False)
        } else if str_eq(text, "none") {
            Some(Keyword::NoneLit)
        } else if str_eq(text, "and") {
            Some(Keyword::And)
        } else if str_eq(text, "or") {
            Some(Keyword::Or)
        } else if str_eq(text, "not") {
            Some(Keyword::Not)
        } else if str_eq(text, "pub") {
            Some(Keyword::Pub)
        } else if str_eq(text, "test") {
            Some(Keyword::Test)
        } else {
            None
        }
    }
}

/// The keyword spelled `text`, if any.
pub open spec fn keyword_of(text: Seq<char>) -> Option<Keyword> {
    if text == "fn"@ {
        Some(Keyword::Fn)
    } else if text == "intent"@ {
        Some(Keyword::Intent)
    } else if text == "how"@ {
        Some(Keyword::How)
    } else if text == "given"@ {
        Some(Keyword::Given)
    } else if text == "ensure"@ {
        Some(Keyword::Ensure)
    } else if text == "when"@ {
        Some(Keyword::When)
    } else if text == "via"@ {
        Some(Keyword::Via)
    } else if text == "priority"@ {
        Some(Keyword::Priority)
    } else if text == "data"@ {
        Some(Keyword::Data)
    } else if text == "enum"@ {
        Some(Keyword::Enum)
    } else if text == "let"@ {
        Some(Keyword::Let)
    } else if text == "mut"@ {
        Some(Keyword::Mut)
    } else if text == "if"@ {
        Some(Keyword::If)
    } else if text == "else"@ {
        Some(Keyword::Else)
    } else if text == "match"@ {
        Some(Keyword::Match)
    } else if text == "for"@ {
        Some(Keyword::For)
    } else if text == "in"@ {
        Some(Keyword::In)
    } else if text == "while"@ {
        Some(Keyword::While)
    } else if text == "return"@ {
        Some(Keyword::Return)
    } else if text == "break"@ {
        Some(Keyword::Break)
    } else if text == "continue"@ {
        Some(Keyword::Continue)
    } else if text == "use"@ {
        Some(Keyword::Use)
    } else if text == "as"@ {
        Some(Keyword::As)
    } else if text == "try"@ {
        Some(Keyword::Try)
    } else if text == "fail"@ {
        Some(Keyword::Fail)
    } else if text == "true"@ {
        Some(Keyword::True)
    } else if text == "false"@ {
        Some(Keyword::False)
    } else if text == "none"@ {
        Some(Keyword::NoneLit)
    } else if text == "and"@ {
        Some(Keyword::And)
    } else if text == "or"@ {
        Some(Keyword::Or)
    } else if text == "not"@ {
        Some(Keyword::Not)
    } else if text == "pub"@ {
        Some(Keyword::Pub)
    } else if text == "test"@ {
        Some(Keyword::Test)
    } else {
        None
    }
}


/// Spelling a keyword and reading it back gives the keyword; a text read as
/// a keyword is that keyword's spelling.
#[verifier::spinoff_prover]
#[verifier::rlimit(100)]
pub proof fn law_keyword_round_trip(kw: Keyword, text: Seq<char>)
    ensures
        keyword_of(kw.spelling()) == Some(kw),
        keyword_of(text) matches Some(k) ==> k.spelling() == text,
{
    reveal_strlit("fn");
    reveal_strlit("intent");
    reveal_strlit("how");
    reveal_strlit("given");
    reveal_strlit("ensure");
    reveal_strlit("when");
    reveal_strlit("via");
    reveal_strlit("priority");
    reveal_strlit("data");
    reveal_strlit("enum");
    reveal_strlit("let");
    reveal_strlit("mut");
    reveal_strlit("if");
    reveal_strlit("else");
    reveal_strlit("match");
    reveal_strlit("for");
    reveal_strlit("in");
    reveal_strlit("while");
    reveal_strlit("return");
    reveal_strlit("break");
    reveal_strlit("continue");
    reveal_strlit("use");
    reveal_strlit("as");
    reveal_strlit("try");
    reveal_strlit("fail");
    reveal_strlit("true");
    reveal_strlit("false");
    reveal_strlit("none");
    reveal_strlit("and");
    reveal_strlit("or");
    reveal_strlit("not");
    reveal_strlit("pub");
    reveal_strlit("test");
    assert("fn"@ =~= seq!['f', 'n']);
    assert("intent"@ =~= seq!['i', 'n', 't', 'e', 'n', 't']);
    assert("how"@ =~= seq!['h', 'o', 'w']);
    assert("given"@ =~= seq!['g', 'i', 'v', 'e', 'n']);
    assert("ensure"@ =~= seq!['e', 'n', 's', 'u', 'r', 'e']);
    assert("when"@ =~= seq!['w', 'h', 'e', 'n']);
    assert("via"@ =~= seq!['v', 'i', 'a']);
    assert("priority"@ =~= seq!['p', 'r', 'i', 'o', 'r', 'i', 't', 'y']);
    assert("data"@ =~= seq!['d', 'a', 't', 'a']);
    assert("enum"@ =~= seq!['e', 'n', 'u', 'm']);
    assert("let"@ =~= seq!['l', 'e', 't']);
    assert("mut"@ =~= seq!['m', 'u', 't']);
    assert("if"@ =~= seq!['i', 'f']);
    assert("else"@ =~= seq!['e', 'l', 's', 'e']);
    assert("match"@ =~= seq!['m', 'a', 't', 'c', 'h']);
    assert("for"@ =~= seq!['f', 'o', 'r']);
    assert("in"@ =~= seq!['i', 'n']);
    assert("while"@ =~= seq!['w', 'h', 'i', 'l', 'e']);
    assert("return"@ =~= seq!['r', 'e', 't', 'u', 'r', 'n']);
    assert("break"@ =~= seq!['b', 'r', 'e', 'a', 'k']);
    assert("continue"@ =~= seq!['c', 'o', 'n', 't', 'i', 'n', 'u', 'e']);
    assert("use"@ =~= seq!['u', 's', 'e']);
    assert("as"@ =~= seq!['a', 's']);
    assert("try"@ =~= seq!['t', 'r', 'y']);
    assert("fail"@ =~= seq!['f', 'a', 'i', 'l']);
    assert("true"@ =~= seq!['t', 'r', 'u', 'e']);
    assert("false"@ =~= seq!['f', 'a', 'l', 's', 'e']);
    assert("none"@ =~= seq!['n', 'o', 'n', 'e']);
    assert("and"@ =~= seq!['a', 'n', 'd']);
    assert("or"@ =~= seq!['o', 'r']);
    assert("not"@ =~= seq!['n', 'o', 't']);
    assert("pub"@ =~= seq!['p', 'u', 'b']);
    assert("test"@ =~= seq!['t', 'e', 's', 't']);
    match kw {
        Keyword::Fn => assert(keyword_of(Keyword::Fn.spelling()) == Some(Keyword::Fn)),
        Keyword::Intent => assert(keyword_of(Keyword::Intent.spelling()) == Some(Keyword::Intent)),
        Keyword::How => assert(keyword_of(Keyword::How.spelling()) == Some(Keyword::How)),
        Keyword::Given => assert(keyword_of(Keyword::Given.spelling()) == Some(Keyword::Given)),
        Keyword::Ensure => assert(keyword_of(Keyword::Ensure.spelling()) == Some(Keyword::Ensure)),
        Keyword::When => assert(keyword_of(Keyword::When.spelling()) == Some(Keyword::When)),
        Keyword::Via => assert(keyword_of(Keyword::Via.spelling()) == Some(Keyword::Via)),
        Keyword::Priority => assert(keyword_of(Keyword::Priority.spelling()) == Some(Keyword::Priority)),
        Keyword::Data => assert(keyword_of(Keyword::Data.spelling()) == Some(Keyword::Data)),
        Keyword::Enum => assert(keyword_of(Keyword::Enum.spelling()) == Some(Keyword::Enum)),
        Keyword::Let => assert(keyword_of(Keyword::Let.spelling()) == Some(Keyword::Let)),
        Keyword::Mut => assert(keyword_of(Keyword::Mut.spelling()) == Some(Keyword::Mut)),
        Keyword::If => assert(keyword_of(Keyword::If.spelling()) == Some(Keyword::If)),
        Keyword::Else => assert(keyword_of(Keyword::Else.spelling()) == Some(Keyword::Else)),
        Keyword::Match => assert(keyword_of(Keyword::Match.spelling()) == Some(Keyword::Match)),
        Keyword::For => assert(keyword_of(Keyword::For.spelling()) == Some(Keyword::For)),
        Keyword::In => assert(keyword_of(Keyword::In.spelling()) == Some(Keyword::In)),
        Keyword::While => assert(keyword_of(Keyword::While.spelling()) == Some(Keyword::While)),
        Keyword::Return => assert(keyword_of(Keyword::Return.spelling()) == Some(Keyword::Return)),
        Keyword::Break => assert(keyword_of(Keyword::Break.spelling()) == Some(Keyword::Break)),
        Keyword::Continue => assert(keyword_of(Keyword::Continue.spelling()) == Some(Keyword::Continue)),
        Keyword::Use => assert(keyword_of(Keyword::Use.spelling()) == Some(Keyword::Use)),
        Keyword::As => assert(keyword_of(Keyword::As.spelling()) == Some(Keyword::As)),
        Keyword::Try => assert(keyword_of(Keyword::Try.spelling()) == Some(Keyword::Try)),
        Keyword::Fail => assert(keyword_of(Keyword::Fail.spelling()) == Some(Keyword::Fail)),
        Keyword::True => assert(keyword_of(Keyword::True.spelling()) == Some(Keyword::True)),
        Keyword::False => assert(keyword_of(Keyword::False.spelling()) == Some(Keyword::False)),
        Keyword::NoneLit => assert(keyword_of(Keyword::NoneLit.spelling()) == Some(Keyword::NoneLit)),
        Keyword::And => assert(keyword_of(Keyword::And.spelling()) == Some(Keyword::And)),
        Keyword::Or => assert(keyword_of(Keyword::Or.spelling()) == Some(Keyword::Or)),
        Keyword::Not => assert(keyword_of(Keyword::Not.spelling()) == Some(Keyword::Not)),
        Keyword::Pub => assert(keyword_of(Keyword::Pub.spelling()) == Some(Keyword::Pub)),
        Keyword::Test => assert(keyword_of(Keyword::Test.spelling()) == Some(Keyword::Test)),
    }
}

} // verus!
