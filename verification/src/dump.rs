//! Stable textual rendering of tokens, used by `orv tokens`.
//!
//! The format is one line per token:
//!
//! ```text
//! LINE:COL Kind(payload)
//! ```
//!
//! `LINE` is 1-based and `COL` is 1-based in characters. The kind spelling is
//! fixed so golden tests can rely on it.

use vstd::prelude::*;
use vstd::utf8::*;
use crate::lexer::token::{FloatValue, KindV, PartV, Punct, StrPart, Token, TokenKind, TokenV};
use crate::source::{SourceFile, line_col_spec};
use crate::text::{int_text, nat_text, push_char, push_i64, push_u64, str_chars};

verus! {

// --- Model ------------------------------------------------------------------

/// The fixed name of a punctuation token.
pub open spec fn punct_name(p: Punct) -> Seq<char> {
    match p {
        Punct::LParen => "LParen"@,
        Punct::RParen => "RParen"@,
        Punct::LBracket => "LBracket"@,
        Punct::RBracket => "RBracket"@,
        Punct::LBrace => "LBrace"@,
        Punct::RBrace => "RBrace"@,
        Punct::HashLBrace => "HashLBrace"@,
        Punct::Comma => "Comma"@,
        Punct::Colon => "Colon"@,
        Punct::Semicolon => "Semicolon"@,
        Punct::Dot => "Dot"@,
        Punct::DotDot => "DotDot"@,
        Punct::DotDotEq => "DotDotEq"@,
        Punct::Arrow => "Arrow"@,
        Punct::FatArrow => "FatArrow"@,
        Punct::Question => "Question"@,
        Punct::QuestionDot => "QuestionDot"@,
        Punct::QuestionQuestion => "QuestionQuestion"@,
        Punct::Eq => "Eq"@,
        Punct::EqEq => "EqEq"@,
        Punct::NotEq => "NotEq"@,
        Punct::Lt => "Lt"@,
        Punct::Le => "Le"@,
        Punct::Gt => "Gt"@,
        Punct::Ge => "Ge"@,
        Punct::Plus => "Plus"@,
        Punct::Minus => "Minus"@,
        Punct::Star => "Star"@,
        Punct::Slash => "Slash"@,
        Punct::Percent => "Percent"@,
        Punct::PlusEq => "PlusEq"@,
        Punct::MinusEq => "MinusEq"@,
        Punct::StarEq => "StarEq"@,
        Punct::SlashEq => "SlashEq"@,
    }
}

/// The escaped form of one character inside a quoted dump string.
pub open spec fn escape_char(c: char) -> Seq<char> {
    if c == '"' {
        seq!['\\', '"']
    } else if c == '\\' {
        seq!['\\', '\\']
    } else if c == '\n' {
        seq!['\\', 'n']
    } else if c == '\t' {
        seq!['\\', 't']
    } else if c == '\r' {
        seq!['\\', 'r']
    } else {
        seq![c]
    }
}

/// The escaped form of a text, character by character.
pub open spec fn escape_text(t: Seq<char>) -> Seq<char>
    decreases t.len(),
{
    if t.len() == 0 {
        Seq::empty()
    } else {
        escape_text(t.drop_last()) + escape_char(t.last())
    }
}

/// A double-quoted string with `"`, `\`, and the three line-control
/// characters escaped, so the output stays on one line.
pub open spec fn quote_spec(t: Seq<char>) -> Seq<char> {
    seq!['"'] + escape_text(t) + seq!['"']
}

/// A float's spelling, with `.0` added when it has neither a point nor an
/// exponent, so `1.0` stays `1.0` rather than `1`.
pub open spec fn float_text_spec(display: Seq<char>) -> Seq<char> {
    if display.contains('.') || display.contains('e') || display.contains('E') {
        display
    } else {
        display + ".0"@
    }
}

/// The rendering of one string part.
pub open spec fn part_text(p: PartV) -> Seq<char> {
    match p {
        PartV::Lit(t) => "Lit("@ + quote_spec(t) + ")"@,
        PartV::Expr(src, _) => "Expr("@ + quote_spec(src) + ")"@,
    }
}

/// The renderings of string parts joined by `, `.
pub open spec fn parts_text(ps: Seq<PartV>) -> Seq<char>
    decreases ps.len(),
{
    if ps.len() == 0 {
        Seq::empty()
    } else if ps.len() == 1 {
        part_text(ps[0])
    } else {
        parts_text(ps.drop_last()) + ", "@ + part_text(ps.last())
    }
}

/// The stable one-line spelling of a token kind, e.g. `Kw(fn)` or `Int(42)`.
pub open spec fn kind_text_spec(k: KindV) -> Seq<char> {
    match k {
        KindV::Int(v) => "Int("@ + int_text(v as int) + ")"@,
        KindV::Float(_, display) => "Float("@ + float_text_spec(display) + ")"@,
        KindV::Str(parts) => "Str["@ + parts_text(parts) + "]"@,
        KindV::Ident(name) => "Ident("@ + name + ")"@,
        KindV::Kw(kw) => "Kw("@ + kw.spelling() + ")"@,
        KindV::Newline => "Newline"@,
        KindV::Eof => "Eof"@,
        KindV::P(p) => punct_name(p),
    }
}

/// The line of the dump for one token of a file whose bytes are `b`.
pub open spec fn token_line(b: Seq<u8>, t: TokenV) -> Seq<char> {
    let off = if (t.span.start as int) < b.len() { t.span.start as int } else { b.len() as int };
    let (line, col) = line_col_spec(b, off);
    nat_text(line as nat) + seq![':'] + nat_text(col as nat) + seq![' '] + kind_text_spec(t.kind) + seq!['\n']
}

/// The dump of a token stream: one line per token.
pub open spec fn dump_spec(b: Seq<u8>, ts: Seq<TokenV>) -> Seq<char>
    decreases ts.len(),
{
    if ts.len() == 0 {
        Seq::empty()
    } else {
        dump_spec(b, ts.drop_last()) + token_line(b, ts.last())
    }
}

// --- Rendering ----------------------------------------------------------------

/// Appends `text` quoted and escaped.
fn push_quoted(out: &mut String, text: &str)
    ensures
        final(out)@ == old(out)@ + quote_spec(text@),
{
    let chars = str_chars(text);
    push_char(out, '"');
    let ghost base = out@;
    let mut i: usize = 0;
    while i < chars.len()
        invariant
            i <= chars@.len(),
            chars@ == text@,
            out@ == base + escape_text(chars@.take(i as int)),
        decreases chars@.len() - i,
    {
        let c = chars[i];
        let ghost before = out@;
        if c == '"' {
            push_char(out, '\\');
            push_char(out, '"');
        } else if c == '\\' {
            push_char(out, '\\');
            push_char(out, '\\');
        } else if c == '\n' {
            push_char(out, '\\');
            push_char(out, 'n');
        } else if c == '\t' {
            push_char(out, '\\');
            push_char(out, 't');
        } else if c == '\r' {
            push_char(out, '\\');
            push_char(out, 'r');
        } else {
            push_char(out, c);
        }
        assert(out@ =~= before + escape_char(c));
        assert(chars@.take(i + 1).drop_last() =~= chars@.take(i as int));
        i = i + 1;
        assert(out@ =~= base + escape_text(chars@.take(i as int)));
    }
    assert(chars@.take(i as int) =~= text@);
    push_char(out, '"');
    assert(out@ =~= old(out)@ + quote_spec(text@));
}

/// Whether a float spelling already shows a point or an exponent.
pub(crate) fn has_point_or_exponent(display: &str) -> (r: bool)
    ensures
        r == (display@.contains('.') || display@.contains('e') || display@.contains('E')),
{
    let chars = str_chars(display);
    let mut i: usize = 0;
    while i < chars.len()
        invariant
            i <= chars@.len(),
            chars@ == display@,
            forall|k: int| 0 <= k < i ==> chars@[k] != '.' && chars@[k] != 'e' && chars@[k] != 'E',
        decreases chars@.len() - i,
    {
        let c = chars[i];
        if c == '.' || c == 'e' || c == 'E' {
            assert(display@[i as int] == c);
            return true;
        }
        i = i + 1;
    }
    false
}

/// Appends `Float(..)` with the value's spelling.
pub fn push_float(out: &mut String, value: &FloatValue)
    ensures
        final(out)@ == old(out)@ + kind_text_spec(KindV::Float(value.bits, value.display@)),
{
    let ghost before = out@;
    out.append("Float(");
    out.append(value.display.as_str());
    if !has_point_or_exponent(value.display.as_str()) {
        out.append(".0");
    }
    out.append(")");
    assert(out@ =~= before + kind_text_spec(KindV::Float(value.bits, value.display@)));
}

/// Appends the fixed spelling of a punctuation token.
fn push_punct(out: &mut String, p: Punct)
    ensures
        final(out)@ == old(out)@ + punct_name(p),
{
    let s: &str = match p {
        Punct::LParen => "LParen",
        Punct::RParen => "RParen",
        Punct::LBracket => "LBracket",
        Punct::RBracket => "RBracket",
        Punct::LBrace => "LBrace",
        Punct::RBrace => "RBrace",
        Punct::HashLBrace => "HashLBrace",
        Punct::Comma => "Comma",
        Punct::Colon => "Colon",
        Punct::Semicolon => "Semicolon",
        Punct::Dot => "Dot",
        Punct::DotDot => "DotDot",
        Punct::DotDotEq => "DotDotEq",
        Punct::Arrow => "Arrow",
        Punct::FatArrow => "FatArrow",
        Punct::Question => "Question",
        Punct::QuestionDot => "QuestionDot",
        Punct::QuestionQuestion => "QuestionQuestion",
        Punct::Eq => "Eq",
        Punct::EqEq => "EqEq",
        Punct::NotEq => "NotEq",
        Punct::Lt => "Lt",
        Punct::Le => "Le",
        Punct::Gt => "Gt",
        Punct::Ge => "Ge",
        Punct::Plus => "Plus",
        Punct::Minus => "Minus",
        Punct::Star => "Star",
        Punct::Slash => "Slash",
        Punct::Percent => "Percent",
        Punct::PlusEq => "PlusEq",
        Punct::MinusEq => "MinusEq",
        Punct::StarEq => "StarEq",
        Punct::SlashEq => "SlashEq",
    };
    out.append(s);
}

/// The punctuation mark a payload-free token kind spells, if it is one.
fn punct_of(kind: &TokenKind) -> (p: Option<Punct>)
    ensures
        match kind@ {
            KindV::P(q) => p == Some(q),
            _ => p.is_none(),
        },
{
    match kind {
        TokenKind::LParen => Some(Punct::LParen),
        TokenKind::RParen => Some(Punct::RParen),
        TokenKind::LBracket => Some(Punct::LBracket),
        TokenKind::RBracket => Some(Punct::RBracket),
        TokenKind::LBrace => Some(Punct::LBrace),
        TokenKind::RBrace => Some(Punct::RBrace),
        TokenKind::HashLBrace => Some(Punct::HashLBrace),
        TokenKind::Comma => Some(Punct::Comma),
        TokenKind::Colon => Some(Punct::Colon),
        TokenKind::Semicolon => Some(Punct::Semicolon),
        TokenKind::Dot => Some(Punct::Dot),
        TokenKind::DotDot => Some(Punct::DotDot),
        TokenKind::DotDotEq => Some(Punct::DotDotEq),
        TokenKind::Arrow => Some(Punct::Arrow),
        TokenKind::FatArrow => Some(Punct::FatArrow),
        TokenKind::Question => Some(Punct::Question),
        TokenKind::QuestionDot => Some(Punct::QuestionDot),
        TokenKind::QuestionQuestion => Some(Punct::QuestionQuestion),
        TokenKind::Eq => Some(Punct::Eq),
        TokenKind::EqEq => Some(Punct::EqEq),
        TokenKind::NotEq => Some(Punct::NotEq),
        TokenKind::Lt => Some(Punct::Lt),
        TokenKind::Le => Some(Punct::Le),
        TokenKind::Gt => Some(Punct::Gt),
        TokenKind::Ge => Some(Punct::Ge),
        TokenKind::Plus => Some(Punct::Plus),
        TokenKind::Minus => Some(Punct::Minus),
        TokenKind::Star => Some(Punct::Star),
        TokenKind::Slash => Some(Punct::Slash),
        TokenKind::Percent => Some(Punct::Percent),
        TokenKind::PlusEq => Some(Punct::PlusEq),
        TokenKind::MinusEq => Some(Punct::MinusEq),
        TokenKind::StarEq => Some(Punct::StarEq),
        TokenKind::SlashEq => Some(Punct::SlashEq),
        _ => None,
    }
}

/// Appends the rendering of the string parts, joined by `, `.
fn push_parts(out: &mut String, parts: &Vec<StrPart>)
    ensures
        final(out)@ == old(out)@ + parts_text(crate::lexer::token::parts_view(parts@)),
{
    let ghost ps = crate::lexer::token::parts_view(parts@);
    let ghost base = out@;
    let mut i: usize = 0;
    while i < parts.len()
        invariant
            i <= parts@.len(),
            ps == crate::lexer::token::parts_view(parts@),
            out@ == base + parts_text(ps.take(i as int)),
        decreases parts@.len() - i,
    {
        let ghost before = out@;
        if i > 0 {
            out.append(", ");
        }
        match &parts[i] {
            StrPart::Lit(text) => {
                out.append("Lit(");
                push_quoted(out, text.as_str());
                out.append(")");
            },
            StrPart::Expr { src, .. } => {
                out.append("Expr(");
                push_quoted(out, src.as_str());
                out.append(")");
            },
        }
        proof {
            let t = ps.take(i + 1);
            assert(t.drop_last() =~= ps.take(i as int));
            assert(t.last() == parts@[i as int]@);
            if i == 0 {
                assert(t.len() == 1);
                assert(out@ =~= base + parts_text(t));
            } else {
                assert(out@ =~= base + parts_text(t));
            }
        }
        i = i + 1;
    }
    assert(ps.take(i as int) =~= ps);
}

/// Appends the stable spelling of a token kind.
fn push_kind(out: &mut String, kind: &TokenKind)
    ensures
        final(out)@ == old(out)@ + kind_text_spec(kind@),
{
    let ghost before = out@;
    match kind {
        TokenKind::Int(value) => {
            out.append("Int(");
            push_i64(out, *value);
            out.append(")");
        },
        TokenKind::Float(value) => {
            push_float(out, value);
        },
        TokenKind::Str(parts) => {
            out.append("Str[");
            push_parts(out, parts);
            out.append("]");
        },
        TokenKind::Ident(name) => {
            out.append("Ident(");
            out.append(name.as_str());
            out.append(")");
        },
        TokenKind::Kw(kw) => {
            out.append("Kw(");
            out.append(kw.as_str());
            out.append(")");
        },
        TokenKind::Newline => {
            out.append("Newline");
        },
        TokenKind::Eof => {
            out.append("Eof");
        },
        _ => {
            match punct_of(kind) {
                Some(p) => push_punct(out, p),
                None => {},
            }
        },
    }
    assert(out@ =~= before + kind_text_spec(kind@));
}

/// The stable one-line spelling of a token kind, e.g. `Kw(fn)` or `Int(42)`.
pub fn kind_text(kind: &TokenKind) -> (s: String)
    ensures
        s@ == kind_text_spec(kind@),
{
    let mut s = String::new();
    push_kind(&mut s, kind);
    assert(s@ =~= kind_text_spec(kind@));
    s
}

/// Renders a whole token stream, one `LINE:COL Kind` line per token.
///
/// Spans are `u32` offsets, so the file is below `u32::MAX` bytes.
pub fn dump_tokens(file: &SourceFile, tokens: &[Token]) -> (s: String)
    requires
        file.scanned().len() < u32::MAX,
    ensures
        s@ == dump_spec(file.scanned(), tokens@.map_values(|t: Token| t@)),
{
    let ghost b = file.scanned();
    let ghost ts = tokens@.map_values(|t: Token| t@);
    let mut out = String::new();
    let mut i: usize = 0;
    while i < tokens.len()
        invariant
            i <= tokens@.len(),
            ts == tokens@.map_values(|t: Token| t@),
            b == file.scanned(),
            b.len() < u32::MAX,
            out@ == dump_spec(b, ts.take(i as int)),
        decreases tokens@.len() - i,
    {
        let ghost before = out@;
        let token = &tokens[i];
        let (line, col) = file.line_col(token.span.start);
        push_u64(&mut out, line as u64);
        push_char(&mut out, ':');
        push_u64(&mut out, col as u64);
        push_char(&mut out, ' ');
        push_kind(&mut out, &token.kind);
        push_char(&mut out, '\n');
        proof {
            let t = ts.take(i + 1);
            assert(t.drop_last() =~= ts.take(i as int));
            assert(t.last() == token@);
            let off = if (token.span.start as int) < b.len() { token.span.start as int } else { b.len() as int };
            crate::source::lemma_line_col_bounds(b, off);
            assert(line as nat == line_col_spec(b, off).0 as nat);
            assert(col as nat == line_col_spec(b, off).1 as nat);
            assert(out@ =~= before + nat_text(line as nat) + seq![':'] + nat_text(col as nat) + seq![' ']
                + kind_text_spec(token.kind@) + seq!['\n']);
            assert(out@ =~= before + token_line(b, token@));
        }
        i = i + 1;
    }
    assert(ts.take(i as int) =~= ts);
    out
}

/// Distinct punctuation tokens dump to distinct names, so a token listing
/// tells every operator apart.
pub proof fn law_punct_names_distinct(p: Punct, q: Punct)
    ensures
        punct_name(p) == punct_name(q) ==> p == q,
{
    reveal_strlit("LParen"); reveal_strlit("RParen"); reveal_strlit("LBracket"); reveal_strlit("RBracket");
    reveal_strlit("LBrace"); reveal_strlit("RBrace"); reveal_strlit("HashLBrace"); reveal_strlit("Comma");
    reveal_strlit("Colon"); reveal_strlit("Semicolon"); reveal_strlit("Dot"); reveal_strlit("DotDot");
    reveal_strlit("DotDotEq"); reveal_strlit("Arrow"); reveal_strlit("FatArrow"); reveal_strlit("Question");
    reveal_strlit("QuestionDot"); reveal_strlit("QuestionQuestion"); reveal_strlit("Eq"); reveal_strlit("EqEq");
    reveal_strlit("NotEq"); reveal_strlit("Lt"); reveal_strlit("Le"); reveal_strlit("Gt"); reveal_strlit("Ge");
    reveal_strlit("Plus"); reveal_strlit("Minus"); reveal_strlit("Star"); reveal_strlit("Slash");
    reveal_strlit("Percent"); reveal_strlit("PlusEq"); reveal_strlit("MinusEq"); reveal_strlit("StarEq");
    reveal_strlit("SlashEq");
    if punct_name(p) == punct_name(q) {
        let n = punct_name(p);
        assert(n.len() == punct_name(q).len());
        assert(n[0] == punct_name(q)[0]);
        assert(n[1] == punct_name(q)[1]);
        assert(n[n.len() - 1] == punct_name(q)[n.len() - 1]);
        assert(n[n.len() - 2] == punct_name(q)[n.len() - 2]);
    }
}

/// A token made of smaller tokens dumps under a name made of theirs: a
/// compound assignment is its operator's name and `Eq`, `..` is two `Dot`s,
/// `<=` and `>=` share their first letter with `<` and `>`.
pub proof fn law_compound_assignment_names()
    ensures
        punct_name(Punct::PlusEq) == punct_name(Punct::Plus) + "Eq"@,
        punct_name(Punct::MinusEq) == punct_name(Punct::Minus) + "Eq"@,
        punct_name(Punct::StarEq) == punct_name(Punct::Star) + "Eq"@,
        punct_name(Punct::SlashEq) == punct_name(Punct::Slash) + "Eq"@,
        punct_name(Punct::EqEq) == punct_name(Punct::Eq) + "Eq"@,
        punct_name(Punct::DotDotEq) == punct_name(Punct::DotDot) + "Eq"@,
{
    reveal_strlit("PlusEq"); reveal_strlit("Plus"); reveal_strlit("MinusEq"); reveal_strlit("Minus");
    reveal_strlit("StarEq"); reveal_strlit("Star"); reveal_strlit("SlashEq"); reveal_strlit("Slash");
    reveal_strlit("EqEq"); reveal_strlit("Eq"); reveal_strlit("DotDotEq"); reveal_strlit("DotDot");
    assert(punct_name(Punct::PlusEq) =~= punct_name(Punct::Plus) + "Eq"@);
    assert(punct_name(Punct::MinusEq) =~= punct_name(Punct::Minus) + "Eq"@);
    assert(punct_name(Punct::StarEq) =~= punct_name(Punct::Star) + "Eq"@);
    assert(punct_name(Punct::SlashEq) =~= punct_name(Punct::Slash) + "Eq"@);
    assert(punct_name(Punct::EqEq) =~= punct_name(Punct::Eq) + "Eq"@);
    assert(punct_name(Punct::DotDotEq) =~= punct_name(Punct::DotDot) + "Eq"@);
}


/// Operators made of other operators dump under names made of theirs:
/// `..` is two `Dot`s, `!=` is `Not` and `Eq`, `<=` and `>=` share their
/// first letter with `<` and `>` and their last with each other.
pub proof fn law_composite_punct_names()
    ensures
        punct_name(Punct::DotDot) == punct_name(Punct::Dot) + punct_name(Punct::Dot),
        punct_name(Punct::QuestionQuestion) == punct_name(Punct::Question) + punct_name(Punct::Question),
        punct_name(Punct::QuestionDot) == punct_name(Punct::Question) + punct_name(Punct::Dot),
        punct_name(Punct::NotEq) == "Not"@ + punct_name(Punct::Eq),
        punct_name(Punct::FatArrow) == "Fat"@ + punct_name(Punct::Arrow),
        punct_name(Punct::HashLBrace) == "Hash"@ + punct_name(Punct::LBrace),
        punct_name(Punct::Le).take(1) == punct_name(Punct::Lt).take(1),
        punct_name(Punct::Ge).take(1) == punct_name(Punct::Gt).take(1),
        punct_name(Punct::Le).skip(1) == punct_name(Punct::Ge).skip(1),
        punct_name(Punct::Lt).skip(1) == punct_name(Punct::Gt).skip(1),
{
    assert(punct_name(Punct::DotDot) =~= punct_name(Punct::Dot) + punct_name(Punct::Dot)) by {
        reveal_strlit("DotDot"); reveal_strlit("Dot");
    }
    assert(punct_name(Punct::QuestionQuestion) =~= punct_name(Punct::Question) + punct_name(Punct::Question)) by {
        reveal_strlit("QuestionQuestion"); reveal_strlit("Question");
    }
    assert(punct_name(Punct::QuestionDot) =~= punct_name(Punct::Question) + punct_name(Punct::Dot)) by {
        reveal_strlit("QuestionDot"); reveal_strlit("Question"); reveal_strlit("Dot");
    }
    assert(punct_name(Punct::NotEq) =~= "Not"@ + punct_name(Punct::Eq)) by {
        reveal_strlit("NotEq"); reveal_strlit("Not"); reveal_strlit("Eq");
    }
    assert(punct_name(Punct::FatArrow) =~= "Fat"@ + punct_name(Punct::Arrow)) by {
        reveal_strlit("FatArrow"); reveal_strlit("Fat"); reveal_strlit("Arrow");
    }
    assert(punct_name(Punct::HashLBrace) =~= "Hash"@ + punct_name(Punct::LBrace)) by {
        reveal_strlit("HashLBrace"); reveal_strlit("Hash"); reveal_strlit("LBrace");
    }
    assert(punct_name(Punct::Le).take(1) =~= punct_name(Punct::Lt).take(1)
        && punct_name(Punct::Ge).take(1) =~= punct_name(Punct::Gt).take(1)
        && punct_name(Punct::Le).skip(1) =~= punct_name(Punct::Ge).skip(1)
        && punct_name(Punct::Lt).skip(1) =~= punct_name(Punct::Gt).skip(1)) by {
        reveal_strlit("Le"); reveal_strlit("Lt"); reveal_strlit("Ge"); reveal_strlit("Gt");
    }
}

} // verus!
