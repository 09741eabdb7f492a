//! Tokens: what the lexer hands to the parser.
use crate::fractions::{append_fraction, fraction_text};
use crate::span::Span;
use crate::text::{append_dec, append_debug, append_int, dec_text, int_text, text_debug};
use vstd::prelude::*;

verus! {

/// A token.
#[derive(Debug, Clone, PartialEq)]
pub enum Tok {
    // Literals and names.
    Int(i64),
    /// A decimal fraction, as it is written: digits, a point, digits.
    Float(String),
    Str(String),
    /// A string with interpolated expressions, `"a {x} b"`.
    InterpStr(Vec<Segment>),
    Ident(String),
    // Keywords.
    Fn,
    Struct,
    Enum,
    Match,
    Import,
    Pub,
    Let,
    If,
    Else,
    While,
    For,
    In,
    Break,
    Continue,
    Return,
    Print,
    True,
    False,
    Null,
    // Punctuation.
    LParen, // (
    RParen, // )
    LBrace, // {
    RBrace, // }
    LBracket, // [
    RBracket, // ]
    Comma, // ,
    Semicolon, // ;
    Colon, // :
    Dot, // .
    // Operators.
    Assign, // =
    Plus,
    Minus,
    Star,
    Slash,
    Percent,
    PlusEq, // +=
    MinusEq, // -=
    StarEq, // *=
    SlashEq, // /=
    PercentEq, // %=
    EqEq, // ==
    NotEq, // !=
    Lt, // <
    Le, // <=
    Gt, // >
    Ge, // >=
    Bang, // !
    AmpAmp, // &&
    PipePipe, // ||
    Arrow, // ->
    FatArrow, // =>
    Amp, // &
    Pipe, // |
    Caret, // ^
    Tilde, // ~
    Shl, // <<
    Shr, // >>
    AmpEq, // &=
    PipeEq, // |=
    CaretEq, // ^=
    ShlEq, // <<=
    ShrEq, // >>=
    /// The end of the source.
    Eof,
}

/// A token and where it stands.
#[derive(Debug, Clone)]
pub struct Token {
    pub kind: Tok,
    pub span: Span,
}

/// A piece of an interpolated string. `"a {x+1} b"` is made of the literal `a `, the
/// expression `x+1` and the literal ` b`.
#[derive(Debug, Clone, PartialEq)]
pub enum Segment {
    /// Literal text, with escapes and doubled braces resolved.
    Lit(String),
    /// The source between `{` and `}`, and the byte offset in the file at which it starts.
    Expr { src: String, offset: usize },
}

/// What a [`Segment`] stands for.
pub ghost enum SegmentV {
    Lit(Seq<char>),
    Expr { src: Seq<char>, offset: usize },
}

/// What a [`Tok`] stands for. A token that carries nothing stands for itself.
pub ghost enum TokV {
    Int(i64),
    Float(Seq<char>),
    Str(Seq<char>),
    InterpStr(Seq<SegmentV>),
    Ident(Seq<char>),
    Sym(Tok),
}

/// What a [`Token`] stands for.
pub ghost struct TokenV {
    pub kind: TokV,
    pub span: Span,
}

impl View for Segment {
    type V = SegmentV;

    open spec fn view(&self) -> SegmentV {
        match self {
            Segment::Lit(s) => SegmentV::Lit(s@),
            Segment::Expr { src, offset } => SegmentV::Expr { src: src@, offset: *offset },
        }
    }
}

/// What a row of segments stands for.
pub open spec fn segments_view(s: Seq<Segment>) -> Seq<SegmentV> {
    Seq::new(s.len(), |i: int| s[i]@)
}

impl View for Tok {
    type V = TokV;

    open spec fn view(&self) -> TokV {
        match self {
            Tok::Int(n) => TokV::Int(*n),
            Tok::Float(s) => TokV::Float(s@),
            Tok::Str(s) => TokV::Str(s@),
            Tok::InterpStr(segs) => TokV::InterpStr(segments_view(segs@)),
            Tok::Ident(s) => TokV::Ident(s@),
            other => TokV::Sym(*other),
        }
    }
}

impl View for Token {
    type V = TokenV;

    open spec fn view(&self) -> TokenV {
        TokenV { kind: self.kind@, span: self.span }
    }
}

/// What a row of tokens stands for.
pub open spec fn tokens_view(s: Seq<Token>) -> Seq<TokenV> {
    Seq::new(s.len(), |i: int| s[i]@)
}

/// A token that carries nothing: a keyword, punctuation, an operator or the end.
pub open spec fn is_sym(t: Tok) -> bool {
    !(t is Int || t is Float || t is Str || t is InterpStr || t is Ident)
}

/// The name of a token that carries nothing, as messages show it.
pub open spec fn sym_text(t: Tok) -> Seq<char> {
    match t {
        Tok::Fn => "Fn"@,
        Tok::Struct => "Struct"@,
        Tok::Enum => "Enum"@,
        Tok::Match => "Match"@,
        Tok::Import => "Import"@,
        Tok::Pub => "Pub"@,
        Tok::Let => "Let"@,
        Tok::If => "If"@,
        Tok::Else => "Else"@,
        Tok::While => "While"@,
        Tok::For => "For"@,
        Tok::In => "In"@,
        Tok::Break => "Break"@,
        Tok::Continue => "Continue"@,
        Tok::Return => "Return"@,
        Tok::Print => "Print"@,
        Tok::True => "True"@,
        Tok::False => "False"@,
        Tok::Null => "Null"@,
        Tok::LParen => "LParen"@,
        Tok::RParen => "RParen"@,
        Tok::LBrace => "LBrace"@,
        Tok::RBrace => "RBrace"@,
        Tok::LBracket => "LBracket"@,
        Tok::RBracket => "RBracket"@,
        Tok::Comma => "Comma"@,
        Tok::Semicolon => "Semicolon"@,
        Tok::Colon => "Colon"@,
        Tok::Dot => "Dot"@,
        Tok::Assign => "Assign"@,
        Tok::Plus => "Plus"@,
        Tok::Minus => "Minus"@,
        Tok::Star => "Star"@,
        Tok::Slash => "Slash"@,
        Tok::Percent => "Percent"@,
        Tok::PlusEq => "PlusEq"@,
        Tok::MinusEq => "MinusEq"@,
        Tok::StarEq => "StarEq"@,
        Tok::SlashEq => "SlashEq"@,
        Tok::PercentEq => "PercentEq"@,
        Tok::EqEq => "EqEq"@,
        Tok::NotEq => "NotEq"@,
        Tok::Lt => "Lt"@,
        Tok::Le => "Le"@,
        Tok::Gt => "Gt"@,
        Tok::Ge => "Ge"@,
        Tok::Bang => "Bang"@,
        Tok::AmpAmp => "AmpAmp"@,
        Tok::PipePipe => "PipePipe"@,
        Tok::Arrow => "Arrow"@,
        Tok::FatArrow => "FatArrow"@,
        Tok::Amp => "Amp"@,
        Tok::Pipe => "Pipe"@,
        Tok::Caret => "Caret"@,
        Tok::Tilde => "Tilde"@,
        Tok::Shl => "Shl"@,
        Tok::Shr => "Shr"@,
        Tok::AmpEq => "AmpEq"@,
        Tok::PipeEq => "PipeEq"@,
        Tok::CaretEq => "CaretEq"@,
        Tok::ShlEq => "ShlEq"@,
        Tok::ShrEq => "ShrEq"@,
        Tok::Eof => "Eof"@,
        _ => Seq::empty(),
    }
}

/// A segment as messages show it.
pub open spec fn segment_text(s: SegmentV) -> Seq<char> {
    match s {
        SegmentV::Lit(t) => "Lit("@ + text_debug(t) + ")"@,
        SegmentV::Expr { src, offset } => "Expr { src: "@ + text_debug(src) + ", offset: "@
            + dec_text(offset as nat) + " }"@,
    }
}

/// Segments as messages show them, separated by commas.
pub open spec fn segments_text(s: Seq<SegmentV>) -> Seq<char>
    decreases s.len(),
{
    if s.len() == 0 {
        Seq::empty()
    } else if s.len() == 1 {
        segment_text(s[0])
    } else {
        segments_text(s.drop_last()) + ", "@ + segment_text(s.last())
    }
}

/// A token as messages show it.
pub open spec fn tok_text(t: TokV) -> Seq<char> {
    match t {
        TokV::Int(n) => "Int("@ + int_text(n as int) + ")"@,
        TokV::Float(s) => "Float("@ + fraction_text(s) + ")"@,
        TokV::Str(s) => "Str("@ + text_debug(s) + ")"@,
        TokV::InterpStr(segs) => "InterpStr(["@ + segments_text(segs) + "])"@,
        TokV::Ident(s) => "Ident("@ + text_debug(s) + ")"@,
        TokV::Sym(s) => sym_text(s),
    }
}

fn sym_name(t: &Tok) -> (r: &'static str)
    requires
        is_sym(*t),
    ensures
        r@ == sym_text(*t),
{
    match t {
        Tok::Fn => "Fn",
        Tok::Struct => "Struct",
        Tok::Enum => "Enum",
        Tok::Match => "Match",
        Tok::Import => "Import",
        Tok::Pub => "Pub",
        Tok::Let => "Let",
        Tok::If => "If",
        Tok::Else => "Else",
        Tok::While => "While",
        Tok::For => "For",
        Tok::In => "In",
        Tok::Break => "Break",
        Tok::Continue => "Continue",
        Tok::Return => "Return",
        Tok::Print => "Print",
        Tok::True => "True",
        Tok::False => "False",
        Tok::Null => "Null",
        Tok::LParen => "LParen",
        Tok::RParen => "RParen",
        Tok::LBrace => "LBrace",
        Tok::RBrace => "RBrace",
        Tok::LBracket => "LBracket",
        Tok::RBracket => "RBracket",
        Tok::Comma => "Comma",
        Tok::Semicolon => "Semicolon",
        Tok::Colon => "Colon",
        Tok::Dot => "Dot",
        Tok::Assign => "Assign",
        Tok::Plus => "Plus",
        Tok::Minus => "Minus",
        Tok::Star => "Star",
        Tok::Slash => "Slash",
        Tok::Percent => "Percent",
        Tok::PlusEq => "PlusEq",
        Tok::MinusEq => "MinusEq",
        Tok::StarEq => "StarEq",
        Tok::SlashEq => "SlashEq",
        Tok::PercentEq => "PercentEq",
        Tok::EqEq => "EqEq",
        Tok::NotEq => "NotEq",
        Tok::Lt => "Lt",
        Tok::Le => "Le",
        Tok::Gt => "Gt",
        Tok::Ge => "Ge",
        Tok::Bang => "Bang",
        Tok::AmpAmp => "AmpAmp",
        Tok::PipePipe => "PipePipe",
        Tok::Arrow => "Arrow",
        Tok::FatArrow => "FatArrow",
        Tok::Amp => "Amp",
        Tok::Pipe => "Pipe",
        Tok::Caret => "Caret",
        Tok::Tilde => "Tilde",
        Tok::Shl => "Shl",
        Tok::Shr => "Shr",
        Tok::AmpEq => "AmpEq",
        Tok::PipeEq => "PipeEq",
        Tok::CaretEq => "CaretEq",
        Tok::ShlEq => "ShlEq",
        Tok::ShrEq => "ShrEq",
        Tok::Eof => "Eof",
        _ => "",
    }
}

fn append_segment(out: &mut String, s: &Segment)
    ensures
        final(out)@ == old(out)@ + segment_text(s@),
{
    match s {
        Segment::Lit(t) => {
            out.append("Lit(");
            append_debug(out, t.as_str());
            out.append(")");
        },
        Segment::Expr { src, offset } => {
            out.append("Expr { src: ");
            append_debug(out, src.as_str());
            out.append(", offset: ");
            append_dec(out, *offset as u64);
            out.append(" }");
        },
    }
    proof {
        assert(out@ =~= old(out)@ + segment_text(s@));
    }
}

impl Tok {
    /// The token as messages show it.
    pub fn describe(&self) -> (r: String)
        ensures
            r@ == tok_text(self@),
    {
        let mut out = String::new();
        match self {
            Tok::Int(n) => {
                out.append("Int(");
                append_int(&mut out, *n);
                out.append(")");
            },
            Tok::Float(s) => {
                out.append("Float(");
                append_fraction(&mut out, s.as_str());
                out.append(")");
            },
            Tok::Str(s) => {
                out.append("Str(");
                append_debug(&mut out, s.as_str());
                out.append(")");
            },
            Tok::InterpStr(segs) => {
                out.append("InterpStr([");
                let ghost all = segments_view(segs@);
                let mut i: usize = 0;
                while i < segs.len()
                    invariant
                        0 <= i <= segs.len(),
                        all == segments_view(segs@),
                        out@ == "InterpStr(["@ + segments_text(all.take(i as int)),
                    decreases segs.len() - i,
                {
                    let ghost before = out@;
                    if i > 0 {
                        out.append(", ");
                    }
                    append_segment(&mut out, &segs[i]);
                    proof {
                        let next = all.take(i + 1);
                        assert(next.drop_last() =~= all.take(i as int));
                        assert(next.last() == segs[i as int]@);
                        if i == 0 {
                            assert(next[0] == segs[0]@);
                            assert(all.take(0) =~= Seq::empty());
                        }
                        assert(out@ =~= "InterpStr(["@ + segments_text(next));
                    }
                    i += 1;
                }
                assert(all.take(i as int) =~= all);
                out.append("])");
            },
            Tok::Ident(s) => {
                out.append("Ident(");
                append_debug(&mut out, s.as_str());
                out.append(")");
            },
            other => {
                out.append(sym_name(other));
            },
        }
        assert(out@ =~= tok_text(self@));
        out
    }

    /// Whether the token is `sym`, which carries nothing.
    pub fn is(&self, sym: &Tok) -> (r: bool)
        requires
            is_sym(*sym),
        ensures
            r == (self@ == TokV::Sym(*sym)),
    {
        match (self, sym) {
            (Tok::Fn, Tok::Fn) => true,
            (Tok::Struct, Tok::Struct) => true,
            (Tok::Enum, Tok::Enum) => true,
            (Tok::Match, Tok::Match) => true,
            (Tok::Import, Tok::Import) => true,
            (Tok::Pub, Tok::Pub) => true,
            (Tok::Let, Tok::Let) => true,
            (Tok::If, Tok::If) => true,
            (Tok::Else, Tok::Else) => true,
            (Tok::While, Tok::While) => true,
            (Tok::For, Tok::For) => true,
            (Tok::In, Tok::In) => true,
            (Tok::Break, Tok::Break) => true,
            (Tok::Continue, Tok::Continue) => true,
            (Tok::Return, Tok::Return) => true,
            (Tok::Print, Tok::Print) => true,
            (Tok::True, Tok::True) => true,
            (Tok::False, Tok::False) => true,
            (Tok::Null, Tok::Null) => true,
            (Tok::LParen, Tok::LParen) => true,
            (Tok::RParen, Tok::RParen) => true,
            (Tok::LBrace, Tok::LBrace) => true,
            (Tok::RBrace, Tok::RBrace) => true,
            (Tok::LBracket, Tok::LBracket) => true,
            (Tok::RBracket, Tok::RBracket) => true,
            (Tok::Comma, Tok::Comma) => true,
            (Tok::Semicolon, Tok::Semicolon) => true,
            (Tok::Colon, Tok::Colon) => true,
            (Tok::Dot, Tok::Dot) => true,
            (Tok::Assign, Tok::Assign) => true,
            (Tok::Plus, Tok::Plus) => true,
            (Tok::Minus, Tok::Minus) => true,
            (Tok::Star, Tok::Star) => true,
            (Tok::Slash, Tok::Slash) => true,
            (Tok::Percent, Tok::Percent) => true,
            (Tok::PlusEq, Tok::PlusEq) => true,
            (Tok::MinusEq, Tok::MinusEq) => true,
            (Tok::StarEq, Tok::StarEq) => true,
            (Tok::SlashEq, Tok::SlashEq) => true,
            (Tok::PercentEq, Tok::PercentEq) => true,
            (Tok::EqEq, Tok::EqEq) => true,
            (Tok::NotEq, Tok::NotEq) => true,
            (Tok::Lt, Tok::Lt) => true,
            (Tok::Le, Tok::Le) => true,
            (Tok::Gt, Tok::Gt) => true,
            (Tok::Ge, Tok::Ge) => true,
            (Tok::Bang, Tok::Bang) => true,
            (Tok::AmpAmp, Tok::AmpAmp) => true,
            (Tok::PipePipe, Tok::PipePipe) => true,
            (Tok::Arrow, Tok::Arrow) => true,
            (Tok::FatArrow, Tok::FatArrow) => true,
            (Tok::Amp, Tok::Amp) => true,
            (Tok::Pipe, Tok::Pipe) => true,
            (Tok::Caret, Tok::Caret) => true,
            (Tok::Tilde, Tok::Tilde) => true,
            (Tok::Shl, Tok::Shl) => true,
            (Tok::Shr, Tok::Shr) => true,
            (Tok::AmpEq, Tok::AmpEq) => true,
            (Tok::PipeEq, Tok::PipeEq) => true,
            (Tok::CaretEq, Tok::CaretEq) => true,
            (Tok::ShlEq, Tok::ShlEq) => true,
            (Tok::ShrEq, Tok::ShrEq) => true,
            (Tok::Eof, Tok::Eof) => true,
            _ => false,
        }
    }
}

} // verus!
