//! What the lexer produces and the parser consumes.
use crate::diag::Span;
use crate::text::str_eq;
use vstd::prelude::*;

verus! {

#[derive(Debug)]
pub struct Token {
    pub kind: TokenKind,
    pub span: Span,
}

/// A token's kind. A float literal keeps its source text: the language never
/// computes on one, and `0.10` and `0.1` are told apart only by whoever turns it
/// into a number.
#[derive(Debug, Clone, PartialEq)]
pub enum TokenKind {
    // literals and names
    Identifier(String),
    Number(i64),
    Float(String),
    /// Contents only — the surrounding quotes are not kept.
    Str(String),
    Rule,
    Priority,
    Category,
    Exclusive,
    Do,
    Require,
    Because,
    Let,
    And,
    Or,
    Not,
    Exists,
    Param,
    Def,
    IntType,
    FloatType,
    LParen,
    RParen,
    LBrace,
    RBrace,
    Comma,
    Colon,
    Plus,
    Minus,
    Asterisk,
    Slash,
    Eq,
    EqEq,
    NotEq,
    Lt,
    LtEq,
    Gt,
    GtEq,
    Eof,
}

/// A token kind as a specification sees it: text as characters.
pub enum TokenView {
    Identifier(Seq<char>),
    Number(int),
    Float(Seq<char>),
    Str(Seq<char>),
    Rule,
    Priority,
    Category,
    Exclusive,
    Do,
    Require,
    Because,
    Let,
    And,
    Or,
    Not,
    Exists,
    Param,
    Def,
    IntType,
    FloatType,
    LParen,
    RParen,
    LBrace,
    RBrace,
    Comma,
    Colon,
    Plus,
    Minus,
    Asterisk,
    Slash,
    Eq,
    EqEq,
    NotEq,
    Lt,
    LtEq,
    Gt,
    GtEq,
    Eof,
}

pub open spec fn kind_view(k: TokenKind) -> TokenView {
    match k {
        TokenKind::Identifier(s) => TokenView::Identifier(s@),
        TokenKind::Number(n) => TokenView::Number(n as int),
        TokenKind::Float(s) => TokenView::Float(s@),
        TokenKind::Str(s) => TokenView::Str(s@),
        TokenKind::Rule => TokenView::Rule,
        TokenKind::Priority => TokenView::Priority,
        TokenKind::Category => TokenView::Category,
        TokenKind::Exclusive => TokenView::Exclusive,
        TokenKind::Do => TokenView::Do,
        TokenKind::Require => TokenView::Require,
        TokenKind::Because => TokenView::Because,
        TokenKind::Let => TokenView::Let,
        TokenKind::And => TokenView::And,
        TokenKind::Or => TokenView::Or,
        TokenKind::Not => TokenView::Not,
        TokenKind::Exists => TokenView::Exists,
        TokenKind::Param => TokenView::Param,
        TokenKind::Def => TokenView::Def,
        TokenKind::IntType => TokenView::IntType,
        TokenKind::FloatType => TokenView::FloatType,
        TokenKind::LParen => TokenView::LParen,
        TokenKind::RParen => TokenView::RParen,
        TokenKind::LBrace => TokenView::LBrace,
        TokenKind::RBrace => TokenView::RBrace,
        TokenKind::Comma => TokenView::Comma,
        TokenKind::Colon => TokenView::Colon,
        TokenKind::Plus => TokenView::Plus,
        TokenKind::Minus => TokenView::Minus,
        TokenKind::Asterisk => TokenView::Asterisk,
        TokenKind::Slash => TokenView::Slash,
        TokenKind::Eq => TokenView::Eq,
        TokenKind::EqEq => TokenView::EqEq,
        TokenKind::NotEq => TokenView::NotEq,
        TokenKind::Lt => TokenView::Lt,
        TokenKind::LtEq => TokenView::LtEq,
        TokenKind::Gt => TokenView::Gt,
        TokenKind::GtEq => TokenView::GtEq,
        TokenKind::Eof => TokenView::Eof,
    }
}

/// A token kind without its payload, for comparing kinds.
#[derive(Debug, Clone, Copy, PartialEq, Eq, Structural)]
pub enum Tag {
    Identifier,
    Number,
    Float,
    Str,
    Rule,
    Priority,
    Category,
    Exclusive,
    Do,
    Require,
    Because,
    Let,
    And,
    Or,
    Not,
    Exists,
    Param,
    Def,
    IntType,
    FloatType,
    LParen,
    RParen,
    LBrace,
    RBrace,
    Comma,
    Colon,
    Plus,
    Minus,
    Asterisk,
    Slash,
    Eq,
    EqEq,
    NotEq,
    Lt,
    LtEq,
    Gt,
    GtEq,
    Eof,
}

pub open spec fn tag_of(k: TokenKind) -> Tag {
    match k {
        TokenKind::Identifier(_) => Tag::Identifier,
        TokenKind::Number(_) => Tag::Number,
        TokenKind::Float(_) => Tag::Float,
        TokenKind::Str(_) => Tag::Str,
        TokenKind::Rule => Tag::Rule,
        TokenKind::Priority => Tag::Priority,
        TokenKind::Category => Tag::Category,
        TokenKind::Exclusive => Tag::Exclusive,
        TokenKind::Do => Tag::Do,
        TokenKind::Require => Tag::Require,
        TokenKind::Because => Tag::Because,
        TokenKind::Let => Tag::Let,
        TokenKind::And => Tag::And,
        TokenKind::Or => Tag::Or,
        TokenKind::Not => Tag::Not,
        TokenKind::Exists => Tag::Exists,
        TokenKind::Param => Tag::Param,
        TokenKind::Def => Tag::Def,
        TokenKind::IntType => Tag::IntType,
        TokenKind::FloatType => Tag::FloatType,
        TokenKind::LParen => Tag::LParen,
        TokenKind::RParen => Tag::RParen,
        TokenKind::LBrace => Tag::LBrace,
        TokenKind::RBrace => Tag::RBrace,
        TokenKind::Comma => Tag::Comma,
        TokenKind::Colon => Tag::Colon,
        TokenKind::Plus => Tag::Plus,
        TokenKind::Minus => Tag::Minus,
        TokenKind::Asterisk => Tag::Asterisk,
        TokenKind::Slash => Tag::Slash,
        TokenKind::Eq => Tag::Eq,
        TokenKind::EqEq => Tag::EqEq,
        TokenKind::NotEq => Tag::NotEq,
        TokenKind::Lt => Tag::Lt,
        TokenKind::LtEq => Tag::LtEq,
        TokenKind::Gt => Tag::Gt,
        TokenKind::GtEq => Tag::GtEq,
        TokenKind::Eof => Tag::Eof,
    }
}

/// The tag of a token as a specification sees it.
pub open spec fn view_tag(k: TokenView) -> Tag {
    match k {
        TokenView::Identifier(_) => Tag::Identifier,
        TokenView::Number(_) => Tag::Number,
        TokenView::Float(_) => Tag::Float,
        TokenView::Str(_) => Tag::Str,
        TokenView::Rule => Tag::Rule,
        TokenView::Priority => Tag::Priority,
        TokenView::Category => Tag::Category,
        TokenView::Exclusive => Tag::Exclusive,
        TokenView::Do => Tag::Do,
        TokenView::Require => Tag::Require,
        TokenView::Because => Tag::Because,
        TokenView::Let => Tag::Let,
        TokenView::And => Tag::And,
        TokenView::Or => Tag::Or,
        TokenView::Not => Tag::Not,
        TokenView::Exists => Tag::Exists,
        TokenView::Param => Tag::Param,
        TokenView::Def => Tag::Def,
        TokenView::IntType => Tag::IntType,
        TokenView::FloatType => Tag::FloatType,
        TokenView::LParen => Tag::LParen,
        TokenView::RParen => Tag::RParen,
        TokenView::LBrace => Tag::LBrace,
        TokenView::RBrace => Tag::RBrace,
        TokenView::Comma => Tag::Comma,
        TokenView::Colon => Tag::Colon,
        TokenView::Plus => Tag::Plus,
        TokenView::Minus => Tag::Minus,
        TokenView::Asterisk => Tag::Asterisk,
        TokenView::Slash => Tag::Slash,
        TokenView::Eq => Tag::Eq,
        TokenView::EqEq => Tag::EqEq,
        TokenView::NotEq => Tag::NotEq,
        TokenView::Lt => Tag::Lt,
        TokenView::LtEq => Tag::LtEq,
        TokenView::Gt => Tag::Gt,
        TokenView::GtEq => Tag::GtEq,
        TokenView::Eof => Tag::Eof,
    }
}

/// A token's tag is the tag of its view.
pub broadcast proof fn lemma_view_tag(k: TokenKind)
    ensures
        #[trigger] view_tag(kind_view(k)) == tag_of(k),
{
}

/// The keyword an identifier spells, if any.
pub open spec fn keyword_spec(s: Seq<char>) -> Option<TokenView> {
    if s == "rule"@ {
        Some(TokenView::Rule)
    } else if s == "priority"@ {
        Some(TokenView::Priority)
    } else if s == "category"@ {
        Some(TokenView::Category)
    } else if s == "exclusive"@ {
        Some(TokenView::Exclusive)
    } else if s == "do"@ {
        Some(TokenView::Do)
    } else if s == "require"@ {
        Some(TokenView::Require)
    } else if s == "because"@ {
        Some(TokenView::Because)
    } else if s == "let"@ {
        Some(TokenView::Let)
    } else if s == "and"@ {
        Some(TokenView::And)
    } else if s == "or"@ {
        Some(TokenView::Or)
    } else if s == "not"@ {
        Some(TokenView::Not)
    } else if s == "exists"@ {
        Some(TokenView::Exists)
    } else if s == "param"@ {
        Some(TokenView::Param)
    } else if s == "def"@ {
        Some(TokenView::Def)
    } else if s == "int"@ {
        Some(TokenView::IntType)
    } else if s == "float"@ {
        Some(TokenView::FloatType)
    } else {
        None
    }
}

/// Every keyword's spelling.
pub open spec fn keyword_list() -> Seq<Seq<char>> {
    seq!["rule"@, "priority"@, "category"@, "exclusive"@, "do"@, "require"@, "because"@, "let"@, "and"@, "or"@, "not"@, "exists"@, "param"@, "def"@, "int"@, "float"@]
}

/// Every operator's spelling, longest first.
pub open spec fn operator_list() -> Seq<Seq<char>> {
    seq!["<="@, ">="@, "=="@, "!="@, "<"@, ">"@, "+"@, "-"@, "*"@, "/"@, "="@]
}

/// Every other fixed spelling.
pub open spec fn punctuation_list() -> Seq<Seq<char>> {
    seq!["{"@, "}"@, "("@, ")"@, ","@, ":"@]
}

impl TokenKind {
    /// This kind without its payload.
    pub fn tag(&self) -> (t: Tag)
        ensures
            t == tag_of(*self),
    {
        match self {
            TokenKind::Identifier(_) => Tag::Identifier,
            TokenKind::Number(_) => Tag::Number,
            TokenKind::Float(_) => Tag::Float,
            TokenKind::Str(_) => Tag::Str,
            TokenKind::Rule => Tag::Rule,
            TokenKind::Priority => Tag::Priority,
            TokenKind::Category => Tag::Category,
            TokenKind::Exclusive => Tag::Exclusive,
            TokenKind::Do => Tag::Do,
            TokenKind::Require => Tag::Require,
            TokenKind::Because => Tag::Because,
            TokenKind::Let => Tag::Let,
            TokenKind::And => Tag::And,
            TokenKind::Or => Tag::Or,
            TokenKind::Not => Tag::Not,
            TokenKind::Exists => Tag::Exists,
            TokenKind::Param => Tag::Param,
            TokenKind::Def => Tag::Def,
            TokenKind::IntType => Tag::IntType,
            TokenKind::FloatType => Tag::FloatType,
            TokenKind::LParen => Tag::LParen,
            TokenKind::RParen => Tag::RParen,
            TokenKind::LBrace => Tag::LBrace,
            TokenKind::RBrace => Tag::RBrace,
            TokenKind::Comma => Tag::Comma,
            TokenKind::Colon => Tag::Colon,
            TokenKind::Plus => Tag::Plus,
            TokenKind::Minus => Tag::Minus,
            TokenKind::Asterisk => Tag::Asterisk,
            TokenKind::Slash => Tag::Slash,
            TokenKind::Eq => Tag::Eq,
            TokenKind::EqEq => Tag::EqEq,
            TokenKind::NotEq => Tag::NotEq,
            TokenKind::Lt => Tag::Lt,
            TokenKind::LtEq => Tag::LtEq,
            TokenKind::Gt => Tag::Gt,
            TokenKind::GtEq => Tag::GtEq,
            TokenKind::Eof => Tag::Eof,
        }
    }

    /// Maps an already-scanned identifier to its keyword kind, if it is one.
    pub fn keyword(s: &str) -> (r: Option<TokenKind>)
        ensures
            match (r, keyword_spec(s@)) {
                (Some(k), Some(v)) => kind_view(k) == v,
                (None, None) => true,
                _ => false,
            },
    {
        if str_eq(s, "rule") {
            Some(TokenKind::Rule)
        } else if str_eq(s, "priority") {
            Some(TokenKind::Priority)
        } else if str_eq(s, "category") {
            Some(TokenKind::Category)
        } else if str_eq(s, "exclusive") {
            Some(TokenKind::Exclusive)
        } else if str_eq(s, "do") {
            Some(TokenKind::Do)
        } else if str_eq(s, "require") {
            Some(TokenKind::Require)
        } else if str_eq(s, "because") {
            Some(TokenKind::Because)
        } else if str_eq(s, "let") {
            Some(TokenKind::Let)
        } else if str_eq(s, "and") {
            Some(TokenKind::And)
        } else if str_eq(s, "or") {
            Some(TokenKind::Or)
        } else if str_eq(s, "not") {
            Some(TokenKind::Not)
        } else if str_eq(s, "exists") {
            Some(TokenKind::Exists)
        } else if str_eq(s, "param") {
            Some(TokenKind::Param)
        } else if str_eq(s, "def") {
            Some(TokenKind::Def)
        } else if str_eq(s, "int") {
            Some(TokenKind::IntType)
        } else if str_eq(s, "float") {
            Some(TokenKind::FloatType)
        } else {
            None
        }
    }

    /// Every keyword, for anything that needs the list rather than the lookup.
    pub fn keywords() -> (v: Vec<&'static str>)
        ensures
            v@.len() == keyword_list().len(),
            forall|i: int| 0 <= i < v@.len() ==> (#[trigger] v@[i])@ == keyword_list()[i],
    {
        let mut v: Vec<&'static str> = Vec::new();
        v.push("rule");
        v.push("priority");
        v.push("category");
        v.push("exclusive");
        v.push("do");
        v.push("require");
        v.push("because");
        v.push("let");
        v.push("and");
        v.push("or");
        v.push("not");
        v.push("exists");
        v.push("param");
        v.push("def");
        v.push("int");
        v.push("float");
        v
    }

    /// The operators, longest first — the order a lexer must try them in, so
    /// `<=` is not read as `<` followed by `=`.
    pub fn operators() -> (v: Vec<&'static str>)
        ensures
            v@.len() == operator_list().len(),
            forall|i: int| 0 <= i < v@.len() ==> (#[trigger] v@[i])@ == operator_list()[i],
    {
        let mut v: Vec<&'static str> = Vec::new();
        v.push("<=");
        v.push(">=");
        v.push("==");
        v.push("!=");
        v.push("<");
        v.push(">");
        v.push("+");
        v.push("-");
        v.push("*");
        v.push("/");
        v.push("=");
        v
    }

    /// Everything else with a fixed spelling.
    pub fn punctuation() -> (v: Vec<&'static str>)
        ensures
            v@.len() == punctuation_list().len(),
            forall|i: int| 0 <= i < v@.len() ==> (#[trigger] v@[i])@ == punctuation_list()[i],
    {
        let mut v: Vec<&'static str> = Vec::new();
        v.push("{");
        v.push("}");
        v.push("(");
        v.push(")");
        v.push(",");
        v.push(":");
        v
    }
}

/// The keyword list and the keyword lookup agree: every listed spelling is a
/// keyword, and every keyword is listed.
pub proof fn keywords_match_the_lookup()
    ensures
        forall|i: int| 0 <= i < keyword_list().len() ==> (#[trigger] keyword_spec(keyword_list()[i])) is Some,
        forall|s: Seq<char>| (#[trigger] keyword_spec(s)) is Some ==> keyword_list().contains(s),
{
    assert forall|s: Seq<char>| (#[trigger] keyword_spec(s)) is Some implies keyword_list().contains(s) by {
        if s == "rule"@ {
            assert(keyword_list()[0] == s);
        }
        if s == "priority"@ {
            assert(keyword_list()[1] == s);
        }
        if s == "category"@ {
            assert(keyword_list()[2] == s);
        }
        if s == "exclusive"@ {
            assert(keyword_list()[3] == s);
        }
        if s == "do"@ {
            assert(keyword_list()[4] == s);
        }
        if s == "require"@ {
            assert(keyword_list()[5] == s);
        }
        if s == "because"@ {
            assert(keyword_list()[6] == s);
        }
        if s == "let"@ {
            assert(keyword_list()[7] == s);
        }
        if s == "and"@ {
            assert(keyword_list()[8] == s);
        }
        if s == "or"@ {
            assert(keyword_list()[9] == s);
        }
        if s == "not"@ {
            assert(keyword_list()[10] == s);
        }
        if s == "exists"@ {
            assert(keyword_list()[11] == s);
        }
        if s == "param"@ {
            assert(keyword_list()[12] == s);
        }
        if s == "def"@ {
            assert(keyword_list()[13] == s);
        }
        if s == "int"@ {
            assert(keyword_list()[14] == s);
        }
        if s == "float"@ {
            assert(keyword_list()[15] == s);
        }
    }
}

} // verus!
