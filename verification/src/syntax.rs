//! The kinds of tokens and nodes.

use vstd::prelude::*;

verus! {

/// One flat set of tags for both the leaves (tokens) and the interior nodes
/// of a syntax tree.
///
/// The variants from [`HoconSyntaxKind::Root`] to
/// [`HoconSyntaxKind::Inclusion`] tag nodes, all others tag tokens; the two
/// groups never overlap (see [`HoconSyntaxKind::is_token`] and
/// [`HoconSyntaxKind::is_node`]).
#[derive(Debug, Clone, Copy, PartialEq, Eq, PartialOrd, Ord, Hash, Structural)]
pub enum HoconSyntaxKind {
    // Tokens
    /// A run of blanks other than line feeds.
    HorizontalWhitespace,
    /// `\n` or `\r\n`.
    LineEnding,
    /// `,`
    Comma,
    /// `=`
    Equals,
    /// `+`
    Plus,
    /// `:`
    Colon,
    /// A bare word, a quoted string or a multi-line string.
    Ident,
    /// `[`
    LeftBracket,
    /// `]`
    RightBracket,
    /// `{`
    LeftBrace,
    /// `}`
    RightBrace,
    /// `#` up to the end of the line.
    HashComment,
    /// `//` up to the end of the line.
    SlashComment,
    /// `$`
    Dollar,
    /// `?`
    QuestionMark,
    /// `.`
    Dot,
    /// Input that no rule accepts, or a token in a place where the grammar
    /// has no use for it.
    Error,
    Bool,
    /// An integer or a decimal number.
    Number,
    UnquotedString,
    QuotedString,
    MultilineString,
    LeftParen,
    RightParen,
    Include,
    Required,
    File,
    Url,
    Classpath,
    // Nodes
    /// The whole document.
    Root,
    /// A key, an optional separator and a value.
    Entry,
    /// The key of an entry.
    Key,
    /// The value of an entry or an element of an array.
    Value,
    /// `{ ... }`
    Object,
    /// `[ ... ]`
    Array,
    /// `${ ... }`
    Substitution,
    /// A dotted path such as `a.b.c`.
    PathExpression,
    Inclusion,
    // One more token
    /// `${` or `${?`.
    SubstitutionStart,
}

/// The largest number that [`HoconSyntaxKind::to_raw`] returns.
pub const LAST_RAW_KIND: u16 = 38;

/// The number under which the first kind of node is stored.
pub const FIRST_RAW_NODE: u16 = 29;

/// The number under which the last kind of node is stored.
pub const LAST_RAW_NODE: u16 = 37;

/// Whether a kind of node is stored under `raw`.
pub open spec fn is_raw_node(raw: u16) -> bool {
    FIRST_RAW_NODE <= raw <= LAST_RAW_NODE
}

/// Whether a kind of token is stored under `raw`.
pub open spec fn is_raw_token(raw: u16) -> bool {
    raw <= LAST_RAW_KIND && !is_raw_node(raw)
}

impl HoconSyntaxKind {
    /// The number under which the kind is stored in a tree: the position of
    /// the variant in the declaration, 0 to 28 for the tokens up to
    /// `Classpath`, 29 to 37 for the nodes and 38 for `SubstitutionStart`.
    pub open spec fn raw(self) -> u16 {
        match self {
            HoconSyntaxKind::HorizontalWhitespace => 0,
            HoconSyntaxKind::LineEnding => 1,
            HoconSyntaxKind::Comma => 2,
            HoconSyntaxKind::Equals => 3,
            HoconSyntaxKind::Plus => 4,
            HoconSyntaxKind::Colon => 5,
            HoconSyntaxKind::Ident => 6,
            HoconSyntaxKind::LeftBracket => 7,
            HoconSyntaxKind::RightBracket => 8,
            HoconSyntaxKind::LeftBrace => 9,
            HoconSyntaxKind::RightBrace => 10,
            HoconSyntaxKind::HashComment => 11,
            HoconSyntaxKind::SlashComment => 12,
            HoconSyntaxKind::Dollar => 13,
            HoconSyntaxKind::QuestionMark => 14,
            HoconSyntaxKind::Dot => 15,
            HoconSyntaxKind::Error => 16,
            HoconSyntaxKind::Bool => 17,
            HoconSyntaxKind::Number => 18,
            HoconSyntaxKind::UnquotedString => 19,
            HoconSyntaxKind::QuotedString => 20,
            HoconSyntaxKind::MultilineString => 21,
            HoconSyntaxKind::LeftParen => 22,
            HoconSyntaxKind::RightParen => 23,
            HoconSyntaxKind::Include => 24,
            HoconSyntaxKind::Required => 25,
            HoconSyntaxKind::File => 26,
            HoconSyntaxKind::Url => 27,
            HoconSyntaxKind::Classpath => 28,
            HoconSyntaxKind::Root => 29,
            HoconSyntaxKind::Entry => 30,
            HoconSyntaxKind::Key => 31,
            HoconSyntaxKind::Value => 32,
            HoconSyntaxKind::Object => 33,
            HoconSyntaxKind::Array => 34,
            HoconSyntaxKind::Substitution => 35,
            HoconSyntaxKind::PathExpression => 36,
            HoconSyntaxKind::Inclusion => 37,
            HoconSyntaxKind::SubstitutionStart => 38,
        }
    }

    /// Whether the kind tags an interior node.
    pub open spec fn spec_is_node(self) -> bool {
        is_raw_node(self.raw())
    }

    /// Whether the kind tags a token.
    pub open spec fn spec_is_token(self) -> bool {
        !self.spec_is_node()
    }

    /// The number under which the kind is stored in a tree.
    pub fn to_raw(self) -> (raw: u16)
        ensures
            raw == self.raw(),
            raw <= LAST_RAW_KIND,
    {
        match self {
            HoconSyntaxKind::HorizontalWhitespace => 0,
            HoconSyntaxKind::LineEnding => 1,
            HoconSyntaxKind::Comma => 2,
            HoconSyntaxKind::Equals => 3,
            HoconSyntaxKind::Plus => 4,
            HoconSyntaxKind::Colon => 5,
            HoconSyntaxKind::Ident => 6,
            HoconSyntaxKind::LeftBracket => 7,
            HoconSyntaxKind::RightBracket => 8,
            HoconSyntaxKind::LeftBrace => 9,
            HoconSyntaxKind::RightBrace => 10,
            HoconSyntaxKind::HashComment => 11,
            HoconSyntaxKind::SlashComment => 12,
            HoconSyntaxKind::Dollar => 13,
            HoconSyntaxKind::QuestionMark => 14,
            HoconSyntaxKind::Dot => 15,
            HoconSyntaxKind::Error => 16,
            HoconSyntaxKind::Bool => 17,
            HoconSyntaxKind::Number => 18,
            HoconSyntaxKind::UnquotedString => 19,
            HoconSyntaxKind::QuotedString => 20,
            HoconSyntaxKind::MultilineString => 21,
            HoconSyntaxKind::LeftParen => 22,
            HoconSyntaxKind::RightParen => 23,
            HoconSyntaxKind::Include => 24,
            HoconSyntaxKind::Required => 25,
            HoconSyntaxKind::File => 26,
            HoconSyntaxKind::Url => 27,
            HoconSyntaxKind::Classpath => 28,
            HoconSyntaxKind::Root => 29,
            HoconSyntaxKind::Entry => 30,
            HoconSyntaxKind::Key => 31,
            HoconSyntaxKind::Value => 32,
            HoconSyntaxKind::Object => 33,
            HoconSyntaxKind::Array => 34,
            HoconSyntaxKind::Substitution => 35,
            HoconSyntaxKind::PathExpression => 36,
            HoconSyntaxKind::Inclusion => 37,
            HoconSyntaxKind::SubstitutionStart => 38,
        }
    }

    /// The kind that is stored under `raw`, if there is one.
    pub fn from_raw(raw: u16) -> (kind: Option<HoconSyntaxKind>)
        ensures
            raw <= LAST_RAW_KIND <==> kind is Some,
            kind matches Some(k) ==> k.raw() == raw,
    {
        match raw {
            0 => Some(HoconSyntaxKind::HorizontalWhitespace),
            1 => Some(HoconSyntaxKind::LineEnding),
            2 => Some(HoconSyntaxKind::Comma),
            3 => Some(HoconSyntaxKind::Equals),
            4 => Some(HoconSyntaxKind::Plus),
            5 => Some(HoconSyntaxKind::Colon),
            6 => Some(HoconSyntaxKind::Ident),
            7 => Some(HoconSyntaxKind::LeftBracket),
            8 => Some(HoconSyntaxKind::RightBracket),
            9 => Some(HoconSyntaxKind::LeftBrace),
            10 => Some(HoconSyntaxKind::RightBrace),
            11 => Some(HoconSyntaxKind::HashComment),
            12 => Some(HoconSyntaxKind::SlashComment),
            13 => Some(HoconSyntaxKind::Dollar),
            14 => Some(HoconSyntaxKind::QuestionMark),
            15 => Some(HoconSyntaxKind::Dot),
            16 => Some(HoconSyntaxKind::Error),
            17 => Some(HoconSyntaxKind::Bool),
            18 => Some(HoconSyntaxKind::Number),
            19 => Some(HoconSyntaxKind::UnquotedString),
            20 => Some(HoconSyntaxKind::QuotedString),
            21 => Some(HoconSyntaxKind::MultilineString),
            22 => Some(HoconSyntaxKind::LeftParen),
            23 => Some(HoconSyntaxKind::RightParen),
            24 => Some(HoconSyntaxKind::Include),
            25 => Some(HoconSyntaxKind::Required),
            26 => Some(HoconSyntaxKind::File),
            27 => Some(HoconSyntaxKind::Url),
            28 => Some(HoconSyntaxKind::Classpath),
            29 => Some(HoconSyntaxKind::Root),
            30 => Some(HoconSyntaxKind::Entry),
            31 => Some(HoconSyntaxKind::Key),
            32 => Some(HoconSyntaxKind::Value),
            33 => Some(HoconSyntaxKind::Object),
            34 => Some(HoconSyntaxKind::Array),
            35 => Some(HoconSyntaxKind::Substitution),
            36 => Some(HoconSyntaxKind::PathExpression),
            37 => Some(HoconSyntaxKind::Inclusion),
            38 => Some(HoconSyntaxKind::SubstitutionStart),
            _ => None,
        }
    }

    /// Whether the kind tags an interior node.
    #[verifier::when_used_as_spec(spec_is_node)]
    pub fn is_node(self) -> (b: bool)
        ensures
            b == self.spec_is_node(),
    {
        let raw = self.to_raw();
        FIRST_RAW_NODE <= raw && raw <= LAST_RAW_NODE
    }

    /// Whether the kind tags a token.
    #[verifier::when_used_as_spec(spec_is_token)]
    pub fn is_token(self) -> (b: bool)
        ensures
            b == self.spec_is_token(),
    {
        !self.is_node()
    }

    /// Distinct kinds are stored under distinct numbers, so a kind can be
    /// read back from a tree: `from_raw(k.to_raw())` is `k`.
    pub proof fn lemma_raw_is_injective(self, other: HoconSyntaxKind)
        ensures
            self.raw() == other.raw() <==> self == other,
            self.raw() <= LAST_RAW_KIND,
            self.spec_is_token() <==> is_raw_token(self.raw()),
    {
    }
}

} // verus!
