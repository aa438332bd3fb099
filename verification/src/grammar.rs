//! The grammar, as functions from a token sequence to the tree it stands
//! for.
//!
//! Every function here is a specification. Each one reads the tokens from
//! an index on and says which elements of the tree they make, which
//! diagnostics they give rise to and at which index the next construct
//! starts. The parser is proved to build exactly these elements.
//!
//! ```text
//! root         = { trivia | "{" | "}" | entry | stray }
//! entry        = key [ blanks ] [ separator ] value
//! key          = plain { plain }              (one path where a "." occurs)
//! separator    = "=" | ":" | "+" "="
//! value        = { plain | object | array | substitution }
//! object       = "{" { trivia | entry | stray } "}"
//! array        = "[" { trivia | "," | value | stray } "]"
//! substitution = ( "${" | "${?" ) { plain } "}"
//! plain        = word | number | "." | blanks
//! ```
//!
//! A `stray` is any other token, a comma outside of an array among them;
//! it is kept as an `Error` leaf and reported. What the grammar asks for
//! and does not find is reported too, and parsing goes on.

use crate::error::Diagnostic;
use crate::lexer::Lexeme;
use crate::syntax::{is_raw_node, is_raw_token, HoconSyntaxKind};
use crate::tree::Green;
use vstd::prelude::*;

verus! {

pub const UNEXPECTED_TOKEN: &'static str = "unexpected token";

pub const UNEXPECTED_SEPARATOR: &'static str = "unexpected token in place of a separator";

pub const MISSING_SEPARATOR: &'static str = "missing separator";

pub const MALFORMED_APPEND: &'static str = "malformed append operator: `+` must be followed by `=`";

pub const UNTERMINATED_OBJECT: &'static str = "unterminated object";

pub const UNTERMINATED_ARRAY: &'static str = "unterminated array";

pub const UNTERMINATED_SUBSTITUTION: &'static str = "unterminated substitution";

// ---------------------------------------------------------------------
// Classes of tokens
// ---------------------------------------------------------------------

/// Blanks, line endings and comments.
pub open spec fn is_trivia(kind: HoconSyntaxKind) -> bool {
    kind == HoconSyntaxKind::HorizontalWhitespace || kind == HoconSyntaxKind::LineEnding || kind
        == HoconSyntaxKind::HashComment || kind == HoconSyntaxKind::SlashComment
}

/// The tokens that can start a key: words (bare or quoted) and numbers.
pub open spec fn is_key_start(kind: HoconSyntaxKind) -> bool {
    kind == HoconSyntaxKind::Ident || kind == HoconSyntaxKind::Number
}

/// The tokens that keys, paths and scalar values are made of.
pub open spec fn is_plain(kind: HoconSyntaxKind) -> bool {
    is_key_start(kind) || kind == HoconSyntaxKind::Dot || kind
        == HoconSyntaxKind::HorizontalWhitespace
}

/// The tokens that open an object, an array or a substitution.
pub open spec fn is_opener(kind: HoconSyntaxKind) -> bool {
    kind == HoconSyntaxKind::LeftBrace || kind == HoconSyntaxKind::LeftBracket || kind
        == HoconSyntaxKind::SubstitutionStart
}

/// The tokens with which an element of an array can start.
pub open spec fn starts_value(kind: HoconSyntaxKind) -> bool {
    is_key_start(kind) || kind == HoconSyntaxKind::Dot || is_opener(kind)
}

/// Where a list of items stands: at the top of the document, in an object
/// or in an array.
#[derive(Debug, Clone, Copy, PartialEq, Eq, Structural)]
pub enum Scope {
    Root,
    Object,
    Array,
}

impl Scope {
    /// Whether a token of the given kind ends the list.
    pub open spec fn closed_by(self, kind: HoconSyntaxKind) -> bool {
        match self {
            Scope::Root => false,
            Scope::Object => kind == HoconSyntaxKind::RightBrace,
            Scope::Array => kind == HoconSyntaxKind::RightBracket,
        }
    }

    /// The message for a list that the input ends in.
    pub open spec fn unterminated(self) -> Seq<char> {
        match self {
            Scope::Array => UNTERMINATED_ARRAY@,
            _ => UNTERMINATED_OBJECT@,
        }
    }
}

// ---------------------------------------------------------------------
// Results
// ---------------------------------------------------------------------

/// What a construct contributes: elements of the tree, diagnostics, and
/// the index of the first token behind it.
pub struct Parsed {
    pub nodes: Seq<Green>,
    pub errors: Seq<Diagnostic>,
    pub next: int,
}

impl Parsed {
    /// This construct followed by another one.
    pub open spec fn followed_by(self, other: Parsed) -> Parsed {
        Parsed {
            nodes: self.nodes + other.nodes,
            errors: self.errors + other.errors,
            next: other.next,
        }
    }

    /// The elements of this construct put into one node of the given kind.
    pub open spec fn wrap(self, kind: HoconSyntaxKind) -> Parsed {
        Parsed {
            nodes: seq![Green::Node { kind: kind.raw(), children: self.nodes }],
            errors: self.errors,
            next: self.next,
        }
    }
}

/// Nothing at all, at index `i`.
pub open spec fn nothing(i: int) -> Parsed {
    Parsed { nodes: Seq::empty(), errors: Seq::empty(), next: i }
}

/// The leaf that a token becomes.
pub open spec fn leaf_of(token: Lexeme) -> Green {
    Green::Leaf { kind: token.kind.raw(), text: token.text }
}

/// The token at `i`, kept as a leaf of its own kind.
pub open spec fn leaf(tokens: Seq<Lexeme>, i: int) -> Parsed {
    Parsed { nodes: seq![leaf_of(tokens[i])], errors: Seq::empty(), next: i + 1 }
}

/// The token at `i`, kept as an `Error` leaf and reported.
pub open spec fn stray(tokens: Seq<Lexeme>, i: int, message: Seq<char>) -> Parsed {
    Parsed {
        nodes: seq![Green::Leaf { kind: HoconSyntaxKind::Error.raw(), text: tokens[i].text }],
        errors: seq![Diagnostic { start: tokens[i].start, end: tokens[i].end, message }],
        next: i + 1,
    }
}

/// A diagnostic about the range `[start, end)`, with no token consumed.
pub open spec fn problem(start: int, end: int, message: Seq<char>, i: int) -> Parsed {
    Parsed { nodes: Seq::empty(), errors: seq![Diagnostic { start, end, message }], next: i }
}

/// The tokens from `i` up to, and without, `j`, each kept as a leaf.
pub open spec fn leaves(tokens: Seq<Lexeme>, i: int, j: int) -> Seq<Green> {
    Seq::new((j - i) as nat, |k: int| leaf_of(tokens[i + k]))
}

/// The offset at which the source ends.
pub open spec fn end_of(tokens: Seq<Lexeme>) -> int {
    if tokens.len() == 0 {
        0
    } else {
        tokens.last().end
    }
}

// ---------------------------------------------------------------------
// Keys and separators
// ---------------------------------------------------------------------

/// The first index from `i` on whose token is not plain.
pub open spec fn plain_end(tokens: Seq<Lexeme>, i: int) -> int
    decreases tokens.len() - i,
{
    if 0 <= i < tokens.len() && is_plain(tokens[i].kind) {
        plain_end(tokens, i + 1)
    } else {
        i
    }
}

/// Whether one of the tokens from `i` up to, and without, `j` is a dot.
pub open spec fn has_dot(tokens: Seq<Lexeme>, i: int, j: int) -> bool {
    exists|k: int| i <= k < j && #[trigger] tokens[k].kind == HoconSyntaxKind::Dot
}

/// The content of a key that starts at `i`: the plain tokens from there
/// on. Where a dot is among them the key is a path, and all of them stand
/// in one `PathExpression`.
pub open spec fn key(tokens: Seq<Lexeme>, i: int) -> Parsed {
    let end = plain_end(tokens, i);
    let parts = Parsed { nodes: leaves(tokens, i, end), errors: Seq::empty(), next: end };
    if has_dot(tokens, i, end) {
        parts.wrap(HoconSyntaxKind::PathExpression)
    } else {
        parts
    }
}

/// The first index from `i` on whose token is not a blank.
pub open spec fn blanks_end(tokens: Seq<Lexeme>, i: int) -> int
    decreases tokens.len() - i,
{
    if 0 <= i < tokens.len() && tokens[i].kind == HoconSyntaxKind::HorizontalWhitespace {
        blanks_end(tokens, i + 1)
    } else {
        i
    }
}

/// The blanks from `i` on.
pub open spec fn blanks(tokens: Seq<Lexeme>, i: int) -> Parsed {
    let end = blanks_end(tokens, i);
    Parsed { nodes: leaves(tokens, i, end), errors: Seq::empty(), next: end }
}

/// What follows the `+` of an append operator, at `i`: the `=`, or a
/// stray token, or the end of the input.
pub open spec fn append_tail(tokens: Seq<Lexeme>, i: int) -> Parsed {
    if !(0 <= i < tokens.len()) {
        problem(end_of(tokens), end_of(tokens), MALFORMED_APPEND@, i)
    } else if tokens[i].kind == HoconSyntaxKind::Equals {
        leaf(tokens, i)
    } else {
        stray(tokens, i, MALFORMED_APPEND@)
    }
}

/// The separator between a key and its value, at `i`.
///
/// `=`, `:` and `+=` are separators. Before a word, a number, `{` or `[`
/// the separator may be missing. Any other token is kept as a stray one,
/// and the end of the input is reported.
pub open spec fn separator(tokens: Seq<Lexeme>, i: int) -> Parsed {
    if !(0 <= i < tokens.len()) {
        problem(end_of(tokens), end_of(tokens), MISSING_SEPARATOR@, i)
    } else {
        let kind = tokens[i].kind;
        if kind == HoconSyntaxKind::Equals || kind == HoconSyntaxKind::Colon {
            leaf(tokens, i)
        } else if kind == HoconSyntaxKind::Plus {
            leaf(tokens, i).followed_by(append_tail(tokens, i + 1))
        } else if is_key_start(kind) || kind == HoconSyntaxKind::LeftBrace || kind
            == HoconSyntaxKind::LeftBracket {
            nothing(i)
        } else {
            stray(tokens, i, UNEXPECTED_SEPARATOR@)
        }
    }
}

/// A key with what follows it up to the value: the `Key` node, blanks and
/// the separator.
pub open spec fn entry_head(tokens: Seq<Lexeme>, i: int) -> Parsed {
    let key = key(tokens, i).wrap(HoconSyntaxKind::Key);
    let blanks = blanks(tokens, key.next);
    key.followed_by(blanks).followed_by(separator(tokens, blanks.next))
}

// ---------------------------------------------------------------------
// Substitutions
// ---------------------------------------------------------------------

/// What closes the substitution that the token at `opener` opened, at `i`:
/// a `}`, or else nothing, which is reported at the opener.
pub open spec fn substitution_close(tokens: Seq<Lexeme>, opener: int, i: int) -> Parsed {
    if 0 <= i < tokens.len() && tokens[i].kind == HoconSyntaxKind::RightBrace {
        leaf(tokens, i)
    } else {
        problem(tokens[opener].start, tokens[opener].end, UNTERMINATED_SUBSTITUTION@, i)
    }
}

/// The substitution whose opener stands at `i`: the opener, the plain
/// tokens behind it as one `PathExpression`, and the closing `}`.
pub open spec fn substitution(tokens: Seq<Lexeme>, i: int) -> Parsed {
    let end = plain_end(tokens, i + 1);
    let path = Parsed { nodes: leaves(tokens, i + 1, end), errors: Seq::empty(), next: end }.wrap(
        HoconSyntaxKind::PathExpression,
    );
    leaf(tokens, i).followed_by(path).followed_by(substitution_close(tokens, i, end)).wrap(
        HoconSyntaxKind::Substitution,
    )
}

// ---------------------------------------------------------------------
// Values, entries and lists of items
// ---------------------------------------------------------------------

/// The content of a value that starts at `i`: plain tokens, objects,
/// arrays and substitutions, up to the first token that is none of these.
pub open spec fn value_items(tokens: Seq<Lexeme>, i: int) -> Parsed
    decreases tokens.len() - i, 1int,
{
    if !(0 <= i < tokens.len()) {
        nothing(i)
    } else if is_plain(tokens[i].kind) {
        leaf(tokens, i).followed_by(value_items(tokens, i + 1))
    } else if is_opener(tokens[i].kind) {
        let inner = compound(tokens, i);
        if i < inner.next <= tokens.len() {
            inner.followed_by(value_items(tokens, inner.next))
        } else {
            inner
        }
    } else {
        nothing(i)
    }
}

/// The object, array or substitution whose opener stands at `i`.
pub open spec fn compound(tokens: Seq<Lexeme>, i: int) -> Parsed
    decreases tokens.len() - i, 0int,
{
    if !(0 <= i < tokens.len()) {
        nothing(i)
    } else if tokens[i].kind == HoconSyntaxKind::LeftBrace {
        leaf(tokens, i).followed_by(items(tokens, i + 1, Scope::Object, i)).wrap(
            HoconSyntaxKind::Object,
        )
    } else if tokens[i].kind == HoconSyntaxKind::LeftBracket {
        leaf(tokens, i).followed_by(items(tokens, i + 1, Scope::Array, i)).wrap(
            HoconSyntaxKind::Array,
        )
    } else {
        substitution(tokens, i)
    }
}

/// The entry whose key starts at `i`: the key, the separator and the
/// value, in one `Entry` node.
pub open spec fn entry(tokens: Seq<Lexeme>, i: int) -> Parsed
    decreases tokens.len() - i, 2int,
{
    let head = entry_head(tokens, i);
    if 0 <= i <= head.next <= tokens.len() {
        head.followed_by(value_items(tokens, head.next).wrap(HoconSyntaxKind::Value)).wrap(
            HoconSyntaxKind::Entry,
        )
    } else {
        head.wrap(HoconSyntaxKind::Entry)
    }
}

/// One item of a list, at `i`.
///
/// Trivia is kept as it is, and so are braces at the top of the document
/// and commas in an array. A key starts an entry, except in an array,
/// where instead the start of a value starts an element. Any other token
/// is stray.
pub open spec fn item(tokens: Seq<Lexeme>, i: int, scope: Scope) -> Parsed
    decreases tokens.len() - i, 3int,
{
    let kind = tokens[i].kind;
    if !(0 <= i < tokens.len()) {
        nothing(i)
    } else if is_trivia(kind) || (scope == Scope::Array && kind == HoconSyntaxKind::Comma) {
        leaf(tokens, i)
    } else if scope == Scope::Root && (kind == HoconSyntaxKind::LeftBrace || kind
        == HoconSyntaxKind::RightBrace) {
        leaf(tokens, i)
    } else if scope != Scope::Array && is_key_start(kind) {
        entry(tokens, i)
    } else if scope == Scope::Array && starts_value(kind) {
        value_items(tokens, i).wrap(HoconSyntaxKind::Value)
    } else {
        stray(tokens, i, UNEXPECTED_TOKEN@)
    }
}

/// The items of a list from `i` on, up to and with the token that closes
/// the list. A list that the input ends in is reported at the token that
/// opened it, which stands at `opener`; the top of the document needs no
/// closing.
pub open spec fn items(tokens: Seq<Lexeme>, i: int, scope: Scope, opener: int) -> Parsed
    decreases tokens.len() - i, 4int,
{
    if !(0 <= i < tokens.len()) {
        if scope == Scope::Root {
            nothing(i)
        } else {
            problem(tokens[opener].start, tokens[opener].end, scope.unterminated(), i)
        }
    } else if scope.closed_by(tokens[i].kind) {
        leaf(tokens, i)
    } else {
        let first = item(tokens, i, scope);
        if i < first.next <= tokens.len() {
            first.followed_by(items(tokens, first.next, scope, opener))
        } else {
            first
        }
    }
}

/// The tree that a token sequence stands for.
pub open spec fn syntax_tree(tokens: Seq<Lexeme>) -> Green {
    Green::Node {
        kind: HoconSyntaxKind::Root.raw(),
        children: items(tokens, 0, Scope::Root, 0).nodes,
    }
}

/// The diagnostics that a token sequence gives rise to, in the order of
/// the source.
pub open spec fn diagnostics(tokens: Seq<Lexeme>) -> Seq<Diagnostic> {
    items(tokens, 0, Scope::Root, 0).errors
}

// ---------------------------------------------------------------------
// Kinds in a tree
// ---------------------------------------------------------------------

/// Whether every leaf of the element has the kind of a token and every
/// node in it the kind of a node.
pub open spec fn well_kinded(element: Green) -> bool
    decreases element,
{
    match element {
        Green::Leaf { kind, .. } => is_raw_token(kind),
        Green::Node { kind, children } => {
            &&& is_raw_node(kind)
            &&& forall|i: int| 0 <= i < children.len() ==> well_kinded(#[trigger] children[i])
        },
    }
}

/// Whether every element of the sequence is well kinded.
pub open spec fn all_well_kinded(elements: Seq<Green>) -> bool {
    forall|i: int| 0 <= i < elements.len() ==> well_kinded(#[trigger] elements[i])
}

/// Whether every lexeme has the kind of a token.
pub open spec fn kinds_are_tokens(tokens: Seq<Lexeme>) -> bool {
    forall|i: int| 0 <= i < tokens.len() ==> (#[trigger] tokens[i]).kind.spec_is_token()
}

// ---------------------------------------------------------------------
// Composition
// ---------------------------------------------------------------------

/// Putting constructs one behind the other is associative.
pub proof fn lemma_followed_by_is_associative(a: Parsed, b: Parsed, c: Parsed)
    ensures
        a.followed_by(b).followed_by(c) == a.followed_by(b.followed_by(c)),
{
    assert(a.followed_by(b).followed_by(c).nodes =~= a.followed_by(b.followed_by(c)).nodes);
    assert(a.followed_by(b).followed_by(c).errors =~= a.followed_by(b.followed_by(c)).errors);
}

/// Nothing, put behind a construct at its end, adds nothing.
pub proof fn lemma_followed_by_nothing(a: Parsed)
    ensures
        a.followed_by(nothing(a.next)) == a,
        nothing(a.next).followed_by(a) == a,
{
    assert(a.followed_by(nothing(a.next)).nodes =~= a.nodes);
    assert(a.followed_by(nothing(a.next)).errors =~= a.errors);
    assert(nothing(a.next).followed_by(a).nodes =~= a.nodes);
    assert(nothing(a.next).followed_by(a).errors =~= a.errors);
}

} // verus!
