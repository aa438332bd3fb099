//! What holds of every text: the tokens of a text lie end to end over it,
//! and the tree of a token sequence keeps the text of every token, in
//! order and in elements of the right kinds.
//!
//! The lemmas here speak of the specifications alone, so they hold of any
//! byte string, whatever its length and whether or not it is well-formed
//! UTF-8.

use crate::grammar::{
    all_well_kinded, append_tail, blanks, blanks_end, compound, entry, entry_head, is_key_start,
    is_opener, is_plain, is_trivia, item, items, key, kinds_are_tokens, leaf, leaf_of, leaves, nothing,
    plain_end, problem, separator, starts_value, stray, substitution, substitution_close,
    syntax_tree, value_items, well_kinded, Parsed, Scope, MALFORMED_APPEND, UNEXPECTED_SEPARATOR,
    UNEXPECTED_TOKEN,
};
use crate::lexer::{
    lemma_line_end_bounds, lemma_tiles_spell_the_text, lex, lex_from, lexeme_at, span_text,
    tile_at, tiles, token_at, Lexeme,
};
use crate::scan::{
    blank_end, blank_len, digits_end, exponent_end, fraction_end, integer_end, is_digit,
    multiline_end, number_len, quoted_end, triple_quote_at, word_at, word_end,
};
use crate::syntax::HoconSyntaxKind;
use crate::tree::{forest_text, lemma_forest_text_concat, lemma_forest_text_push, Green};
use vstd::prelude::*;

verus! {

// ---------------------------------------------------------------------
// Tokens
// ---------------------------------------------------------------------

proof fn lemma_blank_end_bounds(s: Seq<u8>, i: int)
    requires
        0 <= i <= s.len(),
    ensures
        i <= blank_end(s, i) <= s.len(),
    decreases s.len() - i,
{
    if blank_len(s, i) > 0 {
        lemma_blank_end_bounds(s, i + blank_len(s, i));
    }
}

proof fn lemma_word_end_bounds(s: Seq<u8>, i: int)
    requires
        0 <= i <= s.len(),
    ensures
        i <= word_end(s, i) <= s.len(),
    decreases s.len() - i,
{
    if word_at(s, i) {
        lemma_word_end_bounds(s, i + 1);
    }
}

proof fn lemma_digits_end_bounds(s: Seq<u8>, i: int)
    requires
        0 <= i <= s.len(),
    ensures
        i <= digits_end(s, i) <= s.len(),
    decreases s.len() - i,
{
    if i < s.len() && is_digit(s[i]) {
        lemma_digits_end_bounds(s, i + 1);
    }
}

proof fn lemma_quoted_end_bounds(s: Seq<u8>, j: int, escaped: bool)
    requires
        0 <= j <= s.len(),
    ensures
        quoted_end(s, j, escaped) matches Some(e) ==> j < e <= s.len(),
    decreases s.len() - j,
{
    if j < s.len() {
        lemma_quoted_end_bounds(s, j + 1, !escaped);
        lemma_quoted_end_bounds(s, j + 1, false);
    }
}

proof fn lemma_multiline_end_bounds(s: Seq<u8>, j: int)
    requires
        0 <= j <= s.len(),
    ensures
        multiline_end(s, j) matches Some(e) ==> j + 3 <= e <= s.len(),
    decreases s.len() - j,
{
    if j + 3 <= s.len() && !triple_quote_at(s, j) {
        lemma_multiline_end_bounds(s, j + 1);
    }
}

proof fn lemma_exponent_end_bounds(s: Seq<u8>, j: int)
    requires
        0 <= j <= s.len(),
    ensures
        j <= exponent_end(s, j) <= s.len(),
{
    if j + 1 <= s.len() {
        lemma_digits_end_bounds(s, j + 1);
    }
    if j + 2 <= s.len() {
        lemma_digits_end_bounds(s, j + 2);
    }
}

proof fn lemma_number_len_bounds(s: Seq<u8>, i: int)
    requires
        0 <= i < s.len(),
    ensures
        0 <= number_len(s, i) <= s.len() - i,
{
    lemma_digits_end_bounds(s, i);
    lemma_digits_end_bounds(s, i + 1);
    let e = integer_end(s, i);
    assert(i <= e <= s.len());
    lemma_exponent_end_bounds(s, e);
    if e + 1 <= s.len() {
        lemma_digits_end_bounds(s, e + 1);
        lemma_exponent_end_bounds(s, digits_end(s, e + 1));
    }
    assert(e <= fraction_end(s, e) <= s.len());
}

/// A token is not empty, ends within the text and has the kind of a
/// token.
pub proof fn lemma_token_fits(s: Seq<u8>, i: int)
    requires
        0 <= i < s.len(),
    ensures
        1 <= token_at(s, i).len <= s.len() - i,
        token_at(s, i).kind.spec_is_token(),
{
    lemma_blank_end_bounds(s, i);
    lemma_line_end_bounds(s, i);
    lemma_word_end_bounds(s, i);
    lemma_quoted_end_bounds(s, i + 1, false);
    if i + 3 <= s.len() {
        lemma_multiline_end_bounds(s, i + 3);
    }
    lemma_number_len_bounds(s, i);
}

/// Whether the lexeme at index `k` starts where the one before it ends
/// (the first one at `from`), is not empty, holds the bytes of its range
/// in `s` and has the kind of a token.
spec fn tile_from_at(lexemes: Seq<Lexeme>, s: Seq<u8>, from: int, k: int) -> bool {
    &&& lexemes[k].start == if k == 0 {
        from
    } else {
        lexemes[k - 1].end
    }
    &&& 0 <= lexemes[k].start < lexemes[k].end <= s.len()
    &&& lexemes[k].text == s.subrange(lexemes[k].start, lexemes[k].end)
    &&& lexemes[k].kind.spec_is_token()
}

proof fn lemma_lex_from_tiles(s: Seq<u8>, i: int)
    requires
        0 <= i <= s.len(),
    ensures
        forall|k: int|
            0 <= k < lex_from(s, i).len() ==> #[trigger] tile_from_at(lex_from(s, i), s, i, k),
        if lex_from(s, i).len() == 0 {
            i == s.len()
        } else {
            lex_from(s, i).last().end == s.len()
        },
    decreases s.len() - i,
{
    if i < s.len() {
        lemma_token_fits(s, i);
        let end = i + token_at(s, i).len;
        let rest = lex_from(s, end);
        let all = lex_from(s, i);
        lemma_lex_from_tiles(s, end);
        assert(all =~= seq![lexeme_at(s, i)] + rest);
        assert forall|k: int| 0 <= k < all.len() implies #[trigger] tile_from_at(all, s, i, k) by {
            if k > 0 {
                assert(tile_from_at(rest, s, end, k - 1));
                assert(all[k] == rest[k - 1]);
                if k > 1 {
                    assert(all[k - 1] == rest[k - 2]);
                }
            }
        }
        if rest.len() > 0 {
            assert(all.last() == rest.last());
        }
    }
}

/// The tokens of a text lie end to end over the whole of it.
pub proof fn lemma_lex_tiles(s: Seq<u8>)
    ensures
        tiles(lex(s), s),
        kinds_are_tokens(lex(s)),
{
    lemma_lex_from_tiles(s, 0);
    assert forall|k: int| 0 <= k < lex(s).len() implies #[trigger] tile_at(lex(s), s, k) by {
        assert(tile_from_at(lex_from(s, 0), s, 0, k));
    }
    assert forall|k: int| 0 <= k < lex(s).len() implies (#[trigger] lex(s)[k]).kind.spec_is_token() by {
        assert(tile_at(lex(s), s, k));
    }
}

/// The texts of the tokens of a text, put together, are the text.
pub proof fn lemma_tokens_spell_the_text(s: Seq<u8>)
    ensures
        span_text(lex(s), 0, lex(s).len() as int) == s,
{
    lemma_lex_tiles(s);
    lemma_tiles_spell_the_text(lex(s), s, lex(s).len() as int);
}

// ---------------------------------------------------------------------
// Trees
// ---------------------------------------------------------------------

/// Whether `done`, read from index `i` on, ends within the tokens, holds
/// the text of exactly the tokens it read and is made of elements of the
/// right kinds.
pub open spec fn conserves(tokens: Seq<Lexeme>, i: int, done: Parsed) -> bool {
    &&& i <= done.next <= tokens.len()
    &&& forest_text(done.nodes) == span_text(tokens, i, done.next)
    &&& all_well_kinded(done.nodes)
}

proof fn lemma_span_text_split(tokens: Seq<Lexeme>, a: int, b: int, c: int)
    requires
        0 <= a <= b <= c <= tokens.len(),
    ensures
        span_text(tokens, a, c) == span_text(tokens, a, b) + span_text(tokens, b, c),
    decreases c - b,
{
    if b < c {
        lemma_span_text_split(tokens, a, b, c - 1);
        assert(span_text(tokens, a, c) =~= span_text(tokens, a, b) + span_text(tokens, b, c));
    } else {
        assert(span_text(tokens, a, c) =~= span_text(tokens, a, b) + span_text(tokens, b, c));
    }
}

proof fn lemma_conserves_nothing(tokens: Seq<Lexeme>, i: int)
    requires
        0 <= i <= tokens.len(),
    ensures
        conserves(tokens, i, nothing(i)),
{
}

proof fn lemma_conserves_problem(
    tokens: Seq<Lexeme>,
    i: int,
    start: int,
    end: int,
    message: Seq<char>,
)
    requires
        0 <= i <= tokens.len(),
    ensures
        conserves(tokens, i, problem(start, end, message, i)),
{
}

proof fn lemma_conserves_leaf(tokens: Seq<Lexeme>, i: int)
    requires
        0 <= i < tokens.len(),
        kinds_are_tokens(tokens),
    ensures
        conserves(tokens, i, leaf(tokens, i)),
{
    lemma_forest_text_push(Seq::empty(), leaf_of(tokens[i]));
    assert(Seq::<Green>::empty().push(leaf_of(tokens[i])) =~= leaf(tokens, i).nodes);
    assert(span_text(tokens, i, i) =~= Seq::<u8>::empty());
    assert(forest_text(Seq::<Green>::empty()) =~= Seq::<u8>::empty());
    assert(forest_text(leaf(tokens, i).nodes) =~= span_text(tokens, i, i + 1));
}

proof fn lemma_conserves_stray(tokens: Seq<Lexeme>, i: int, message: Seq<char>)
    requires
        0 <= i < tokens.len(),
    ensures
        conserves(tokens, i, stray(tokens, i, message)),
{
    let nodes = stray(tokens, i, message).nodes;
    lemma_forest_text_push(Seq::empty(), nodes[0]);
    assert(Seq::<Green>::empty().push(nodes[0]) =~= nodes);
    assert(span_text(tokens, i, i) =~= Seq::<u8>::empty());
    assert(forest_text(Seq::<Green>::empty()) =~= Seq::<u8>::empty());
    assert(forest_text(nodes) =~= span_text(tokens, i, i + 1));
}

proof fn lemma_conserves_followed_by(tokens: Seq<Lexeme>, i: int, first: Parsed, second: Parsed)
    requires
        0 <= i,
        conserves(tokens, i, first),
        conserves(tokens, first.next, second),
    ensures
        conserves(tokens, i, first.followed_by(second)),
{
    lemma_forest_text_concat(first.nodes, second.nodes);
    lemma_span_text_split(tokens, i, first.next, second.next);
}

proof fn lemma_conserves_wrap(tokens: Seq<Lexeme>, i: int, body: Parsed, kind: HoconSyntaxKind)
    requires
        conserves(tokens, i, body),
        kind.spec_is_node(),
    ensures
        conserves(tokens, i, body.wrap(kind)),
{
    let node = body.wrap(kind).nodes[0];
    lemma_forest_text_push(Seq::empty(), node);
    assert(Seq::<Green>::empty().push(node) =~= body.wrap(kind).nodes);
    assert(forest_text(body.wrap(kind).nodes) =~= forest_text(body.nodes));
    assert(well_kinded(node));
}

proof fn lemma_conserves_leaves(tokens: Seq<Lexeme>, i: int, j: int)
    requires
        0 <= i <= j <= tokens.len(),
        kinds_are_tokens(tokens),
    ensures
        conserves(
            tokens,
            i,
            Parsed { nodes: leaves(tokens, i, j), errors: Seq::empty(), next: j },
        ),
    decreases j - i,
{
    if i < j {
        lemma_conserves_leaves(tokens, i, j - 1);
        lemma_forest_text_push(leaves(tokens, i, j - 1), leaf_of(tokens[j - 1]));
        assert(leaves(tokens, i, j) =~= leaves(tokens, i, j - 1).push(leaf_of(tokens[j - 1])));
    }
}

proof fn lemma_plain_end_bounds(tokens: Seq<Lexeme>, i: int)
    requires
        0 <= i <= tokens.len(),
    ensures
        i <= plain_end(tokens, i) <= tokens.len(),
        i < tokens.len() && is_plain(tokens[i].kind) ==> i < plain_end(tokens, i),
    decreases tokens.len() - i,
{
    if i < tokens.len() && is_plain(tokens[i].kind) {
        lemma_plain_end_bounds(tokens, i + 1);
    }
}

proof fn lemma_blanks_end_bounds(tokens: Seq<Lexeme>, i: int)
    requires
        0 <= i <= tokens.len(),
    ensures
        i <= blanks_end(tokens, i) <= tokens.len(),
    decreases tokens.len() - i,
{
    if i < tokens.len() && tokens[i].kind == HoconSyntaxKind::HorizontalWhitespace {
        lemma_blanks_end_bounds(tokens, i + 1);
    }
}

proof fn lemma_key_conserves(tokens: Seq<Lexeme>, i: int)
    requires
        0 <= i <= tokens.len(),
        kinds_are_tokens(tokens),
    ensures
        conserves(tokens, i, key(tokens, i)),
        i < tokens.len() && is_plain(tokens[i].kind) ==> i < key(tokens, i).next,
{
    let end = plain_end(tokens, i);
    lemma_plain_end_bounds(tokens, i);
    lemma_conserves_leaves(tokens, i, end);
    lemma_conserves_wrap(
        tokens,
        i,
        Parsed { nodes: leaves(tokens, i, end), errors: Seq::empty(), next: end },
        HoconSyntaxKind::PathExpression,
    );
}

proof fn lemma_separator_conserves(tokens: Seq<Lexeme>, i: int)
    requires
        0 <= i <= tokens.len(),
        kinds_are_tokens(tokens),
    ensures
        conserves(tokens, i, separator(tokens, i)),
{
    if i < tokens.len() {
        lemma_conserves_leaf(tokens, i);
        lemma_conserves_stray(tokens, i, UNEXPECTED_SEPARATOR@);
        lemma_conserves_nothing(tokens, i);
        if tokens[i].kind == HoconSyntaxKind::Plus {
            let tail = append_tail(tokens, i + 1);
            if i + 1 < tokens.len() {
                lemma_conserves_leaf(tokens, i + 1);
                lemma_conserves_stray(tokens, i + 1, MALFORMED_APPEND@);
            }
            assert(conserves(tokens, i + 1, tail));
            lemma_conserves_followed_by(tokens, i, leaf(tokens, i), tail);
        }
    }
}

proof fn lemma_entry_head_conserves(tokens: Seq<Lexeme>, i: int)
    requires
        0 <= i < tokens.len(),
        is_key_start(tokens[i].kind),
        kinds_are_tokens(tokens),
    ensures
        conserves(tokens, i, entry_head(tokens, i)),
        i < entry_head(tokens, i).next,
{
    let key_node = key(tokens, i).wrap(HoconSyntaxKind::Key);
    let gap = blanks(tokens, key_node.next);
    lemma_key_conserves(tokens, i);
    lemma_conserves_wrap(tokens, i, key(tokens, i), HoconSyntaxKind::Key);
    lemma_blanks_end_bounds(tokens, key_node.next);
    lemma_conserves_leaves(tokens, key_node.next, gap.next);
    lemma_separator_conserves(tokens, gap.next);
    lemma_conserves_followed_by(tokens, i, key_node, gap);
    lemma_conserves_followed_by(
        tokens,
        i,
        key_node.followed_by(gap),
        separator(tokens, gap.next),
    );
}

proof fn lemma_substitution_conserves(tokens: Seq<Lexeme>, i: int)
    requires
        0 <= i < tokens.len(),
        kinds_are_tokens(tokens),
    ensures
        conserves(tokens, i, substitution(tokens, i)),
        i < substitution(tokens, i).next,
{
    let end = plain_end(tokens, i + 1);
    let path = Parsed { nodes: leaves(tokens, i + 1, end), errors: Seq::empty(), next: end };
    let close = substitution_close(tokens, i, end);
    lemma_plain_end_bounds(tokens, i + 1);
    lemma_conserves_leaf(tokens, i);
    lemma_conserves_leaves(tokens, i + 1, end);
    lemma_conserves_wrap(tokens, i + 1, path, HoconSyntaxKind::PathExpression);
    if end < tokens.len() {
        lemma_conserves_leaf(tokens, end);
    }
    assert(conserves(tokens, end, close));
    let head = leaf(tokens, i).followed_by(path.wrap(HoconSyntaxKind::PathExpression));
    lemma_conserves_followed_by(
        tokens,
        i,
        leaf(tokens, i),
        path.wrap(HoconSyntaxKind::PathExpression),
    );
    lemma_conserves_followed_by(tokens, i, head, close);
    lemma_conserves_wrap(tokens, i, head.followed_by(close), HoconSyntaxKind::Substitution);
}

proof fn lemma_value_items_conserves(tokens: Seq<Lexeme>, i: int)
    requires
        0 <= i <= tokens.len(),
        kinds_are_tokens(tokens),
    ensures
        conserves(tokens, i, value_items(tokens, i)),
        i < tokens.len() && starts_value(tokens[i].kind) ==> i < value_items(tokens, i).next,
    decreases tokens.len() - i, 1int,
{
    if i < tokens.len() {
        if is_plain(tokens[i].kind) {
            lemma_conserves_leaf(tokens, i);
            lemma_value_items_conserves(tokens, i + 1);
            lemma_conserves_followed_by(
                tokens,
                i,
                leaf(tokens, i),
                value_items(tokens, i + 1),
            );
        } else if is_opener(tokens[i].kind) {
            let inner = compound(tokens, i);
            lemma_compound_conserves(tokens, i);
            lemma_value_items_conserves(tokens, inner.next);
            lemma_conserves_followed_by(tokens, i, inner, value_items(tokens, inner.next));
        }
    }
}

proof fn lemma_compound_conserves(tokens: Seq<Lexeme>, i: int)
    requires
        0 <= i < tokens.len(),
        is_opener(tokens[i].kind),
        kinds_are_tokens(tokens),
    ensures
        conserves(tokens, i, compound(tokens, i)),
        i < compound(tokens, i).next,
    decreases tokens.len() - i, 0int,
{
    if tokens[i].kind == HoconSyntaxKind::LeftBrace {
        let body = items(tokens, i + 1, Scope::Object, i);
        lemma_conserves_leaf(tokens, i);
        lemma_items_conserves(tokens, i + 1, Scope::Object, i);
        lemma_conserves_followed_by(tokens, i, leaf(tokens, i), body);
        lemma_conserves_wrap(
            tokens,
            i,
            leaf(tokens, i).followed_by(body),
            HoconSyntaxKind::Object,
        );
    } else if tokens[i].kind == HoconSyntaxKind::LeftBracket {
        let body = items(tokens, i + 1, Scope::Array, i);
        lemma_conserves_leaf(tokens, i);
        lemma_items_conserves(tokens, i + 1, Scope::Array, i);
        lemma_conserves_followed_by(tokens, i, leaf(tokens, i), body);
        lemma_conserves_wrap(tokens, i, leaf(tokens, i).followed_by(body), HoconSyntaxKind::Array);
    } else {
        lemma_substitution_conserves(tokens, i);
    }
}

proof fn lemma_entry_conserves(tokens: Seq<Lexeme>, i: int)
    requires
        0 <= i < tokens.len(),
        is_key_start(tokens[i].kind),
        kinds_are_tokens(tokens),
    ensures
        conserves(tokens, i, entry(tokens, i)),
        i < entry(tokens, i).next,
    decreases tokens.len() - i, 2int,
{
    let head = entry_head(tokens, i);
    let value = value_items(tokens, head.next);
    lemma_entry_head_conserves(tokens, i);
    lemma_value_items_conserves(tokens, head.next);
    lemma_conserves_wrap(tokens, head.next, value, HoconSyntaxKind::Value);
    lemma_conserves_followed_by(tokens, i, head, value.wrap(HoconSyntaxKind::Value));
    lemma_conserves_wrap(
        tokens,
        i,
        head.followed_by(value.wrap(HoconSyntaxKind::Value)),
        HoconSyntaxKind::Entry,
    );
}

proof fn lemma_item_conserves(tokens: Seq<Lexeme>, i: int, scope: Scope)
    requires
        0 <= i < tokens.len(),
        kinds_are_tokens(tokens),
    ensures
        conserves(tokens, i, item(tokens, i, scope)),
        i < item(tokens, i, scope).next,
    decreases tokens.len() - i, 3int,
{
    let kind = tokens[i].kind;
    lemma_conserves_leaf(tokens, i);
    lemma_conserves_stray(tokens, i, UNEXPECTED_TOKEN@);
    if scope != Scope::Array && is_key_start(kind) {
        lemma_entry_conserves(tokens, i);
    }
    if scope == Scope::Array && starts_value(kind) {
        lemma_value_items_conserves(tokens, i);
        lemma_conserves_wrap(tokens, i, value_items(tokens, i), HoconSyntaxKind::Value);
    }
}

proof fn lemma_items_conserves(tokens: Seq<Lexeme>, i: int, scope: Scope, opener: int)
    requires
        0 <= i <= tokens.len(),
        kinds_are_tokens(tokens),
    ensures
        conserves(tokens, i, items(tokens, i, scope, opener)),
        scope == Scope::Root ==> items(tokens, i, scope, opener).next == tokens.len(),
    decreases tokens.len() - i, 4int,
{
    if i < tokens.len() {
        if scope.closed_by(tokens[i].kind) {
            lemma_conserves_leaf(tokens, i);
        } else {
            let first = item(tokens, i, scope);
            lemma_item_conserves(tokens, i, scope);
            lemma_items_conserves(tokens, first.next, scope, opener);
            lemma_conserves_followed_by(
                tokens,
                i,
                first,
                items(tokens, first.next, scope, opener),
            );
        }
    } else {
        lemma_conserves_nothing(tokens, i);
        lemma_conserves_problem(
            tokens,
            i,
            tokens[opener].start,
            tokens[opener].end,
            scope.unterminated(),
        );
    }
}

/// Whether a list in the given scope has no use for a token of the given
/// kind.
pub open spec fn is_stray_in(kind: HoconSyntaxKind, scope: Scope) -> bool {
    &&& !scope.closed_by(kind)
    &&& !is_trivia(kind)
    &&& !(scope == Scope::Array && kind == HoconSyntaxKind::Comma)
    &&& !(scope == Scope::Root && (kind == HoconSyntaxKind::LeftBrace || kind
        == HoconSyntaxKind::RightBrace))
    &&& !(scope != Scope::Array && is_key_start(kind))
    &&& !(scope == Scope::Array && starts_value(kind))
}

/// A token that a list has no use for is kept as an `Error` leaf with its
/// own text and reported once, at its own range; the list goes on behind
/// it.
pub proof fn lemma_stray_token_is_kept_and_reported(
    tokens: Seq<Lexeme>,
    i: int,
    scope: Scope,
    opener: int,
)
    requires
        0 <= i < tokens.len(),
        is_stray_in(tokens[i].kind, scope),
    ensures
        items(tokens, i, scope, opener) == stray(tokens, i, UNEXPECTED_TOKEN@).followed_by(
            items(tokens, i + 1, scope, opener),
        ),
        stray(tokens, i, UNEXPECTED_TOKEN@).nodes == seq![
            Green::Leaf { kind: HoconSyntaxKind::Error.raw(), text: tokens[i].text },
        ],
        stray(tokens, i, UNEXPECTED_TOKEN@).errors.len() == 1,
        stray(tokens, i, UNEXPECTED_TOKEN@).errors[0].start == tokens[i].start,
        stray(tokens, i, UNEXPECTED_TOKEN@).errors[0].end == tokens[i].end,
{
    assert(item(tokens, i, scope) == stray(tokens, i, UNEXPECTED_TOKEN@));
    assert(stray(tokens, i, UNEXPECTED_TOKEN@).next == i + 1);
}

/// The top of a document reads every token: the parse of a document ends
/// behind the last one.
pub proof fn lemma_root_reads_every_token(tokens: Seq<Lexeme>, i: int)
    requires
        0 <= i <= tokens.len(),
        kinds_are_tokens(tokens),
    ensures
        items(tokens, i, Scope::Root, 0).next == tokens.len(),
{
    lemma_items_conserves(tokens, i, Scope::Root, 0);
}

/// The tree of a token sequence holds the text of every token, in order,
/// in leaves with the kinds of tokens and nodes with the kinds of nodes.
pub proof fn lemma_tree_spells_the_tokens(tokens: Seq<Lexeme>)
    requires
        kinds_are_tokens(tokens),
    ensures
        syntax_tree(tokens).text() == span_text(tokens, 0, tokens.len() as int),
        well_kinded(syntax_tree(tokens)),
{
    lemma_items_conserves(tokens, 0, Scope::Root, 0);
}

/// Nothing is lost: the texts of the leaves of the tree of a text, put
/// together in order, are the text.
pub proof fn lemma_parse_is_lossless(s: Seq<u8>)
    ensures
        syntax_tree(lex(s)).text() == s,
        well_kinded(syntax_tree(lex(s))),
{
    lemma_lex_tiles(s);
    lemma_tokens_spell_the_text(s);
    lemma_tree_spells_the_tokens(lex(s));
}

/// Cutting the text of the leaves of a tree into tokens again gives the
/// tokens that the tree was made of.
pub proof fn lemma_leaves_tokenize_alike(s: Seq<u8>)
    ensures
        lex(syntax_tree(lex(s)).text()) == lex(s),
{
    lemma_parse_is_lossless(s);
}

} // verus!
