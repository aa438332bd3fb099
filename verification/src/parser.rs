//! The parser: from the tokens of a source text to its syntax tree.
//!
//! The parser never gives up. A token that the grammar has no use for is
//! kept in the tree as an `Error` leaf and reported, and parsing goes on
//! behind it, so every token of the input ends up in the tree exactly
//! once.

use crate::error::{diagnostics_of, Diagnostic, Error};
use crate::grammar::{
    all_well_kinded, append_tail, blanks, blanks_end, compound, diagnostics, end_of, entry,
    entry_head, has_dot, is_key_start, is_plain, is_trivia, item, items, key, kinds_are_tokens,
    leaf, leaves, lemma_followed_by_is_associative, lemma_followed_by_nothing, nothing, plain_end,
    problem, separator, starts_value, stray, substitution, substitution_close, syntax_tree,
    value_items, well_kinded, Parsed, Scope, MALFORMED_APPEND, MISSING_SEPARATOR,
    UNEXPECTED_SEPARATOR, UNEXPECTED_TOKEN, UNTERMINATED_ARRAY, UNTERMINATED_OBJECT,
    UNTERMINATED_SUBSTITUTION,
};
use crate::lexer::{
    lemma_span_text_grows, lemma_tiles_spell_the_text, lex, span_text, tile_at, tiles, Lexeme,
    Lexer,
};
use crate::span::Span;
use crate::syntax::HoconSyntaxKind;
use crate::tree::{
    builder_checkpoint, builder_children, builder_finish, builder_finish_node, builder_new,
    builder_parents, builder_start_node, builder_start_node_at, builder_token,
    checkpoint_position, forest_text, green_tree, lemma_forest_text_push,
    lemma_forest_text_wrapped, Green,
};
use vstd::prelude::*;
use vstd::string::StringSliceAdditionalSpecFns;

verus! {

/// What a parse returns: the syntax tree and the diagnostics, in the order
/// of the source.
#[derive(Debug)]
pub struct Parse {
    pub green: rowan::GreenNode,
    pub errors: Vec<Error>,
}

impl Parse {
    /// The tree, as a mathematical value.
    pub open spec fn tree(&self) -> Green {
        green_tree(self.green)
    }

    /// The diagnostics, as mathematical values.
    pub open spec fn diagnostics(&self) -> Seq<Diagnostic> {
        diagnostics_of(self.errors@)
    }
}

/// Whether each node in progress starts no later than the nodes in it and
/// no later than the end of the elements held.
pub open spec fn stack_is_sound(parents: Seq<(u16, nat)>, held: nat) -> bool {
    &&& forall|j: int, k: int|
        0 <= j <= k < parents.len() ==> (#[trigger] parents[j]).1 <= (#[trigger] parents[k]).1
    &&& forall|k: int| 0 <= k < parents.len() ==> (#[trigger] parents[k]).1 <= held
}

/// The kind of the token at index `i`, if there is one.
pub open spec fn kind_at(tokens: Seq<Lexeme>, i: int) -> Option<HoconSyntaxKind> {
    if 0 <= i < tokens.len() {
        Some(tokens[i].kind)
    } else {
        None
    }
}

fn trivia(kind: HoconSyntaxKind) -> (b: bool)
    ensures
        b == is_trivia(kind),
{
    kind == HoconSyntaxKind::HorizontalWhitespace || kind == HoconSyntaxKind::LineEnding || kind
        == HoconSyntaxKind::HashComment || kind == HoconSyntaxKind::SlashComment
}

fn key_start(kind: HoconSyntaxKind) -> (b: bool)
    ensures
        b == is_key_start(kind),
{
    kind == HoconSyntaxKind::Ident || kind == HoconSyntaxKind::Number
}

fn plain(kind: HoconSyntaxKind) -> (b: bool)
    ensures
        b == is_plain(kind),
{
    key_start(kind) || kind == HoconSyntaxKind::Dot || kind
        == HoconSyntaxKind::HorizontalWhitespace
}

fn value_start(kind: HoconSyntaxKind) -> (b: bool)
    ensures
        b == starts_value(kind),
{
    key_start(kind) || kind == HoconSyntaxKind::Dot || kind == HoconSyntaxKind::LeftBrace || kind
        == HoconSyntaxKind::LeftBracket || kind == HoconSyntaxKind::SubstitutionStart
}

/// A parser at work: the tokens with a cursor, the tree under
/// construction and the diagnostics found so far.
#[derive(Debug)]
pub struct Parser<'a> {
    lexer: Lexer<'a>,
    builder: rowan::GreenNodeBuilder<'static>,
    errors: Vec<Error>,
}

impl<'a> Parser<'a> {
    /// The tokens of the source.
    pub closed spec fn lexemes(&self) -> Seq<Lexeme> {
        self.lexer.lexemes()
    }

    /// The index of the next token to read.
    pub closed spec fn position(&self) -> int {
        self.lexer.position()
    }

    /// The finished elements that are not yet part of a node.
    pub closed spec fn children(&self) -> Seq<Green> {
        builder_children(self.builder)
    }

    /// The nodes in progress, outermost first: the kind of each and the
    /// index in [`Parser::children`] of its first child.
    pub closed spec fn parents(&self) -> Seq<(u16, nat)> {
        builder_parents(self.builder)
    }

    /// The diagnostics found so far.
    pub closed spec fn reported(&self) -> Seq<Diagnostic> {
        diagnostics_of(self.errors@)
    }

    /// The cursor is within the tokens, the nodes in progress are nested
    /// properly, and the source is short enough for a tree, which counts
    /// its bytes in 32 bits.
    pub open spec fn sound(&self) -> bool {
        &&& 0 <= self.position() <= self.lexemes().len()
        &&& stack_is_sound(self.parents(), self.children().len())
        &&& span_text(self.lexemes(), 0, self.lexemes().len() as int).len() <= u32::MAX
        &&& kinds_are_tokens(self.lexemes())
    }

    /// The parser is sound and the tree under construction holds exactly
    /// the text of the tokens read so far, in leaves with the kinds of
    /// tokens and nodes with the kinds of nodes.
    pub open spec fn wf(&self) -> bool {
        &&& self.sound()
        &&& forest_text(self.children()) == span_text(self.lexemes(), 0, self.position())
        &&& all_well_kinded(self.children())
    }

    /// How this state came from `base`: same tokens; the cursor stands
    /// behind `done`; the elements and diagnostics of `done` were added;
    /// the nodes in `frames` were started and are still in progress.
    pub open spec fn at(&self, base: Parser<'a>, frames: Seq<(u16, nat)>, done: Parsed) -> bool {
        &&& self.lexemes() == base.lexemes()
        &&& self.position() == done.next
        &&& self.children() == base.children() + done.nodes
        &&& self.parents() == base.parents() + frames
        &&& self.reported() == base.reported() + done.errors
    }

    /// This state came from `base` by parsing `done`, with every node that
    /// was started since also finished.
    pub open spec fn follows(&self, base: Parser<'a>, done: Parsed) -> bool {
        self.at(base, Seq::empty(), done)
    }

    /// The frame of a node of the given kind that is started in this
    /// state.
    pub open spec fn frame(&self, kind: HoconSyntaxKind) -> Seq<(u16, nat)> {
        seq![(kind.raw(), self.children().len())]
    }

    proof fn lemma_at_itself(self)
        ensures
            self.follows(self, nothing(self.position())),
    {
        assert(self.children() + nothing(self.position()).nodes =~= self.children());
        assert(self.parents() + Seq::<(u16, nat)>::empty() =~= self.parents());
        assert(self.reported() + nothing(self.position()).errors =~= self.reported());
    }

    /// Steps add up: what came from `mid` by `step`, where `mid` came from
    /// `base` by `done`, came from `base` by `done` followed by `step`.
    proof fn lemma_step(
        self,
        base: Parser<'a>,
        mid: Parser<'a>,
        frames: Seq<(u16, nat)>,
        done: Parsed,
        step: Parsed,
    )
        requires
            mid.at(base, frames, done),
            self.follows(mid, step),
        ensures
            self.at(base, frames, done.followed_by(step)),
    {
        assert(self.children() =~= base.children() + done.followed_by(step).nodes);
        assert(self.parents() =~= base.parents() + frames);
        assert(self.reported() =~= base.reported() + done.followed_by(step).errors);
    }

    // -----------------------------------------------------------------
    // Construction
    // -----------------------------------------------------------------

    /// A parser over the tokens of `source` that has read nothing yet.
    pub fn new(source: &'a str) -> (parser: Parser<'a>)
        requires
            source.spec_bytes().len() <= u32::MAX,
        ensures
            parser.wf(),
            parser.lexemes() == lex(source.spec_bytes()),
            tiles(parser.lexemes(), source.spec_bytes()),
            parser.position() == 0,
            parser.children() == Seq::<Green>::empty(),
            parser.parents() == Seq::<(u16, nat)>::empty(),
            parser.reported() == Seq::<Diagnostic>::empty(),
    {
        let lexer = Lexer::new(source);
        let parser = Parser { lexer, builder: builder_new(), errors: Vec::new() };
        proof {
            lemma_tiles_spell_the_text(
                parser.lexemes(),
                source.spec_bytes(),
                parser.lexemes().len() as int,
            );
            assert(parser.reported() =~= Seq::<Diagnostic>::empty());
            assert forall|i: int| 0 <= i < parser.lexemes().len() implies (
            #[trigger] parser.lexemes()[i]).kind.spec_is_token() by {
                assert(tile_at(parser.lexemes(), source.spec_bytes(), i));
            }
        }
        parser
    }

    /// Appends a leaf of the given kind and text to the tree under
    /// construction. Tokens, cursor and diagnostics stay as they are.
    pub fn token(&mut self, kind: HoconSyntaxKind, text: &str)
        ensures
            final(self).lexemes() == old(self).lexemes(),
            final(self).position() == old(self).position(),
            final(self).reported() == old(self).reported(),
            final(self).parents() == old(self).parents(),
            final(self).children() == old(self).children().push(
                Green::Leaf { kind: kind.raw(), text: text.spec_bytes() },
            ),
    {
        builder_token(&mut self.builder, kind.to_raw(), text);
    }

    /// Hands out the finished tree and the diagnostics.
    fn finish(self) -> (parsed: Parse)
        requires
            self.children().len() == 1,
            self.children()[0] is Node,
        ensures
            parsed.tree() == self.children()[0],
            parsed.diagnostics() == self.reported(),
    {
        Parse { green: builder_finish(self.builder), errors: self.errors }
    }

    /// Parses a source text.
    ///
    /// The result is exactly the tree and the diagnostics that the grammar
    /// assigns to the tokens of the source. The tree keeps every byte: the
    /// texts of its leaves, in order, spell the source, so cutting that
    /// text into tokens again gives the same tokens.
    ///
    /// A tree counts the bytes of its text in 32 bits, which bounds the
    /// length of the source. What is stated here of the tree holds of the
    /// grammar for a text of any length: see [`crate::laws`].
    pub fn parse(source: &str) -> (parsed: Parse)
        requires
            source.spec_bytes().len() <= u32::MAX,
        ensures
            parsed.tree() == syntax_tree(lex(source.spec_bytes())),
            parsed.diagnostics() == diagnostics(lex(source.spec_bytes())),
            parsed.tree().text() == source.spec_bytes(),
            lex(parsed.tree().text()) == lex(source.spec_bytes()),
            well_kinded(parsed.tree()),
    {
        let mut parser = Parser::new(source);
        let ghost base = parser;
        let ghost tokens = parser.lexemes();
        parser.open_node(HoconSyntaxKind::Root);
        let ghost mid = parser;
        parser.parse_root_object();
        proof {
            parser.lemma_step(
                base,
                mid,
                base.frame(HoconSyntaxKind::Root),
                nothing(0),
                items(tokens, 0, Scope::Root, 0),
            );
            lemma_followed_by_nothing(items(tokens, 0, Scope::Root, 0));
        }
        parser.close_node(
            Ghost(base),
            Ghost(items(tokens, 0, Scope::Root, 0)),
            HoconSyntaxKind::Root,
        );
        proof {
            let root = syntax_tree(tokens);
            assert(parser.children() =~= seq![root]);
            assert(well_kinded(parser.children()[0]));
            assert(parser.reported() =~= diagnostics(tokens));
            lemma_forest_text_push(Seq::empty(), root);
            assert(Seq::<Green>::empty().push(root) =~= seq![root]);
            assert(forest_text(seq![root]) =~= root.text());
            lemma_tiles_spell_the_text(tokens, source.spec_bytes(), tokens.len() as int);
        }
        parser.finish()
    }

    /// Parses a source text of any length: `None` for one that is too
    /// long for a tree, else what [`Parser::parse`] returns.
    pub fn try_parse(source: &str) -> (parsed: Option<Parse>)
        ensures
            parsed is Some <==> source.spec_bytes().len() <= u32::MAX,
            parsed matches Some(p) ==> {
                &&& p.tree() == syntax_tree(lex(source.spec_bytes()))
                &&& p.diagnostics() == diagnostics(lex(source.spec_bytes()))
                &&& p.tree().text() == source.spec_bytes()
                &&& lex(p.tree().text()) == lex(source.spec_bytes())
                &&& well_kinded(p.tree())
            },
    {
        if source.as_bytes().len() <= 0xFFFF_FFFF {
            Some(Parser::parse(source))
        } else {
            None
        }
    }

    // -----------------------------------------------------------------
    // Single steps
    // -----------------------------------------------------------------

    /// The kind of the next token, if there is one.
    fn peek_kind(&self) -> (kind: Option<HoconSyntaxKind>)
        ensures
            kind == kind_at(self.lexemes(), self.position()),
    {
        match self.lexer.current() {
            Some(token) => Some(token.token),
            None => None,
        }
    }

    /// The range of the next token.
    fn peek_range(&self) -> (range: Span)
        requires
            0 <= self.position() < self.lexemes().len(),
        ensures
            range.start == self.lexemes()[self.position()].start,
            range.end == self.lexemes()[self.position()].end,
    {
        match self.lexer.current() {
            Some(token) => token.range,
            None => Span::empty(0),
        }
    }

    /// The offset at which the source ends.
    fn end_offset(&self) -> (end: usize)
        ensures
            end == end_of(self.lexemes()),
    {
        let tokens = self.lexer.tokens();
        let n = tokens.len();
        if n == 0 {
            0
        } else {
            tokens[n - 1].range.end
        }
    }

    /// Reads the next token and keeps it as a leaf of its own kind.
    fn bump_leaf(&mut self)
        requires
            old(self).wf(),
            old(self).position() < old(self).lexemes().len(),
        ensures
            final(self).wf(),
            final(self).follows(*old(self), leaf(old(self).lexemes(), old(self).position())),
    {
        let ghost before = *self;
        proof {
            self.lexer.lemma_count_fits();
        }
        let token = self.lexer.next();
        match token {
            Some(t) => {
                self.token(t.token, t.slice);
            },
            None => {},
        }
        proof {
            let added = leaf(before.lexemes(), before.position()).nodes;
            assert(self.children() =~= before.children() + added);
            assert(self.parents() =~= before.parents() + Seq::<(u16, nat)>::empty());
            assert(self.reported() =~= before.reported() + Seq::<Diagnostic>::empty());
            lemma_forest_text_push(before.children(), added[0]);
        }
    }

    /// Reads the next token, keeps it as an `Error` leaf and reports it.
    fn bump_error(&mut self, message: &str)
        requires
            old(self).wf(),
            old(self).position() < old(self).lexemes().len(),
        ensures
            final(self).wf(),
            final(self).follows(
                *old(self),
                stray(old(self).lexemes(), old(self).position(), message@),
            ),
    {
        let ghost before = *self;
        proof {
            self.lexer.lemma_count_fits();
        }
        let token = self.lexer.next();
        match token {
            Some(t) => {
                self.token(HoconSyntaxKind::Error, t.slice);
                self.errors.push(Error::new(t.range, message));
            },
            None => {},
        }
        proof {
            let step = stray(before.lexemes(), before.position(), message@);
            assert(self.children() =~= before.children() + step.nodes);
            assert(self.parents() =~= before.parents() + Seq::<(u16, nat)>::empty());
            assert(self.reported() =~= before.reported() + step.errors);
            lemma_forest_text_push(before.children(), step.nodes[0]);
        }
    }

    /// Reports a range of the source without reading anything.
    fn report(&mut self, range: Span, message: &str)
        requires
            old(self).wf(),
        ensures
            final(self).wf(),
            final(self).follows(
                *old(self),
                problem(range.start as int, range.end as int, message@, old(self).position()),
            ),
    {
        let ghost before = *self;
        self.errors.push(Error::new(range, message));
        proof {
            let step = problem(range.start as int, range.end as int, message@, before.position());
            assert(self.children() =~= before.children() + step.nodes);
            assert(self.parents() =~= before.parents() + Seq::<(u16, nat)>::empty());
            assert(self.reported() =~= before.reported() + step.errors);
        }
    }

    /// Starts a node of the given kind; what is parsed from here on goes
    /// into it.
    fn open_node(&mut self, kind: HoconSyntaxKind)
        requires
            old(self).wf(),
        ensures
            final(self).wf(),
            final(self).at(*old(self), old(self).frame(kind), nothing(old(self).position())),
    {
        let ghost before = *self;
        builder_start_node(&mut self.builder, kind.to_raw());
        proof {
            assert(self.children() =~= before.children() + nothing(before.position()).nodes);
            assert(self.parents() =~= before.parents() + before.frame(kind));
            assert(self.reported() =~= before.reported() + nothing(before.position()).errors);
        }
    }

    /// Finishes the node of the given kind that was started in the state
    /// `base` and has received `body` since.
    fn close_node(
        &mut self,
        Ghost(base): Ghost<Parser<'a>>,
        Ghost(body): Ghost<Parsed>,
        kind: HoconSyntaxKind,
    )
        requires
            old(self).wf(),
            old(self).at(base, base.frame(kind), body),
            kind.spec_is_node(),
        ensures
            final(self).wf(),
            final(self).follows(base, body.wrap(kind)),
    {
        let ghost before = *self;
        let ghost first = base.children().len() as int;
        proof {
            assert(before.parents().last() == (kind.raw(), base.children().len()));
            lemma_forest_text_wrapped(before.children(), first, kind.raw());
            lemma_span_text_grows(before.lexemes(), before.position());
        }
        builder_finish_node(&mut self.builder);
        proof {
            assert(before.children().subrange(0, first) =~= base.children());
            assert(before.children().subrange(first, before.children().len() as int)
                =~= body.nodes);
            assert(self.children() =~= base.children() + body.wrap(kind).nodes);
            assert(self.parents() =~= base.parents() + Seq::<(u16, nat)>::empty());
            assert(self.reported() =~= base.reported() + body.wrap(kind).errors);
            assert forall|j: int, k: int| 0 <= j <= k < self.parents().len() implies (
            #[trigger] self.parents()[j]).1 <= (#[trigger] self.parents()[k]).1 by {
                assert(self.parents()[j] == before.parents()[j]);
                assert(self.parents()[k] == before.parents()[k]);
            }
            assert forall|k: int| 0 <= k < self.parents().len() implies (
            #[trigger] self.parents()[k]).1 <= self.children().len() by {
                assert(self.parents()[k] == before.parents()[k]);
            }
            assert forall|i: int| 0 <= i < body.nodes.len() implies well_kinded(
                #[trigger] body.nodes[i],
            ) by {
                assert(body.nodes[i] == before.children()[first + i]);
            }
            assert forall|i: int| 0 <= i < self.children().len() implies well_kinded(
                #[trigger] self.children()[i],
            ) by {
                if i < first {
                    assert(self.children()[i] == before.children()[i]);
                }
            }
        }
    }

    // -----------------------------------------------------------------
    // The grammar
    // -----------------------------------------------------------------

    /// Parses the items at the top of the document, up to the end of the
    /// input.
    fn parse_root_object(&mut self)
        requires
            old(self).wf(),
        ensures
            final(self).wf(),
            final(self).follows(
                *old(self),
                items(old(self).lexemes(), old(self).position(), Scope::Root, 0),
            ),
            final(self).position() == final(self).lexemes().len(),
        decreases old(self).lexemes().len() - old(self).position(), 5int,
    {
        self.parse_items(Scope::Root, Span::empty(0), Ghost(0));
    }

    /// Parses the object whose `{` is the next token.
    fn parse_object(&mut self)
        requires
            old(self).wf(),
            kind_at(old(self).lexemes(), old(self).position()) == Some(HoconSyntaxKind::LeftBrace),
        ensures
            final(self).wf(),
            final(self).follows(*old(self), compound(old(self).lexemes(), old(self).position())),
            final(self).position() > old(self).position(),
        decreases old(self).lexemes().len() - old(self).position(), 0int,
    {
        let ghost base = *self;
        let ghost tokens = self.lexemes();
        let ghost i = self.position();
        let opener = self.peek_range();
        self.open_node(HoconSyntaxKind::Object);
        let ghost opened = *self;
        self.bump_leaf();
        proof {
            self.lemma_step(
                base,
                opened,
                base.frame(HoconSyntaxKind::Object),
                nothing(i),
                leaf(tokens, i),
            );
            lemma_followed_by_nothing(leaf(tokens, i));
        }
        let ghost inside = *self;
        self.parse_items(Scope::Object, opener, Ghost(i));
        proof {
            self.lemma_step(
                base,
                inside,
                base.frame(HoconSyntaxKind::Object),
                leaf(tokens, i),
                items(tokens, i + 1, Scope::Object, i),
            );
        }
        self.close_node(
            Ghost(base),
            Ghost(leaf(tokens, i).followed_by(items(tokens, i + 1, Scope::Object, i))),
            HoconSyntaxKind::Object,
        );
    }

    /// Parses the array whose `[` is the next token.
    fn parse_array(&mut self)
        requires
            old(self).wf(),
            kind_at(old(self).lexemes(), old(self).position()) == Some(
                HoconSyntaxKind::LeftBracket,
            ),
        ensures
            final(self).wf(),
            final(self).follows(*old(self), compound(old(self).lexemes(), old(self).position())),
            final(self).position() > old(self).position(),
        decreases old(self).lexemes().len() - old(self).position(), 0int,
    {
        let ghost base = *self;
        let ghost tokens = self.lexemes();
        let ghost i = self.position();
        let opener = self.peek_range();
        self.open_node(HoconSyntaxKind::Array);
        let ghost opened = *self;
        self.bump_leaf();
        proof {
            self.lemma_step(
                base,
                opened,
                base.frame(HoconSyntaxKind::Array),
                nothing(i),
                leaf(tokens, i),
            );
            lemma_followed_by_nothing(leaf(tokens, i));
        }
        let ghost inside = *self;
        self.parse_items(Scope::Array, opener, Ghost(i));
        proof {
            self.lemma_step(
                base,
                inside,
                base.frame(HoconSyntaxKind::Array),
                leaf(tokens, i),
                items(tokens, i + 1, Scope::Array, i),
            );
        }
        self.close_node(
            Ghost(base),
            Ghost(leaf(tokens, i).followed_by(items(tokens, i + 1, Scope::Array, i))),
            HoconSyntaxKind::Array,
        );
    }

    /// Reads plain tokens as leaves, up to the first token that is not
    /// plain.
    fn parse_plain_run(&mut self)
        requires
            old(self).wf(),
        ensures
            final(self).wf(),
            final(self).follows(
                *old(self),
                Parsed {
                    nodes: leaves(
                        old(self).lexemes(),
                        old(self).position(),
                        plain_end(old(self).lexemes(), old(self).position()),
                    ),
                    errors: Seq::empty(),
                    next: plain_end(old(self).lexemes(), old(self).position()),
                },
            ),
            final(self).position() >= old(self).position(),
    {
        let ghost base = *self;
        let ghost tokens = self.lexemes();
        let ghost start = self.position();
        proof {
            base.lemma_at_itself();
            assert(leaves(tokens, start, start) =~= Seq::<Green>::empty());
        }
        loop
            invariant
                self.wf(),
                start <= self.position() <= tokens.len(),
                plain_end(tokens, self.position()) == plain_end(tokens, start),
                self.follows(
                    base,
                    Parsed {
                        nodes: leaves(tokens, start, self.position()),
                        errors: Seq::empty(),
                        next: self.position(),
                    },
                ),
                base.lexemes() == tokens,
            ensures
                self.wf(),
                start <= self.position(),
                self.position() == plain_end(tokens, start),
                self.follows(
                    base,
                    Parsed {
                        nodes: leaves(tokens, start, self.position()),
                        errors: Seq::empty(),
                        next: self.position(),
                    },
                ),
            decreases tokens.len() - self.position(),
        {
            let ghost mid = *self;
            let ghost i = self.position();
            match self.peek_kind() {
                Some(kind) => {
                    if !plain(kind) {
                        break;
                    }
                    self.bump_leaf();
                    proof {
                        let done = Parsed {
                            nodes: leaves(tokens, start, i),
                            errors: Seq::empty(),
                            next: i,
                        };
                        self.lemma_step(base, mid, Seq::empty(), done, leaf(tokens, i));
                        assert(done.followed_by(leaf(tokens, i)).nodes =~= leaves(
                            tokens,
                            start,
                            i + 1,
                        ));
                        assert(done.followed_by(leaf(tokens, i)).errors =~= Seq::<
                            Diagnostic,
                        >::empty());
                    }
                },
                None => {
                    break;
                },
            }
        }
    }

    /// Parses the substitution whose opener is the next token.
    fn parse_substitution(&mut self)
        requires
            old(self).wf(),
            kind_at(old(self).lexemes(), old(self).position()) == Some(
                HoconSyntaxKind::SubstitutionStart,
            ),
        ensures
            final(self).wf(),
            final(self).follows(*old(self), compound(old(self).lexemes(), old(self).position())),
            final(self).position() > old(self).position(),
    {
        let ghost base = *self;
        let ghost tokens = self.lexemes();
        let ghost i = self.position();
        let ghost end = plain_end(tokens, i + 1);
        let ghost path = Parsed {
            nodes: leaves(tokens, i + 1, end),
            errors: Seq::empty(),
            next: end,
        };
        let ghost kind = HoconSyntaxKind::Substitution;
        let opener = self.peek_range();
        self.open_node(HoconSyntaxKind::Substitution);
        let ghost opened = *self;
        self.bump_leaf();
        proof {
            self.lemma_step(base, opened, base.frame(kind), nothing(i), leaf(tokens, i));
            lemma_followed_by_nothing(leaf(tokens, i));
        }
        let ghost inside = *self;
        self.open_node(HoconSyntaxKind::PathExpression);
        let ghost path_opened = *self;
        self.parse_plain_run();
        proof {
            self.lemma_step(
                inside,
                path_opened,
                inside.frame(HoconSyntaxKind::PathExpression),
                nothing(i + 1),
                path,
            );
            lemma_followed_by_nothing(path);
        }
        self.close_node(Ghost(inside), Ghost(path), HoconSyntaxKind::PathExpression);
        proof {
            self.lemma_step(
                base,
                inside,
                base.frame(kind),
                leaf(tokens, i),
                path.wrap(HoconSyntaxKind::PathExpression),
            );
        }
        let ghost before_close = *self;
        let ghost head = leaf(tokens, i).followed_by(path.wrap(HoconSyntaxKind::PathExpression));
        match self.peek_kind() {
            Some(HoconSyntaxKind::RightBrace) => {
                self.bump_leaf();
            },
            _ => {
                self.report(opener, UNTERMINATED_SUBSTITUTION);
            },
        }
        proof {
            self.lemma_step(
                base,
                before_close,
                base.frame(kind),
                head,
                substitution_close(tokens, i, end),
            );
        }
        self.close_node(
            Ghost(base),
            Ghost(head.followed_by(substitution_close(tokens, i, end))),
            HoconSyntaxKind::Substitution,
        );
    }

    /// Parses the content of a key: plain tokens, which go into one
    /// `PathExpression` from the first dot on. The path is started at the
    /// point where the key began, so it also takes what was read before
    /// the dot.
    fn parse_key(&mut self)
        requires
            old(self).wf(),
        ensures
            final(self).wf(),
            final(self).follows(*old(self), key(old(self).lexemes(), old(self).position())),
            final(self).position() >= old(self).position(),
            old(self).position() < old(self).lexemes().len() && is_plain(
                old(self).lexemes()[old(self).position()].kind,
            ) ==> final(self).position() > old(self).position(),
    {
        let ghost base = *self;
        let ghost tokens = self.lexemes();
        let ghost start = self.position();
        let ghost path = seq![
            (HoconSyntaxKind::PathExpression.raw(), base.children().len()),
        ];
        let point = builder_checkpoint(&self.builder);
        let mut point_started = false;
        proof {
            base.lemma_at_itself();
            assert(leaves(tokens, start, start) =~= Seq::<Green>::empty());
        }
        loop
            invariant
                self.wf(),
                base.wf(),
                base.lexemes() == tokens,
                start <= self.position() <= tokens.len(),
                plain_end(tokens, self.position()) == plain_end(tokens, start),
                point_started == has_dot(tokens, start, self.position()),
                checkpoint_position(point) == base.children().len(),
                path == seq![(HoconSyntaxKind::PathExpression.raw(), base.children().len())],
                self.at(
                    base,
                    if point_started {
                        path
                    } else {
                        Seq::empty()
                    },
                    Parsed {
                        nodes: leaves(tokens, start, self.position()),
                        errors: Seq::empty(),
                        next: self.position(),
                    },
                ),
            ensures
                self.wf(),
                base.lexemes() == tokens,
                start <= self.position(),
                0 <= start < tokens.len() && is_plain(tokens[start].kind) ==> start
                    < self.position(),
                self.position() == plain_end(tokens, start),
                point_started == has_dot(tokens, start, self.position()),
                self.at(
                    base,
                    if point_started {
                        path
                    } else {
                        Seq::empty()
                    },
                    Parsed {
                        nodes: leaves(tokens, start, self.position()),
                        errors: Seq::empty(),
                        next: self.position(),
                    },
                ),
            decreases tokens.len() - self.position(),
        {
            let ghost i = self.position();
            let ghost done = Parsed {
                nodes: leaves(tokens, start, i),
                errors: Seq::empty(),
                next: i,
            };
            match self.peek_kind() {
                Some(kind) => {
                    if !plain(kind) {
                        break;
                    }
                    if kind == HoconSyntaxKind::Dot && !point_started {
                        self.open_path(point, Ghost(base));
                        point_started = true;
                    }
                    let ghost mid = *self;
                    self.bump_leaf();
                    proof {
                        self.lemma_step(
                            base,
                            mid,
                            if point_started {
                                path
                            } else {
                                Seq::empty()
                            },
                            done,
                            leaf(tokens, i),
                        );
                        assert(done.followed_by(leaf(tokens, i)).nodes =~= leaves(
                            tokens,
                            start,
                            i + 1,
                        ));
                        assert(done.followed_by(leaf(tokens, i)).errors =~= Seq::<
                            Diagnostic,
                        >::empty());
                        if has_dot(tokens, start, i + 1) {
                            let k = choose|k: int|
                                start <= k < i + 1 && #[trigger] tokens[k].kind
                                    == HoconSyntaxKind::Dot;
                            if k < i {
                                assert(has_dot(tokens, start, i));
                            }
                        }
                    }
                },
                None => {
                    break;
                },
            }
        }
        if point_started {
            self.close_node(
                Ghost(base),
                Ghost(
                    Parsed {
                        nodes: leaves(tokens, start, self.position()),
                        errors: Seq::empty(),
                        next: self.position(),
                    },
                ),
                HoconSyntaxKind::PathExpression,
            );
        }
    }

    /// Starts a `PathExpression` at a point recorded earlier, so that what
    /// was read since becomes part of it.
    fn open_path(&mut self, point: rowan::Checkpoint, Ghost(base): Ghost<Parser<'a>>)
        requires
            old(self).wf(),
            checkpoint_position(point) == base.children().len(),
            old(self).parents() == base.parents(),
            base.children().len() <= old(self).children().len(),
            stack_is_sound(base.parents(), base.children().len()),
        ensures
            final(self).wf(),
            final(self).lexemes() == old(self).lexemes(),
            final(self).position() == old(self).position(),
            final(self).children() == old(self).children(),
            final(self).reported() == old(self).reported(),
            final(self).parents() == old(self).parents().push(
                (HoconSyntaxKind::PathExpression.raw(), base.children().len()),
            ),
    {
        builder_start_node_at(&mut self.builder, point, HoconSyntaxKind::PathExpression.to_raw());
    }

    /// Reads blanks as leaves.
    fn parse_whitespace(&mut self)
        requires
            old(self).wf(),
        ensures
            final(self).wf(),
            final(self).follows(*old(self), blanks(old(self).lexemes(), old(self).position())),
            final(self).position() >= old(self).position(),
    {
        let ghost base = *self;
        let ghost tokens = self.lexemes();
        let ghost start = self.position();
        proof {
            base.lemma_at_itself();
            assert(leaves(tokens, start, start) =~= Seq::<Green>::empty());
        }
        loop
            invariant
                self.wf(),
                start <= self.position() <= tokens.len(),
                blanks_end(tokens, self.position()) == blanks_end(tokens, start),
                self.follows(
                    base,
                    Parsed {
                        nodes: leaves(tokens, start, self.position()),
                        errors: Seq::empty(),
                        next: self.position(),
                    },
                ),
                base.lexemes() == tokens,
            ensures
                self.wf(),
                start <= self.position(),
                self.position() == blanks_end(tokens, start),
                self.follows(
                    base,
                    Parsed {
                        nodes: leaves(tokens, start, self.position()),
                        errors: Seq::empty(),
                        next: self.position(),
                    },
                ),
            decreases tokens.len() - self.position(),
        {
            let ghost mid = *self;
            let ghost i = self.position();
            match self.peek_kind() {
                Some(HoconSyntaxKind::HorizontalWhitespace) => {
                    self.bump_leaf();
                    proof {
                        let done = Parsed {
                            nodes: leaves(tokens, start, i),
                            errors: Seq::empty(),
                            next: i,
                        };
                        self.lemma_step(base, mid, Seq::empty(), done, leaf(tokens, i));
                        assert(done.followed_by(leaf(tokens, i)).nodes =~= leaves(
                            tokens,
                            start,
                            i + 1,
                        ));
                        assert(done.followed_by(leaf(tokens, i)).errors =~= Seq::<
                            Diagnostic,
                        >::empty());
                    }
                },
                _ => {
                    break;
                },
            }
        }
    }

    /// Parses the separator between a key and its value, if there is one.
    fn parse_separator(&mut self)
        requires
            old(self).wf(),
        ensures
            final(self).wf(),
            final(self).follows(*old(self), separator(old(self).lexemes(), old(self).position())),
            final(self).position() >= old(self).position(),
    {
        let ghost base = *self;
        let ghost tokens = self.lexemes();
        let ghost i = self.position();
        match self.peek_kind() {
            Some(kind) => {
                if kind == HoconSyntaxKind::Equals || kind == HoconSyntaxKind::Colon {
                    self.bump_leaf();
                } else if kind == HoconSyntaxKind::Plus {
                    self.bump_leaf();
                    let ghost mid = *self;
                    match self.peek_kind() {
                        Some(HoconSyntaxKind::Equals) => {
                            self.bump_leaf();
                        },
                        Some(_) => {
                            self.bump_error(MALFORMED_APPEND);
                        },
                        None => {
                            let end = self.end_offset();
                            self.report(Span::empty(end), MALFORMED_APPEND);
                        },
                    }
                    proof {
                        self.lemma_step(
                            base,
                            mid,
                            Seq::empty(),
                            leaf(tokens, i),
                            append_tail(tokens, i + 1),
                        );
                    }
                } else if key_start(kind) || kind == HoconSyntaxKind::LeftBrace || kind
                    == HoconSyntaxKind::LeftBracket {
                    proof {
                        base.lemma_at_itself();
                    }
                } else {
                    self.bump_error(UNEXPECTED_SEPARATOR);
                }
            },
            None => {
                let end = self.end_offset();
                self.report(Span::empty(end), MISSING_SEPARATOR);
            },
        }
    }

    /// Parses the entry whose key starts with the next token: the key, the
    /// separator and the value.
    fn parse_object_entries(&mut self)
        requires
            old(self).wf(),
            old(self).position() < old(self).lexemes().len(),
            is_key_start(old(self).lexemes()[old(self).position()].kind),
        ensures
            final(self).wf(),
            final(self).follows(*old(self), entry(old(self).lexemes(), old(self).position())),
            final(self).position() > old(self).position(),
        decreases old(self).lexemes().len() - old(self).position(), 2int,
    {
        let ghost base = *self;
        let ghost tokens = self.lexemes();
        let ghost i = self.position();
        let ghost frame = base.frame(HoconSyntaxKind::Entry);
        let ghost key_node = key(tokens, i).wrap(HoconSyntaxKind::Key);
        let ghost gap = blanks(tokens, key_node.next);
        let ghost head = entry_head(tokens, i);
        self.open_node(HoconSyntaxKind::Entry);
        let ghost opened = *self;

        self.open_node(HoconSyntaxKind::Key);
        let ghost key_opened = *self;
        self.parse_key();
        proof {
            self.lemma_step(
                opened,
                key_opened,
                opened.frame(HoconSyntaxKind::Key),
                nothing(i),
                key(tokens, i),
            );
            lemma_followed_by_nothing(key(tokens, i));
        }
        self.close_node(Ghost(opened), Ghost(key(tokens, i)), HoconSyntaxKind::Key);
        proof {
            self.lemma_step(base, opened, frame, nothing(i), key_node);
            lemma_followed_by_nothing(key_node);
        }

        let ghost after_key = *self;
        self.parse_whitespace();
        proof {
            self.lemma_step(base, after_key, frame, key_node, gap);
        }

        let ghost after_gap = *self;
        self.parse_separator();
        proof {
            self.lemma_step(
                base,
                after_gap,
                frame,
                key_node.followed_by(gap),
                separator(tokens, gap.next),
            );
        }

        let ghost after_head = *self;
        let ghost value = value_items(tokens, head.next);
        self.open_node(HoconSyntaxKind::Value);
        let ghost value_opened = *self;
        self.parse_value();
        proof {
            self.lemma_step(
                after_head,
                value_opened,
                after_head.frame(HoconSyntaxKind::Value),
                nothing(head.next),
                value,
            );
            lemma_followed_by_nothing(value);
        }
        self.close_node(Ghost(after_head), Ghost(value), HoconSyntaxKind::Value);
        proof {
            self.lemma_step(base, after_head, frame, head, value.wrap(HoconSyntaxKind::Value));
        }
        self.close_node(
            Ghost(base),
            Ghost(head.followed_by(value.wrap(HoconSyntaxKind::Value))),
            HoconSyntaxKind::Entry,
        );
    }

    /// Parses the content of a value: plain tokens, objects, arrays and
    /// substitutions, up to the first token that is none of these.
    fn parse_value(&mut self)
        requires
            old(self).wf(),
        ensures
            final(self).wf(),
            final(self).follows(
                *old(self),
                value_items(old(self).lexemes(), old(self).position()),
            ),
            final(self).position() >= old(self).position(),
            old(self).position() < old(self).lexemes().len() && starts_value(
                old(self).lexemes()[old(self).position()].kind,
            ) ==> final(self).position() > old(self).position(),
        decreases old(self).lexemes().len() - old(self).position(), 1int,
    {
        let ghost base = *self;
        let ghost tokens = self.lexemes();
        let ghost start = self.position();
        let ghost mut done = nothing(start);
        proof {
            base.lemma_at_itself();
            lemma_followed_by_nothing(value_items(tokens, start));
        }
        loop
            invariant_except_break
                self.follows(base, done),
                done.followed_by(value_items(tokens, self.position())) == value_items(
                    tokens,
                    start,
                ),
            invariant
                self.wf(),
                base.lexemes() == tokens,
                old(self).lexemes() == tokens,
                old(self).position() == start,
                self.lexemes() == tokens,
                start <= self.position() <= tokens.len(),
            ensures
                start <= self.position(),
                self.follows(base, value_items(tokens, start)),
                0 <= start < tokens.len() && starts_value(tokens[start].kind) ==> self.position()
                    > start,
            decreases tokens.len() - self.position(),
        {
            let ghost mid = *self;
            let ghost i = self.position();
            let kind = match self.peek_kind() {
                Some(kind) => kind,
                None => {
                    proof {
                        lemma_followed_by_nothing(done);
                    }
                    break;
                },
            };
            let ghost step = if is_plain(kind) {
                leaf(tokens, i)
            } else {
                compound(tokens, i)
            };
            if plain(kind) {
                self.bump_leaf();
            } else if kind == HoconSyntaxKind::LeftBrace {
                self.parse_object();
            } else if kind == HoconSyntaxKind::LeftBracket {
                self.parse_array();
            } else if kind == HoconSyntaxKind::SubstitutionStart {
                self.parse_substitution();
            } else {
                proof {
                    lemma_followed_by_nothing(done);
                }
                break;
            }
            proof {
                self.lemma_step(base, mid, Seq::empty(), done, step);
                lemma_followed_by_is_associative(done, step, value_items(tokens, step.next));
                done = done.followed_by(step);
            }
        }
    }

    /// Parses one item of a list.
    fn parse_item(&mut self, scope: Scope)
        requires
            old(self).wf(),
            old(self).position() < old(self).lexemes().len(),
        ensures
            final(self).wf(),
            final(self).follows(
                *old(self),
                item(old(self).lexemes(), old(self).position(), scope),
            ),
            final(self).position() > old(self).position(),
        decreases old(self).lexemes().len() - old(self).position(), 3int,
    {
        let ghost base = *self;
        let ghost tokens = self.lexemes();
        let ghost i = self.position();
        let kind = match self.peek_kind() {
            Some(kind) => kind,
            None => HoconSyntaxKind::Error,
        };
        let at_root = match scope {
            Scope::Root => true,
            _ => false,
        };
        let in_array = match scope {
            Scope::Array => true,
            _ => false,
        };
        if trivia(kind) || (in_array && kind == HoconSyntaxKind::Comma) {
            self.bump_leaf();
        } else if at_root && (kind == HoconSyntaxKind::LeftBrace || kind
            == HoconSyntaxKind::RightBrace) {
            self.bump_leaf();
        } else if !in_array && key_start(kind) {
            self.parse_object_entries();
        } else if in_array && value_start(kind) {
            self.open_node(HoconSyntaxKind::Value);
            let ghost opened = *self;
            self.parse_value();
            proof {
                self.lemma_step(
                    base,
                    opened,
                    base.frame(HoconSyntaxKind::Value),
                    nothing(i),
                    value_items(tokens, i),
                );
                lemma_followed_by_nothing(value_items(tokens, i));
            }
            self.close_node(Ghost(base), Ghost(value_items(tokens, i)), HoconSyntaxKind::Value);
        } else {
            self.bump_error(UNEXPECTED_TOKEN);
        }
    }

    /// Parses the items of a list up to and with the token that closes it.
    /// `opener` is the range of the token that opened the list; a list
    /// that the input ends in is reported there.
    fn parse_items(&mut self, scope: Scope, opener: Span, Ghost(at): Ghost<int>)
        requires
            old(self).wf(),
            scope != Scope::Root ==> 0 <= at < old(self).lexemes().len() && opener.start == old(
                self,
            ).lexemes()[at].start && opener.end == old(self).lexemes()[at].end,
        ensures
            final(self).wf(),
            final(self).follows(
                *old(self),
                items(old(self).lexemes(), old(self).position(), scope, at),
            ),
            final(self).position() >= old(self).position(),
            scope == Scope::Root ==> final(self).position() == final(self).lexemes().len(),
        decreases old(self).lexemes().len() - old(self).position(), 4int,
    {
        let ghost base = *self;
        let ghost tokens = self.lexemes();
        let ghost start = self.position();
        let ghost mut done = nothing(start);
        proof {
            base.lemma_at_itself();
            lemma_followed_by_nothing(items(tokens, start, scope, at));
        }
        loop
            invariant_except_break
                self.follows(base, done),
                done.followed_by(items(tokens, self.position(), scope, at)) == items(
                    tokens,
                    start,
                    scope,
                    at,
                ),
            invariant
                self.wf(),
                base.lexemes() == tokens,
                old(self).lexemes() == tokens,
                old(self).position() == start,
                self.lexemes() == tokens,
                start <= self.position() <= tokens.len(),
                scope != Scope::Root ==> 0 <= at < tokens.len() && opener.start
                    == tokens[at].start && opener.end == tokens[at].end,
            ensures
                start <= self.position(),
                self.follows(base, items(tokens, start, scope, at)),
                scope == Scope::Root ==> self.position() == tokens.len(),
            decreases tokens.len() - self.position(),
        {
            let ghost mid = *self;
            let ghost i = self.position();
            let ghost rest = items(tokens, i, scope, at);
            let kind = match self.peek_kind() {
                Some(kind) => kind,
                None => {
                    match scope {
                        Scope::Root => {
                            proof {
                                lemma_followed_by_nothing(done);
                            }
                        },
                        Scope::Object => {
                            self.report(opener, UNTERMINATED_OBJECT);
                            proof {
                                self.lemma_step(base, mid, Seq::empty(), done, rest);
                            }
                        },
                        Scope::Array => {
                            self.report(opener, UNTERMINATED_ARRAY);
                            proof {
                                self.lemma_step(base, mid, Seq::empty(), done, rest);
                            }
                        },
                    }
                    break;
                },
            };
            let closes = match scope {
                Scope::Root => false,
                Scope::Object => kind == HoconSyntaxKind::RightBrace,
                Scope::Array => kind == HoconSyntaxKind::RightBracket,
            };
            if closes {
                self.bump_leaf();
                proof {
                    self.lemma_step(base, mid, Seq::empty(), done, rest);
                }
                break;
            }
            self.parse_item(scope);
            proof {
                let step = item(tokens, i, scope);
                self.lemma_step(base, mid, Seq::empty(), done, step);
                lemma_followed_by_is_associative(
                    done,
                    step,
                    items(tokens, step.next, scope, at),
                );
                done = done.followed_by(step);
            }
        }
    }
}

} // verus!
