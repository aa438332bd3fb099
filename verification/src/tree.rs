//! The green tree and its builder, as `rowan` provides them.
//!
//! Verus cannot look into `rowan`'s types, so this module gives each of them
//! a mathematical reading and states, for every call the parser makes, what
//! the call does to that reading. These statements are taken from `rowan`'s
//! source; they are believed, not proved.

use vstd::prelude::*;
use vstd::string::StringSliceAdditionalSpecFns;

verus! {

/// The mathematical reading of a green element: a leaf with its kind and
/// the bytes of its text, or a node with its kind and its children in
/// order. Kinds are the raw numbers that `rowan` stores.
pub enum Green {
    Leaf { kind: u16, text: Seq<u8> },
    Node { kind: u16, children: Seq<Green> },
}

impl Green {
    /// The text that the element covers: the texts of its leaves, in order.
    pub open spec fn text(self) -> Seq<u8>
        decreases self,
    {
        match self {
            Green::Leaf { text, .. } => text,
            Green::Node { children, .. } => forest_text(children),
        }
    }
}

/// The text that a sequence of elements covers.
pub open spec fn forest_text(elements: Seq<Green>) -> Seq<u8>
    decreases elements,
{
    if elements.len() == 0 {
        Seq::<u8>::empty()
    } else {
        forest_text(elements.drop_last()) + elements.last().text()
    }
}

#[verifier::external_type_specification]
#[verifier::external_body]
pub struct ExGreenNodeBuilder<'a>(rowan::GreenNodeBuilder<'a>);

#[verifier::external_type_specification]
#[verifier::external_body]
pub struct ExCheckpoint(rowan::Checkpoint);

#[verifier::external_type_specification]
#[verifier::external_body]
pub struct ExGreenNode(rowan::GreenNode);

/// The finished elements that a builder holds and has not yet put into a
/// node, oldest first (its field `children`).
pub uninterp spec fn builder_children(b: rowan::GreenNodeBuilder<'static>) -> Seq<Green>;

/// The nodes that a builder has started and not finished, outermost first
/// (its field `parents`): the kind of each and the position in
/// [`builder_children`] at which its first child stands.
pub uninterp spec fn builder_parents(b: rowan::GreenNodeBuilder<'static>) -> Seq<(u16, nat)>;

/// The position in [`builder_children`] that a checkpoint recorded.
pub uninterp spec fn checkpoint_position(c: rowan::Checkpoint) -> nat;

/// The tree that a green node holds.
pub uninterp spec fn green_tree(n: rowan::GreenNode) -> Green;

/// `GreenNodeBuilder::new`: a builder that holds nothing.
#[verifier::external_body]
pub(crate) fn builder_new() -> (b: rowan::GreenNodeBuilder<'static>)
    ensures
        builder_children(b) == Seq::<Green>::empty(),
        builder_parents(b) == Seq::<(u16, nat)>::empty(),
{
    rowan::GreenNodeBuilder::new()
}

/// `GreenNodeBuilder::token`: appends a leaf with the given kind and text
/// to the elements held. The nodes in progress stay as they are.
#[verifier::external_body]
pub(crate) fn builder_token(b: &mut rowan::GreenNodeBuilder<'static>, kind: u16, text: &str)
    ensures
        builder_children(*final(b)) == builder_children(*old(b)).push(
            Green::Leaf { kind, text: text.spec_bytes() },
        ),
        builder_parents(*final(b)) == builder_parents(*old(b)),
{
    b.token(rowan::SyntaxKind(kind), text)
}

/// `GreenNodeBuilder::start_node`: starts a node of the given kind whose
/// first child will be the next element appended.
#[verifier::external_body]
pub(crate) fn builder_start_node(b: &mut rowan::GreenNodeBuilder<'static>, kind: u16)
    ensures
        builder_children(*final(b)) == builder_children(*old(b)),
        builder_parents(*final(b)) == builder_parents(*old(b)).push(
            (kind, builder_children(*old(b)).len()),
        ),
{
    b.start_node(rowan::SyntaxKind(kind))
}

/// `GreenNodeBuilder::finish_node`: takes the innermost node in progress
/// off the stack, moves the elements from its first child on into it and
/// appends the node in their place.
///
/// `rowan` panics when no node is in progress or when the first child lies
/// beyond the elements held, and it measures the text of a node in 32 bits;
/// the caller rules all three out.
#[verifier::external_body]
pub(crate) fn builder_finish_node(b: &mut rowan::GreenNodeBuilder<'static>)
    requires
        builder_parents(*old(b)).len() > 0,
        builder_parents(*old(b)).last().1 <= builder_children(*old(b)).len(),
        forest_text(
            builder_children(*old(b)).subrange(
                builder_parents(*old(b)).last().1 as int,
                builder_children(*old(b)).len() as int,
            ),
        ).len() <= u32::MAX,
    ensures
        builder_parents(*final(b)) == builder_parents(*old(b)).drop_last(),
        builder_children(*final(b)) == builder_children(*old(b)).subrange(
            0,
            builder_parents(*old(b)).last().1 as int,
        ).push(
            Green::Node {
                kind: builder_parents(*old(b)).last().0,
                children: builder_children(*old(b)).subrange(
                    builder_parents(*old(b)).last().1 as int,
                    builder_children(*old(b)).len() as int,
                ),
            },
        ),
{
    b.finish_node()
}

/// `GreenNodeBuilder::checkpoint`: records the number of elements held.
#[verifier::external_body]
pub(crate) fn builder_checkpoint(b: &rowan::GreenNodeBuilder<'static>) -> (c: rowan::Checkpoint)
    ensures
        checkpoint_position(c) == builder_children(*b).len(),
{
    b.checkpoint()
}

/// `GreenNodeBuilder::start_node_at`: starts a node of the given kind whose
/// first child is the element at the recorded position, so that the
/// elements appended since the checkpoint become its children.
///
/// `rowan` panics when the position lies beyond the elements held or before
/// the first child of the innermost node in progress; the caller rules both
/// out.
#[verifier::external_body]
pub(crate) fn builder_start_node_at(
    b: &mut rowan::GreenNodeBuilder<'static>,
    checkpoint: rowan::Checkpoint,
    kind: u16,
)
    requires
        checkpoint_position(checkpoint) <= builder_children(*old(b)).len(),
        builder_parents(*old(b)).len() > 0 ==> builder_parents(*old(b)).last().1
            <= checkpoint_position(checkpoint),
    ensures
        builder_children(*final(b)) == builder_children(*old(b)),
        builder_parents(*final(b)) == builder_parents(*old(b)).push(
            (kind, checkpoint_position(checkpoint)),
        ),
{
    b.start_node_at(checkpoint, rowan::SyntaxKind(kind))
}

/// `GreenNodeBuilder::finish`: hands out the one element held, which must
/// be a node, as the finished tree.
///
/// `rowan` panics when the builder holds no element, more than one, or a
/// leaf; the caller rules these out.
#[verifier::external_body]
pub(crate) fn builder_finish(b: rowan::GreenNodeBuilder<'static>) -> (root: rowan::GreenNode)
    requires
        builder_children(b).len() == 1,
        builder_children(b)[0] is Node,
    ensures
        green_tree(root) == builder_children(b)[0],
{
    b.finish()
}

/// The text of a sequence with one more element is the text of the
/// sequence followed by the text of the element.
pub proof fn lemma_forest_text_push(elements: Seq<Green>, last: Green)
    ensures
        forest_text(elements.push(last)) == forest_text(elements) + last.text(),
{
    assert(elements.push(last).drop_last() =~= elements);
}

/// The text of two sequences put together is the two texts put together.
pub proof fn lemma_forest_text_concat(front: Seq<Green>, back: Seq<Green>)
    ensures
        forest_text(front + back) == forest_text(front) + forest_text(back),
    decreases back.len(),
{
    if back.len() == 0 {
        assert(front + back =~= front);
        assert(forest_text(front) + forest_text(back) =~= forest_text(front));
    } else {
        lemma_forest_text_concat(front, back.drop_last());
        assert((front + back).drop_last() =~= front + back.drop_last());
        assert(forest_text(front + back) =~= forest_text(front) + forest_text(back));
    }
}

/// Putting the elements from `first` on into one node leaves the text as
/// it is, and the text of the node is part of it.
pub proof fn lemma_forest_text_wrapped(elements: Seq<Green>, first: int, kind: u16)
    requires
        0 <= first <= elements.len(),
    ensures
        forest_text(
            elements.subrange(0, first).push(
                Green::Node { kind, children: elements.subrange(first, elements.len() as int) },
            ),
        ) == forest_text(elements),
        forest_text(elements.subrange(first, elements.len() as int)).len() <= forest_text(
            elements,
        ).len(),
{
    let front = elements.subrange(0, first);
    let back = elements.subrange(first, elements.len() as int);
    assert(elements =~= front + back);
    lemma_forest_text_concat(front, back);
    lemma_forest_text_push(front, Green::Node { kind, children: back });
}

} // verus!
