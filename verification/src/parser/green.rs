use crate::syntax_kind::SyntaxKind;
use crate::text::byte_len;
use vstd::prelude::*;

verus! {

/// One call made on a tree builder: open a node, add a token with its text, close the node.
pub enum TreeStep {
    Start(SyntaxKind),
    Token(SyntaxKind, Seq<char>),
    Finish,
}

/// Number of nodes opened and not closed by `steps`.
pub open spec fn open_count(steps: Seq<TreeStep>) -> int
    decreases steps.len(),
{
    if steps.len() == 0 {
        0
    } else {
        open_count(steps.drop_last()) + match steps.last() {
            TreeStep::Start(_) => 1int,
            TreeStep::Finish => -1int,
            TreeStep::Token(..) => 0int,
        }
    }
}

/// Total number of bytes of the texts of the tokens of `steps`.
pub open spec fn steps_text_len(steps: Seq<TreeStep>) -> nat
    decreases steps.len(),
{
    if steps.len() == 0 {
        0
    } else {
        steps_text_len(steps.drop_last()) + match steps.last() {
            TreeStep::Token(_, text) => byte_len(text),
            _ => 0,
        }
    }
}

/// The concatenated texts of the tokens of `steps`.
pub open spec fn steps_text(steps: Seq<TreeStep>) -> Seq<char>
    decreases steps.len(),
{
    if steps.len() == 0 {
        Seq::empty()
    } else {
        steps_text(steps.drop_last()) + match steps.last() {
            TreeStep::Token(_, text) => text,
            _ => Seq::empty(),
        }
    }
}

/// `steps` build exactly one node: they open it first, close it last, and it stays open in
/// between.
pub open spec fn single_tree(steps: Seq<TreeStep>) -> bool {
    &&& steps.len() >= 2
    &&& steps[0] is Start
    &&& open_count(steps) == 0
    &&& forall|j: int| 0 < j < steps.len() ==> open_count(#[trigger] steps.take(j)) >= 1
}

#[verifier::external_type_specification]
#[verifier::external_body]
pub struct ExGreenNodeBuilder<'cache>(rowan::GreenNodeBuilder<'cache>);

#[verifier::external_type_specification]
#[verifier::external_body]
pub struct ExGreenNode(rowan::GreenNode);

/// The calls made on a builder since it was created, in order.
pub uninterp spec fn builder_steps(b: rowan::GreenNodeBuilder<'static>) -> Seq<TreeStep>;

/// A green tree written as the calls that build it: its nodes in preorder, each opened, then
/// its children, then closed.
pub uninterp spec fn green_steps(n: rowan::GreenNode) -> Seq<TreeStep>;

/// `rowan::GreenNodeBuilder::new`: a builder on which no call was made yet.
#[verifier::external_body]
pub(crate) fn builder_new() -> (b: rowan::GreenNodeBuilder<'static>)
    ensures
        builder_steps(b) == Seq::<TreeStep>::empty(),
{
    rowan::GreenNodeBuilder::new()
}

/// `rowan::GreenNodeBuilder::start_node`: opens a node of kind `kind` (its raw number as
/// rowan's kind).
#[verifier::external_body]
pub(crate) fn builder_start_node(b: &mut rowan::GreenNodeBuilder<'static>, kind: SyntaxKind)
    ensures
        builder_steps(*final(b)) == builder_steps(*old(b)).push(TreeStep::Start(kind)),
{
    b.start_node(rowan::SyntaxKind(kind as u16));
}

/// `rowan::GreenNodeBuilder::token`: adds a token of kind `kind` and text `text` to the node
/// that is open. rowan keeps text lengths as `u32`: the texts added stay within that.
#[verifier::external_body]
pub(crate) fn builder_token(b: &mut rowan::GreenNodeBuilder<'static>, kind: SyntaxKind, text: &str)
    requires
        steps_text_len(builder_steps(*old(b))) + byte_len(text@) <= u32::MAX,
    ensures
        builder_steps(*final(b)) == builder_steps(*old(b)).push(TreeStep::Token(kind, text@)),
{
    b.token(rowan::SyntaxKind(kind as u16), text);
}

/// `rowan::GreenNodeBuilder::finish_node`: closes the node opened last, which must exist (it
/// unwraps the stack of open nodes).
#[verifier::external_body]
pub(crate) fn builder_finish_node(b: &mut rowan::GreenNodeBuilder<'static>)
    requires
        open_count(builder_steps(*old(b))) > 0,
    ensures
        builder_steps(*final(b)) == builder_steps(*old(b)).push(TreeStep::Finish),
{
    b.finish_node();
}

/// `rowan::GreenNodeBuilder::finish`: the tree built, which must be one node (it asserts a
/// single element and unwraps it as a node). The tree is what the calls described.
#[verifier::external_body]
pub(crate) fn builder_finish(b: rowan::GreenNodeBuilder<'static>) -> (n: rowan::GreenNode)
    requires
        single_tree(builder_steps(b)),
    ensures
        green_steps(n) == builder_steps(b),
{
    b.finish()
}

} // verus!
