//! Expressions kept as nodes of a vector tree: each node holds its position
//! and refers to its sub-expressions by their node ids.
use vstd::prelude::*;

use crate::ast::{BinaryOp, UnaryOp};
use crate::input::Position;
use crate::integer::Integer;
use crate::problem::{Error, Problems, Result, Warnings, error, ok};
use crate::symbol::{Symbol, TSymbol};
use crate::vectree::{self, NodeId, TreeV, VecTree, adopt, first_bad_child, shape, tree_wf};

verus! {

/// A reference to a node of the tree.
pub type NodeRef = NodeId;

/// A segment of a qualified name.
#[derive(Debug, Clone, PartialEq, Eq)]
pub enum Segment {
    Symbol(Symbol),
    Type(TSymbol),
}

/// A name, qualified by the segments before it.
#[derive(Debug, Clone, PartialEq, Eq)]
pub struct Q<T> {
    pub segments: Vec<Segment>,
    pub symbol: T,
}

#[derive(Debug, Clone, Copy, PartialEq, Eq, Structural)]
pub struct Unary {
    pub op: UnaryOp,
    pub expr: NodeRef,
}

#[derive(Debug, Clone, Copy, PartialEq, Eq, Structural)]
pub struct Binary {
    pub op: BinaryOp,
    pub expr1: NodeRef,
    pub expr2: NodeRef,
}

/// `expr then then_expr`: a sequence of two expressions.
#[derive(Debug, Clone, Copy, PartialEq, Eq, Structural)]
pub struct Then {
    pub expr: NodeRef,
    pub then_expr: NodeRef,
}

#[derive(Debug, Clone, Copy, PartialEq, Eq, Structural)]
pub struct Conditional {
    pub expr: NodeRef,
    pub then_expr: NodeRef,
    pub otherwise: NodeRef,
}

#[derive(Debug, Clone, PartialEq, Eq)]
pub struct Block {
    pub exprs: Vec<NodeRef>,
}

#[derive(Debug, Clone, PartialEq, Eq)]
pub enum Expr {
    LitInteger(Integer),
    Symbol(Q<Symbol>),
    TSymbol(Q<TSymbol>),
    Unary(Unary),
    Binary(Binary),
    Block(Block),
    Conditional(Conditional),
    Then(Then),
}

/// The sub-expressions of an expression, in order.
pub open spec fn expr_children(e: Expr) -> Seq<NodeRef> {
    match e {
        Expr::Unary(u) => seq![u.expr],
        Expr::Binary(b) => seq![b.expr1, b.expr2],
        Expr::Block(b) => b.exprs@,
        Expr::Conditional(c) => seq![c.expr, c.then_expr, c.otherwise],
        Expr::Then(t) => seq![t.expr, t.then_expr],
        _ => seq![],
    }
}

impl Expr {
    fn get_children(&self, children: &mut Vec<NodeRef>)
        ensures
            final(children)@ == old(children)@ + expr_children(*self),
    {
        let ghost before = children@;
        match self {
            Expr::Unary(e) => children.push(e.expr),
            Expr::Binary(e) => {
                children.push(e.expr1);
                children.push(e.expr2);
            },
            Expr::Block(block) => {
                let mut i: usize = 0;
                while i < block.exprs.len()
                    invariant
                        i <= block.exprs@.len(),
                        children@ == before + block.exprs@.take(i as int),
                    decreases block.exprs@.len() - i,
                {
                    children.push(block.exprs[i]);
                    i = i + 1;
                    assert(children@ =~= before + block.exprs@.take(i as int));
                }
                assert(block.exprs@.take(i as int) =~= block.exprs@);
            },
            Expr::Conditional(e) => {
                children.push(e.expr);
                children.push(e.then_expr);
                children.push(e.otherwise);
            },
            Expr::Then(e) => {
                children.push(e.expr);
                children.push(e.then_expr);
            },
            _ => {},
        }
        assert(children@ =~= before + expr_children(*self));
    }
}

/// What a node holds.
#[derive(Debug)]
pub enum NodeData {
    Expression(Expr),
}

/// A node: where it is, and what it holds.
#[derive(Debug)]
pub struct Node {
    pub position: Position,
    pub data: NodeData,
}

impl vectree::Node for Node {
    open spec fn children(&self) -> Seq<NodeId> {
        match self.data {
            NodeData::Expression(e) => expr_children(e),
        }
    }

    fn get_children(&self, children: &mut Vec<NodeId>) {
        match &self.data {
            NodeData::Expression(e) => e.get_children(children),
        }
    }
}

/// A tree of expression nodes.
pub struct AST {
    pub tree: VecTree<Node>,
}

/// Builds a tree of expression nodes.
pub struct Builder {
    builder: vectree::Builder<Node>,
}

pub open spec fn code_child_not_found() -> Seq<char> {
    seq!['E', '0', '0', '0', '1']
}

pub open spec fn code_child_has_parent() -> Seq<char> {
    seq!['E', '0', '0', '0', '2']
}

pub open spec fn message_child_not_found() -> Seq<char> {
    seq!['C', 'h', 'i', 'l', 'd', 'N', 'o', 't', 'F', 'o', 'u', 'n', 'd']
}

pub open spec fn message_child_has_parent() -> Seq<char> {
    seq!['C', 'h', 'i', 'l', 'd', 'H', 'a', 's', 'P', 'a', 'r', 'e', 'n', 't']
}

impl Builder {
    pub closed spec fn view(&self) -> TreeV<Node> {
        self.builder.view()
    }

    pub closed spec fn wf(&self) -> bool {
        self.builder.wf()
    }

    /// An empty tree.
    pub fn new() -> (r: Builder)
        ensures
            r.wf(),
            r.view().nodes.len() == 0,
    {
        Builder { builder: vectree::builder() }
    }

    /// Adds a node at `position`; its sub-expressions become its children.
    /// Fails with a problem at `position` when a sub-expression is not in the
    /// tree (`E0001`) or already belongs to another node (`E0002`).
    pub fn add(&mut self, position: &Position, data: NodeData) -> (r: Result<NodeRef>)
        requires
            old(self).wf(),
            forall|k: int|
                0 <= k < vectree::Node::children(&Node { position: *position, data }).len()
                    ==> (#[trigger] vectree::Node::children(&Node { position: *position, data })[k]).tree_id
                    == old(self).view().tree_id,
            old(self).view().nodes.len() < usize::MAX,
        ensures
            final(self).wf(),
            tree_wf(final(self).view()),
            match first_bad_child(
                shape(old(self).view()),
                vectree::Node::children(&Node { position: *position, data }),
            ) {
                Some(k) => final(self).view() == old(self).view() && (r matches Err(p)
                    && p.warnings@.len() == 0 && p.errors@.len() == 1 && p.errors@[0].position
                    == *position && p.errors@[0].code@ == if vectree::Node::children(
                    &Node { position: *position, data },
                )[k].index >= old(self).view().nodes.len() {
                    code_child_not_found()
                } else {
                    code_child_has_parent()
                } && p.errors@[0].message@ == if vectree::Node::children(
                    &Node { position: *position, data },
                )[k].index >= old(self).view().nodes.len() {
                    message_child_not_found()
                } else {
                    message_child_has_parent()
                }),
                None => r matches Ok(w) && w.warnings@.len() == 0 && w.value == (NodeId {
                    tree_id: old(self).view().tree_id,
                    index: old(self).view().nodes.len() as usize,
                }) && final(self).view().nodes == old(self).view().nodes.push(
                    Node { position: *position, data },
                ) && final(self).view().parents == adopt(
                    old(self).view().parents,
                    vectree::Node::children(&Node { position: *position, data }),
                ),
            },
    {
        let node = Node { position: position.duplicate(), data };
        match self.builder.add(node) {
            Ok(id) => ok(id),
            Err(vectree::Error::ChildNotFound(_)) => {
                proof {
                    reveal_strlit("E0001");
                    reveal_strlit("ChildNotFound");
                }
                error(position.duplicate(), "E0001".to_owned(), "ChildNotFound".to_owned())
            },
            Err(vectree::Error::ChildHasParent(_)) => {
                proof {
                    reveal_strlit("E0002");
                    reveal_strlit("ChildHasParent");
                }
                error(position.duplicate(), "E0002".to_owned(), "ChildHasParent".to_owned())
            },
        }
    }

    /// The finished tree.
    pub fn build(self) -> (r: AST)
        requires
            self.wf(),
        ensures
            r.tree.view() == self.view(),
            r.tree.top_level_view() == vectree::roots(self.view().tree_id, self.view().parents),
    {
        AST { tree: self.builder.build() }
    }
}

/// Builds a tree of nodes that have no position.
pub struct BuilderNoPosition {
    pub builder: Builder,
}

} // verus!
