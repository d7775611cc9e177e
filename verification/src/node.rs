//! The tagged SQL AST: one closed sum of node variants, each carrying
//! exactly the data its rendering policy needs.
use vstd::prelude::*;

use crate::expr::Expr;

verus! {

/// One piece of a text node: literal SQL, a `#{}` bound-parameter
/// placeholder, or a `${}` raw splice.
#[derive(Debug)]
pub enum Part {
    Lit(String),
    Hash(Expr),
    Dollar(Expr),
}

/// A reference to a named `<sql>` fragment, resolved through the mapper's
/// fragment table while rendering.
#[derive(Debug)]
pub struct IncludeNode {
    pub refid: String,
}

/// Attributes of a `<trim>` node.
#[derive(Debug)]
pub struct TrimHead {
    pub prefix: String,
    pub suffix: String,
    pub prefix_overrides: Vec<String>,
    pub suffix_overrides: Vec<String>,
}

/// Attributes of a `<foreach>` node. An empty `index` name means the
/// loop position is not bound.
#[derive(Debug)]
pub struct ForeachHead {
    pub collection: Expr,
    pub item: String,
    pub index: String,
    pub open: String,
    pub close: String,
    pub separator: String,
}

/// A dynamic SQL tree node.
#[derive(Debug)]
pub enum Node {
    Text(Vec<Part>),
    If(Expr, Vec<Node>),
    Choose(Vec<Node>),
    When(Expr, Vec<Node>),
    Otherwise(Vec<Node>),
    Where(Vec<Node>),
    SetBlock(Vec<Node>),
    Trim(TrimHead, Vec<Node>),
    Foreach(ForeachHead, Vec<Node>),
    Bind(String, Expr),
    Include(IncludeNode),
}

/// The kind of a top-level statement.
#[derive(Debug, Clone, Copy, PartialEq, Eq, Structural)]
pub enum StmtKind {
    Select,
    Insert,
    Update,
    Delete,
}

/// A top-level statement: addressed by its mapper-unique id.
#[derive(Debug)]
pub struct Stmt {
    pub id: String,
    pub kind: StmtKind,
    pub children: Vec<Node>,
}

} // verus!
