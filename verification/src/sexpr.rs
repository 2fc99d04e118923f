//! S-expressions as the parser reads them, read from text by the `sexp` crate.

use vstd::prelude::*;

verus! {

#[verifier::external_type_specification]
#[verifier::external_body]
pub struct ExSexp(sexp::Sexp);

/// An s-expression node. The last field of each variant is the node as the
/// `sexp` crate prints it (its `Debug` form), which error messages quote.
#[derive(Debug)]
pub enum SNode {
    /// A symbol or string atom, with its text.
    Sym(String, String),
    /// An integer atom.
    Int(i64, String),
    /// A floating-point atom; only its printed form is kept.
    Float(String),
    /// A list of nodes.
    List(Vec<SNode>, String),
}

/// The printed form of a node.
pub open spec fn shown(n: SNode) -> Seq<char> {
    match n {
        SNode::Sym(_, p) => p@,
        SNode::Int(_, p) => p@,
        SNode::Float(p) => p@,
        SNode::List(_, p) => p@,
    }
}

/// The text of a symbol atom.
pub open spec fn symbol_text(n: SNode) -> Option<Seq<char>> {
    match n {
        SNode::Sym(t, _) => Some(t@),
        _ => None,
    }
}

/// What the `sexp` crate reads from `text`: the tree, or its error as
/// printed by `Debug` (line, column and message).
pub uninterp spec fn sexp_reading(text: Seq<char>) -> Result<SNode, Seq<char>>;

pub open spec fn reading_view(r: Result<SNode, String>) -> Result<SNode, Seq<char>> {
    match r {
        Ok(n) => Ok(n),
        Err(e) => Err(e@),
    }
}

/// Calls `sexp::parse` on `text` and converts the tree into [`SNode`]s, or the
/// error into its `Debug` text. The contract names the outcome
/// [`sexp_reading`], a function of the text alone; nothing more of the
/// `sexp` grammar is stated.
#[verifier::external_body]
pub(crate) fn read_sexp(text: &str) -> (r: Result<SNode, String>)
    ensures
        reading_view(r) == sexp_reading(text@),
{
    match sexp::parse(text) {
        Ok(tree) => Ok(node_from_sexp(&tree)),
        Err(e) => Err(format!("{:?}", e)),
    }
}

/// Converts a `sexp::Sexp` tree into an [`SNode`] tree, node for node, keeping
/// each node's `Debug` text. Only [`read_sexp`] calls it.
#[verifier::external_body]
fn node_from_sexp(s: &sexp::Sexp) -> SNode {
    let printed = format!("{:?}", s);
    match s {
        sexp::Sexp::Atom(sexp::Atom::S(t)) => SNode::Sym(t.clone(), printed),
        sexp::Sexp::Atom(sexp::Atom::I(i)) => SNode::Int(*i, printed),
        sexp::Sexp::Atom(sexp::Atom::F(_)) => SNode::Float(printed),
        sexp::Sexp::List(xs) => SNode::List(xs.iter().map(node_from_sexp).collect(), printed),
    }
}

/// The text of `n` if it is a symbol atom.
pub fn atom_text(n: &SNode) -> (r: Option<&String>)
    ensures
        match r {
            Some(t) => (*n matches SNode::Sym(u, _) && u == *t),
            None => symbol_text(*n) is None,
        },
{
    match n {
        SNode::Sym(t, _) => Some(t),
        _ => None,
    }
}

/// The printed form of `n`.
pub fn shown_str(n: &SNode) -> (r: &String)
    ensures
        r@ == shown(*n),
{
    match n {
        SNode::Sym(_, p) => p,
        SNode::Int(_, p) => p,
        SNode::Float(p) => p,
        SNode::List(_, p) => p,
    }
}

} // verus!
