//! The parsed tree: scopes, units and hooks, with their mathematical views.
use vstd::prelude::*;
use crate::token::Token;

verus! {

broadcast use vstd::std_specs::vec::axiom_vec_index_decreases;

/// A return type and an async marker, on a scope (a default) or a unit (its own).
#[derive(Debug, PartialEq, Eq)]
pub struct Signature {
    pub ret: Vec<Token>,
    pub is_async: bool,
}

/// The view of a [`Signature`].
pub struct SigV {
    pub ret: Seq<Token>,
    pub is_async: bool,
}

impl Signature {
    pub open spec fn view(&self) -> SigV {
        SigV { ret: self.ret@, is_async: self.is_async }
    }

    pub fn copy(&self) -> (r: Signature)
        ensures
            r@ == self@,
    {
        Signature { ret: crate::token::copy_tokens(&self.ret), is_async: self.is_async }
    }
}

pub open spec fn sig_view(s: Option<Signature>) -> Option<SigV> {
    match s {
        Some(x) => Some(x@),
        None => None,
    }
}

pub fn copy_sig(s: &Option<Signature>) -> (r: Option<Signature>)
    ensures
        sig_view(r) == sig_view(*s),
{
    match s {
        Some(x) => Some(x.copy()),
        None => None,
    }
}

/// The view of an attribute list: each attribute's tokens, `#` and brackets included.
pub open spec fn attrs_view(a: Vec<Vec<Token>>) -> Seq<Seq<Token>> {
    a@.map_values(|t: Vec<Token>| t@)
}

/// A node of the parsed tree.
#[derive(Debug, PartialEq, Eq)]
pub enum Block {
    /// `describe` / `context`: a named scope of further blocks.
    Scope { name: String, attrs: Vec<Vec<Token>>, sig: Option<Signature>, children: Vec<Block> },
    /// `it` / `test`: one test unit with its own statements.
    Unit { name: String, attrs: Vec<Vec<Token>>, sig: Option<Signature>, body: Vec<Token> },
    /// `before`: statements run ahead of every unit below the enclosing scope.
    Setup(Vec<Token>),
    /// `after`: statements run after every unit below the enclosing scope.
    Teardown(Vec<Token>),
}

/// The view of a [`Block`].
pub enum BlockV {
    Scope { name: Seq<char>, attrs: Seq<Seq<Token>>, sig: Option<SigV>, children: Seq<BlockV> },
    Unit { name: Seq<char>, attrs: Seq<Seq<Token>>, sig: Option<SigV>, body: Seq<Token> },
    Setup(Seq<Token>),
    Teardown(Seq<Token>),
}

impl Block {
    pub open spec fn view(&self) -> BlockV
        decreases self, 0int,
    {
        match self {
            Block::Scope { name, attrs, sig, children } => BlockV::Scope {
                name: name@,
                attrs: attrs_view(*attrs),
                sig: sig_view(*sig),
                children: views(*children, children.len() as int),
            },
            Block::Unit { name, attrs, sig, body } => BlockV::Unit {
                name: name@,
                attrs: attrs_view(*attrs),
                sig: sig_view(*sig),
                body: body@,
            },
            Block::Setup(b) => BlockV::Setup(b@),
            Block::Teardown(b) => BlockV::Teardown(b@),
        }
    }
}

/// The views of the first `n` blocks of `cs`.
pub open spec fn views(cs: Vec<Block>, n: int) -> Seq<BlockV>
    decreases cs, n,
{
    if n <= 0 || n > cs.len() {
        seq![]
    } else {
        views(cs, n - 1).push(cs[n - 1].view())
    }
}

pub proof fn lemma_views(cs: Vec<Block>, n: int)
    requires
        0 <= n <= cs.len(),
    ensures
        views(cs, n).len() == n,
        forall|i: int| 0 <= i < n ==> #[trigger] views(cs, n)[i] == cs[i].view(),
    decreases n,
{
    if n > 0 {
        lemma_views(cs, n - 1);
    }
}

/// The whole parsed input: the top-level blocks.
#[derive(Debug, PartialEq, Eq)]
pub struct Root {
    pub children: Vec<Block>,
}

impl Root {
    pub open spec fn view(&self) -> Seq<BlockV> {
        views(self.children, self.children.len() as int)
    }
}

/// Whether a block is a setup hook (`setup`) or a teardown hook (`!setup`).
pub open spec fn is_hook(b: BlockV, setup: bool) -> bool {
    if setup { b is Setup } else { b is Teardown }
}

/// How many hooks of one kind stand directly in `cs`.
pub open spec fn hook_count(cs: Seq<BlockV>, setup: bool) -> nat
    decreases cs.len(),
{
    if cs.len() == 0 {
        0
    } else {
        hook_count(cs.drop_last(), setup) + if is_hook(cs.last(), setup) { 1nat } else { 0nat }
    }
}

/// A well-formed list of sibling blocks: at most one hook of each kind among
/// them, and each scope among them well formed in turn.
pub open spec fn wf_list(cs: Seq<BlockV>) -> bool {
    &&& hook_count(cs, true) <= 1
    &&& hook_count(cs, false) <= 1
    &&& all_wf(cs)
}

/// Whether every block of `cs` is well formed.
pub open spec fn all_wf(cs: Seq<BlockV>) -> bool
    decreases cs, 1int,
{
    cs.len() == 0 || (all_wf(cs.drop_last()) && wf_block(cs.last()))
}

pub open spec fn wf_block(b: BlockV) -> bool
    decreases b, 0int,
{
    match b {
        BlockV::Scope { children, .. } => hook_count(children, true) <= 1 && hook_count(children, false) <= 1
            && all_wf(children),
        _ => true,
    }
}

} // verus!
