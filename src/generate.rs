//! Expansion of the parsed tree into modules and test functions.
//!
//! A scope passes on to everything below it the setup statements of its own
//! `before` hook, appended after those it inherited, its `after` hook's
//! statements in the same outer-to-inner order, and its signature, if it has
//! one, as the default for its units. A unit's body is the inherited setup,
//! then its own statements, then the inherited teardown.
use vstd::prelude::*;
use crate::token::{Token, copy_tokens, push_range};
use crate::block::{
    Block, BlockV, Root, SigV, Signature, attrs_view, copy_sig, is_hook, lemma_views, sig_view,
    views,
};

verus! {

broadcast use vstd::std_specs::vec::axiom_vec_index_decreases;

/// A node of the expanded output.
#[derive(Debug, PartialEq, Eq)]
pub enum Item {
    /// A module named after a scope, holding what its children expand to.
    Module { name: String, attrs: Vec<Vec<Token>>, items: Vec<Item> },
    /// A test function named after a unit, with its resolved signature and full body.
    Test { name: String, attrs: Vec<Vec<Token>>, sig: Option<Signature>, body: Vec<Token> },
}

/// The view of an [`Item`].
pub enum ItemV {
    Module { name: Seq<char>, attrs: Seq<Seq<Token>>, items: Seq<ItemV> },
    Test { name: Seq<char>, attrs: Seq<Seq<Token>>, sig: Option<SigV>, body: Seq<Token> },
}

impl Item {
    pub open spec fn view(&self) -> ItemV
        decreases self, 0int,
    {
        match self {
            Item::Module { name, attrs, items } => ItemV::Module {
                name: name@,
                attrs: attrs_view(*attrs),
                items: item_views(*items, items.len() as int),
            },
            Item::Test { name, attrs, sig, body } => ItemV::Test {
                name: name@,
                attrs: attrs_view(*attrs),
                sig: sig_view(*sig),
                body: body@,
            },
        }
    }
}

/// The views of the first `n` items of `xs`.
pub open spec fn item_views(xs: Vec<Item>, n: int) -> Seq<ItemV>
    decreases xs, n,
{
    if n <= 0 || n > xs.len() {
        seq![]
    } else {
        item_views(xs, n - 1).push(xs[n - 1].view())
    }
}

/// The view of a whole item vector.
pub open spec fn items_view(xs: Vec<Item>) -> Seq<ItemV> {
    item_views(xs, xs.len() as int)
}

proof fn lemma_item_views(xs: Vec<Item>, n: int)
    requires
        0 <= n <= xs.len(),
    ensures
        item_views(xs, n).len() == n,
        forall|i: int| 0 <= i < n ==> #[trigger] item_views(xs, n)[i] == xs[i].view(),
    decreases n,
{
    if n > 0 {
        lemma_item_views(xs, n - 1);
    }
}

/// The statements of a hook block; nothing for any other block.
pub open spec fn hook_tokens(b: BlockV) -> Seq<Token> {
    match b {
        BlockV::Setup(t) => t,
        BlockV::Teardown(t) => t,
        _ => seq![],
    }
}

/// The statements of the first hook of one kind among `cs`, or nothing if there is none.
pub open spec fn hook_body(cs: Seq<BlockV>, setup: bool) -> Seq<Token>
    decreases cs.len(),
{
    if cs.len() == 0 {
        seq![]
    } else if is_hook(cs[0], setup) {
        hook_tokens(cs[0])
    } else {
        hook_body(cs.drop_first(), setup)
    }
}

/// The signature in force: a block's own one, else the inherited default.
pub open spec fn resolve(own: Option<SigV>, inherited: Option<SigV>) -> Option<SigV> {
    if own is Some {
        own
    } else {
        inherited
    }
}

/// What one block expands to, given the inherited setup and teardown
/// statements and default signature; hooks expand to nothing.
pub open spec fn expand_block(b: BlockV, setup: Seq<Token>, teardown: Seq<Token>, sig: Option<SigV>) -> Option<ItemV>
    decreases b, 0int,
{
    match b {
        BlockV::Scope { name, attrs, sig: own, children } => Some(ItemV::Module {
            name,
            attrs,
            items: expand_list(
                children,
                setup + hook_body(children, true),
                teardown + hook_body(children, false),
                resolve(own, sig),
            ),
        }),
        BlockV::Unit { name, attrs, sig: own, body } => Some(ItemV::Test {
            name,
            attrs,
            sig: resolve(own, sig),
            body: setup + body + teardown,
        }),
        _ => None,
    }
}

/// What a list of sibling blocks expands to, in order.
pub open spec fn expand_list(cs: Seq<BlockV>, setup: Seq<Token>, teardown: Seq<Token>, sig: Option<SigV>) -> Seq<ItemV>
    decreases cs, 1int,
{
    if cs.len() == 0 {
        seq![]
    } else {
        let rest = expand_list(cs.drop_last(), setup, teardown, sig);
        match expand_block(cs.last(), setup, teardown, sig) {
            Some(x) => rest.push(x),
            None => rest,
        }
    }
}

/// What the whole tree expands to: the top level is expanded as a scope is,
/// its own hooks applying to everything, but with no module around it.
pub open spec fn expand(blocks: Seq<BlockV>) -> Seq<ItemV> {
    expand_list(blocks, hook_body(blocks, true), hook_body(blocks, false), None)
}

pub open spec fn opt_item_view(r: Option<Item>) -> Option<ItemV> {
    match r {
        Some(x) => Some(x@),
        None => None,
    }
}

fn copy_attrs(a: &Vec<Vec<Token>>) -> (r: Vec<Vec<Token>>)
    ensures
        attrs_view(r) == attrs_view(*a),
{
    let mut r: Vec<Vec<Token>> = Vec::new();
    let mut i: usize = 0;
    while i < a.len()
        invariant
            i <= a.len(),
            r@.len() == i,
            forall|j: int| 0 <= j < i ==> #[trigger] r@[j]@ == a@[j]@,
        decreases a.len() - i,
    {
        r.push(copy_tokens(&a[i]));
        i += 1;
    }
    assert(attrs_view(r) =~= attrs_view(*a));
    r
}

/// The statements of the first hook of one kind among `cs`.
fn find_hook(cs: &Vec<Block>, setup: bool) -> (r: Vec<Token>)
    ensures
        r@ == hook_body(views(*cs, cs.len() as int), setup),
{
    let ghost vs = views(*cs, cs.len() as int);
    proof {
        lemma_views(*cs, cs.len() as int);
        assert(vs.subrange(0, vs.len() as int) =~= vs);
    }
    let mut i: usize = 0;
    while i < cs.len()
        invariant
            i <= cs.len(),
            vs == views(*cs, cs.len() as int),
            vs.len() == cs.len(),
            forall|j: int| 0 <= j < cs.len() ==> #[trigger] vs[j] == cs[j].view(),
            hook_body(vs, setup) == hook_body(vs.subrange(i as int, vs.len() as int), setup),
        decreases cs.len() - i,
    {
        let ghost tail = vs.subrange(i as int, vs.len() as int);
        assert(tail[0] == cs[i as int].view());
        match &cs[i] {
            Block::Setup(t) => {
                if setup {
                    return copy_tokens(t);
                }
            },
            Block::Teardown(t) => {
                if !setup {
                    return copy_tokens(t);
                }
            },
            _ => {},
        }
        assert(tail.drop_first() =~= vs.subrange(i + 1, vs.len() as int));
        i += 1;
    }
    Vec::new()
}

fn concat(a: &Vec<Token>, b: &Vec<Token>) -> (r: Vec<Token>)
    ensures
        r@ == a@ + b@,
{
    let mut r = copy_tokens(a);
    push_range(&mut r, b, 0, b.len());
    assert(b@.subrange(0, b.len() as int) =~= b@);
    r
}

fn expand_one(b: &Block, setup: &Vec<Token>, teardown: &Vec<Token>, sig: &Option<Signature>) -> (r: Option<Item>)
    ensures
        opt_item_view(r) == expand_block(b@, setup@, teardown@, sig_view(*sig)),
    decreases b,
{
    match b {
        Block::Scope { name, attrs, sig: own, children } => {
            let inner_setup = concat(setup, &find_hook(children, true));
            let inner_teardown = concat(teardown, &find_hook(children, false));
            let inner_sig = if own.is_some() { copy_sig(own) } else { copy_sig(sig) };
            let items = expand_children(children, &inner_setup, &inner_teardown, &inner_sig);
            Some(Item::Module { name: name.clone(), attrs: copy_attrs(attrs), items })
        },
        Block::Unit { name, attrs, sig: own, body } => {
            let mut full = concat(setup, body);
            push_range(&mut full, teardown, 0, teardown.len());
            assert(teardown@.subrange(0, teardown.len() as int) =~= teardown@);
            let s = if own.is_some() { copy_sig(own) } else { copy_sig(sig) };
            Some(Item::Test { name: name.clone(), attrs: copy_attrs(attrs), sig: s, body: full })
        },
        _ => None,
    }
}

fn expand_children(cs: &Vec<Block>, setup: &Vec<Token>, teardown: &Vec<Token>, sig: &Option<Signature>) -> (r: Vec<Item>)
    ensures
        items_view(r) == expand_list(views(*cs, cs.len() as int), setup@, teardown@, sig_view(*sig)),
    decreases cs,
{
    let ghost vs = views(*cs, cs.len() as int);
    proof {
        lemma_views(*cs, cs.len() as int);
    }
    let mut out: Vec<Item> = Vec::new();
    let mut i: usize = 0;
    while i < cs.len()
        invariant
            i <= cs.len(),
            vs == views(*cs, cs.len() as int),
            vs.len() == cs.len(),
            forall|j: int| 0 <= j < cs.len() ==> #[trigger] vs[j] == cs[j].view(),
            items_view(out) == expand_list(vs.take(i as int), setup@, teardown@, sig_view(*sig)),
        decreases cs.len() - i,
    {
        let r = expand_one(&cs[i], setup, teardown, sig);
        let ghost prev = out;
        proof {
            assert(vs.take(i + 1).drop_last() =~= vs.take(i as int));
            assert(vs.take(i + 1).last() == cs[i as int].view());
            lemma_item_views(prev, prev.len() as int);
        }
        match r {
            Some(x) => {
                out.push(x);
                proof {
                    lemma_item_views(out, out.len() as int);
                    assert(items_view(out) =~= items_view(prev).push(out[out.len() - 1].view()));
                }
            },
            None => {},
        }
        i += 1;
    }
    assert(vs.take(cs.len() as int) =~= vs);
    out
}

/// Expands the whole tree: the top-level blocks, under the top level's own hooks.
pub fn generate(root: &Root) -> (r: Vec<Item>)
    ensures
        items_view(r) == expand(root@),
{
    let setup = find_hook(&root.children, true);
    let teardown = find_hook(&root.children, false);
    expand_children(&root.children, &setup, &teardown, &None)
}

} // verus!
