//! Laws of the expansion and of the parser, proved over their spec functions.
use vstd::prelude::*;
use crate::token::Token;
use crate::block::{BlockV, SigV, all_wf, hook_count, is_hook, wf_block, wf_list};
use crate::generate::{ItemV, expand, expand_block, expand_list, hook_body, resolve};
use crate::parse::{ErrorKind, Kw, ParseError, err, parse_block, parse_head, parse_list, parse_tokens};

verus! {

/// A scope holding a single unit expands to a single module, named after the
/// scope, holding a single test named after the unit, whose body is the
/// unit's own statements and nothing else.
pub proof fn law_single_scope_single_unit(
    name: Seq<char>,
    attrs: Seq<Seq<Token>>,
    sig: Option<SigV>,
    unit_name: Seq<char>,
    unit_attrs: Seq<Seq<Token>>,
    unit_sig: Option<SigV>,
    body: Seq<Token>,
)
    ensures
        ({
            let unit = BlockV::Unit { name: unit_name, attrs: unit_attrs, sig: unit_sig, body };
            let scope = BlockV::Scope { name, attrs, sig, children: seq![unit] };
            expand(seq![scope]) == seq![ItemV::Module {
                name,
                attrs,
                items: seq![ItemV::Test { name: unit_name, attrs: unit_attrs, sig: resolve(unit_sig, sig), body }],
            }]
        }),
{
    let unit = BlockV::Unit { name: unit_name, attrs: unit_attrs, sig: unit_sig, body };
    let cs = seq![unit];
    let scope = BlockV::Scope { name, attrs, sig, children: cs };
    assert(cs.drop_first().len() == 0);
    assert(hook_body(cs.drop_first(), true) =~= Seq::<Token>::empty());
    assert(hook_body(cs.drop_first(), false) =~= Seq::<Token>::empty());
    assert(hook_body(cs, true) =~= Seq::<Token>::empty());
    assert(hook_body(cs, false) =~= Seq::<Token>::empty());
    let e = Seq::<Token>::empty();
    assert(e + e + body + (e + e) =~= body);
    assert(cs.drop_last() =~= seq![]);
    assert(seq![scope].drop_last() =~= seq![]);
    assert(resolve(sig, None) == sig);
    assert(expand_list(cs.drop_last(), e + e, e + e, sig) =~= seq![]);
    assert(cs.last() == unit);
    let items = expand_list(cs, e + e, e + e, sig);
    assert(expand_block(unit, e + e, e + e, sig) == Some(
        ItemV::Test { name: unit_name, attrs: unit_attrs, sig: resolve(unit_sig, sig), body },
    ));
    assert(expand_list(seq![scope].drop_last(), e, e, None) =~= seq![]);
    assert(items =~= seq![ItemV::Test { name: unit_name, attrs: unit_attrs, sig: resolve(unit_sig, sig), body }]);
    assert(seq![scope].last() == scope);
    assert(seq![scope].drop_first() =~= Seq::<BlockV>::empty());
    assert(hook_body(seq![scope].drop_first(), true) =~= e);
    assert(hook_body(seq![scope].drop_first(), false) =~= e);
    assert(hook_body(seq![scope], true) =~= e);
    assert(hook_body(seq![scope], false) =~= e);
    assert(expand_block(scope, e, e, None) == Some(ItemV::Module { name, attrs, items }));
    assert(expand(seq![scope]) =~= seq![ItemV::Module { name, attrs, items }]);
}

/// A scope without children expands to a module without items.
pub proof fn law_empty_scope(
    name: Seq<char>,
    attrs: Seq<Seq<Token>>,
    sig: Option<SigV>,
    setup: Seq<Token>,
    teardown: Seq<Token>,
    inherited: Option<SigV>,
)
    ensures
        expand_block(BlockV::Scope { name, attrs, sig, children: seq![] }, setup, teardown, inherited)
            == Some(ItemV::Module { name, attrs, items: seq![] }),
{
}

/// Attributes stay on the node they were written on: a scope's module
/// carries the scope's own attributes, and what is inside the module does not
/// depend on them.
pub proof fn law_scope_attrs_stay(
    name: Seq<char>,
    attrs1: Seq<Seq<Token>>,
    attrs2: Seq<Seq<Token>>,
    sig: Option<SigV>,
    children: Seq<BlockV>,
    setup: Seq<Token>,
    teardown: Seq<Token>,
    inherited: Option<SigV>,
)
    ensures
        ({
            let m1 = expand_block(BlockV::Scope { name, attrs: attrs1, sig, children }, setup, teardown, inherited);
            let m2 = expand_block(BlockV::Scope { name, attrs: attrs2, sig, children }, setup, teardown, inherited);
            &&& m1 matches Some(ItemV::Module { attrs: a1, items: items1, .. })
            &&& m2 matches Some(ItemV::Module { attrs: a2, items: items2, .. })
            &&& a1 == attrs1
            &&& a2 == attrs2
            &&& items1 == items2
        }),
{
}

/// A unit's test carries exactly the unit's own attributes, whatever it inherits.
pub proof fn law_unit_attrs_own(
    name: Seq<char>,
    attrs: Seq<Seq<Token>>,
    sig: Option<SigV>,
    body: Seq<Token>,
    setup: Seq<Token>,
    teardown: Seq<Token>,
    inherited: Option<SigV>,
)
    ensures
        expand_block(BlockV::Unit { name, attrs, sig, body }, setup, teardown, inherited)
            matches Some(ItemV::Test { attrs: a, .. }) && a == attrs,
{
}

/// A unit that declares its own signature keeps it, whatever default it inherits.
pub proof fn law_unit_sig_overrides(
    name: Seq<char>,
    attrs: Seq<Seq<Token>>,
    own: SigV,
    body: Seq<Token>,
    setup: Seq<Token>,
    teardown: Seq<Token>,
    inherited: Option<SigV>,
)
    ensures
        expand_block(BlockV::Unit { name, attrs, sig: Some(own), body }, setup, teardown, inherited)
            matches Some(ItemV::Test { sig: s, .. }) && s == Some(own),
{
}

proof fn lemma_all_wf_prepend(b: BlockV, rest: Seq<BlockV>)
    requires
        wf_block(b),
        all_wf(rest),
    ensures
        all_wf(seq![b] + rest),
    decreases rest.len(),
{
    let whole = seq![b] + rest;
    if rest.len() == 0 {
        assert(whole =~= seq![b]);
        assert(whole.drop_last() =~= Seq::<BlockV>::empty());
        assert(all_wf(whole.drop_last()));
        assert(whole.last() == b);
    } else {
        lemma_all_wf_prepend(b, rest.drop_last());
        assert(whole.drop_last() =~= seq![b] + rest.drop_last());
        assert(whole.last() == rest.last());
    }
}

proof fn lemma_hook_count_prepend(b: BlockV, rest: Seq<BlockV>, setup: bool)
    ensures
        hook_count(seq![b] + rest, setup) == hook_count(rest, setup) + if is_hook(b, setup) { 1nat } else { 0nat },
    decreases rest.len(),
{
    let whole = seq![b] + rest;
    if rest.len() == 0 {
        assert(whole =~= seq![b]);
        assert(whole.drop_last() =~= Seq::<BlockV>::empty());
        assert(hook_count(whole.drop_last(), setup) == 0);
        assert(whole.last() == b);
    } else {
        lemma_hook_count_prepend(b, rest.drop_last(), setup);
        assert(whole.drop_last() =~= seq![b] + rest.drop_last());
        assert(whole.last() == rest.last());
    }
}

proof fn lemma_block_wf(ts: Seq<Token>, i: int, end: int)
    ensures
        parse_block(ts, i, end) matches Ok(b) ==> {
            &&& wf_block(b)
            &&& parse_head(ts, i, end) matches Ok(h)
            &&& is_hook(b, true) == (h.kw == Kw::Setup)
            &&& is_hook(b, false) == (h.kw == Kw::Teardown)
        },
    decreases end - i, 0int,
{
    crate::parse::lemma_head(ts, i, end);
    if let Ok(h) = parse_head(ts, i, end) {
        if h.kw == Kw::Scope {
            lemma_list_wf(ts, h.open + 1, h.close, false, false);
        }
    }
}

proof fn lemma_list_wf(ts: Seq<Token>, i: int, end: int, seen_setup: bool, seen_teardown: bool)
    ensures
        parse_list(ts, i, end, seen_setup, seen_teardown) matches Ok(cs) ==> {
            &&& wf_list(cs)
            &&& hook_count(cs, true) + if seen_setup { 1nat } else { 0nat } <= 1
            &&& hook_count(cs, false) + if seen_teardown { 1nat } else { 0nat } <= 1
        },
    decreases end - i, 1int,
{
    if i < end {
        crate::parse::lemma_head(ts, i, end);
        if let Ok(h) = parse_head(ts, i, end) {
            lemma_block_wf(ts, i, end);
            let ss = seen_setup || h.kw == Kw::Setup;
            let st = seen_teardown || h.kw == Kw::Teardown;
            lemma_list_wf(ts, h.close + 1, end, ss, st);
            if let Ok(cs) = parse_list(ts, i, end, seen_setup, seen_teardown) {
                let b = parse_block(ts, i, end)->Ok_0;
                let rest = parse_list(ts, h.close + 1, end, ss, st)->Ok_0;
                assert(cs == seq![b] + rest);
                lemma_hook_count_prepend(b, rest, true);
                lemma_hook_count_prepend(b, rest, false);
                lemma_all_wf_prepend(b, rest);
            }
        }
    } else {
        assert(parse_list(ts, i, end, seen_setup, seen_teardown) == Ok::<Seq<BlockV>, crate::parse::ParseError>(seq![]));
        assert(hook_count(Seq::<BlockV>::empty(), true) == 0);
        assert(hook_count(Seq::<BlockV>::empty(), false) == 0);
    }
}

/// No parse result holds two setup hooks, or two teardown hooks, among the
/// blocks of one group: a second one is an error.
pub proof fn law_parsed_tree_well_formed(ts: Seq<Token>)
    ensures
        parse_tokens(ts) matches Ok(cs) ==> wf_list(cs),
{
    lemma_list_wf(ts, 0, ts.len() as int, false, false);
}

/// A scope whose braces hold nothing, wherever it stands in the input and
/// whatever attributes and signature it has, parses without error to a scope
/// with no children, and that expands to a module with no items under any
/// inherited setup, teardown and signature.
pub proof fn law_empty_scope_parses(
    ts: Seq<Token>,
    i: int,
    end: int,
    setup: Seq<Token>,
    teardown: Seq<Token>,
    inherited: Option<SigV>,
)
    requires
        parse_head(ts, i, end) matches Ok(h) && h.kw == Kw::Scope && h.close == h.open + 1,
    ensures
        ({
            let h = parse_head(ts, i, end)->Ok_0;
            let scope = BlockV::Scope { name: h.name, attrs: h.attrs, sig: h.sig, children: seq![] };
            &&& parse_block(ts, i, end) == Ok::<BlockV, ParseError>(scope)
            &&& expand_block(scope, setup, teardown, inherited) == Some(
                ItemV::Module { name: h.name, attrs: h.attrs, items: seq![] },
            )
        }),
{
    let h = parse_head(ts, i, end)->Ok_0;
    assert(parse_list(ts, h.open + 1, h.close, false, false) == Ok::<Seq<BlockV>, ParseError>(seq![]));
    law_empty_scope(h.name, h.attrs, h.sig, setup, teardown, inherited);
}

/// Once a group has had a setup hook (or a teardown hook), a block that
/// starts as another hook of that kind ends the parse with `DuplicateHook`,
/// pointing at that block.
pub proof fn law_second_hook_is_error(ts: Seq<Token>, i: int, end: int, seen_setup: bool, seen_teardown: bool)
    requires
        i < end,
        parse_head(ts, i, end) matches Ok(h) && ((h.kw == Kw::Setup && seen_setup) || (h.kw == Kw::Teardown
            && seen_teardown)),
    ensures
        parse_list(ts, i, end, seen_setup, seen_teardown) == Err::<Seq<BlockV>, ParseError>(
            err(ErrorKind::DuplicateHook, i),
        ),
{
}

/// Whether a block expands to an item: every block but a hook does.
pub open spec fn expands(b: BlockV) -> bool {
    !(b is Setup) && !(b is Teardown)
}

/// How many items the blocks of `cs` expand to.
pub open spec fn item_count(cs: Seq<BlockV>) -> nat
    decreases cs.len(),
{
    if cs.len() == 0 {
        0
    } else {
        item_count(cs.drop_last()) + if expands(cs.last()) { 1nat } else { 0nat }
    }
}

/// Whether `path` (child indices, outermost first) leads from the sibling
/// list `cs` through scopes to a scope or unit.
pub open spec fn path_ok(cs: Seq<BlockV>, path: Seq<int>) -> bool
    decreases path.len(),
{
    &&& path.len() > 0
    &&& 0 <= path[0] < cs.len()
    &&& if path.len() == 1 {
        expands(cs[path[0]])
    } else {
        cs[path[0]] is Scope && path_ok(cs[path[0]]->Scope_children, path.drop_first())
    }
}

/// The block that `path` leads to from `cs`.
pub open spec fn block_at(cs: Seq<BlockV>, path: Seq<int>) -> BlockV
    decreases path.len(),
{
    if path.len() <= 1 {
        cs[path[0]]
    } else {
        block_at(cs[path[0]]->Scope_children, path.drop_first())
    }
}

/// The item at the place in `items`, the expansion of `cs`, that matches
/// the place `path` leads to in `cs`: each step skips the items of the
/// earlier siblings and enters the module of a scope.
pub open spec fn item_at(items: Seq<ItemV>, cs: Seq<BlockV>, path: Seq<int>) -> ItemV
    decreases path.len(),
{
    let x = items[item_count(cs.take(path[0])) as int];
    if path.len() <= 1 {
        x
    } else {
        match x {
            ItemV::Module { items: inner, .. } => item_at(inner, cs[path[0]]->Scope_children, path.drop_first()),
            _ => x,
        }
    }
}

/// The setup statements of the hooks met inside the scopes along `path`,
/// outermost first (those of `cs` itself not included).
pub open spec fn setup_below(cs: Seq<BlockV>, path: Seq<int>, setup: bool) -> Seq<Token>
    decreases path.len(),
{
    if path.len() <= 1 {
        seq![]
    } else {
        let children = cs[path[0]]->Scope_children;
        hook_body(children, setup) + setup_below(children, path.drop_first(), setup)
    }
}

/// The default signature in force at the end of `path`: that of the nearest
/// scope along it that declares one, else `sig`.
pub open spec fn sig_along(cs: Seq<BlockV>, path: Seq<int>, sig: Option<SigV>) -> Option<SigV>
    decreases path.len(),
{
    if path.len() <= 1 {
        sig
    } else {
        sig_along(cs[path[0]]->Scope_children, path.drop_first(), resolve(cs[path[0]]->Scope_sig, sig))
    }
}

proof fn lemma_item_count(cs: Seq<BlockV>, setup: Seq<Token>, teardown: Seq<Token>, sig: Option<SigV>)
    ensures
        expand_list(cs, setup, teardown, sig).len() == item_count(cs),
    decreases cs.len(),
{
    if cs.len() > 0 {
        lemma_item_count(cs.drop_last(), setup, teardown, sig);
        let rest = expand_list(cs.drop_last(), setup, teardown, sig);
        match expand_block(cs.last(), setup, teardown, sig) {
            Some(x) => {
                assert(expands(cs.last()));
                assert(expand_list(cs, setup, teardown, sig) == rest.push(x));
            },
            None => {
                assert(!expands(cs.last()));
                assert(expand_list(cs, setup, teardown, sig) == rest);
            },
        }
    } else {
        assert(expand_list(cs, setup, teardown, sig) == Seq::<ItemV>::empty());
    }
}

proof fn lemma_prefix(cs: Seq<BlockV>, k: int, setup: Seq<Token>, teardown: Seq<Token>, sig: Option<SigV>)
    requires
        0 <= k <= cs.len(),
    ensures
        expand_list(cs.take(k), setup, teardown, sig).len() <= expand_list(cs, setup, teardown, sig).len(),
        forall|j: int|
            0 <= j < expand_list(cs.take(k), setup, teardown, sig).len() ==> #[trigger] expand_list(
                cs.take(k),
                setup,
                teardown,
                sig,
            )[j] == expand_list(cs, setup, teardown, sig)[j],
    decreases cs.len() - k,
{
    if k == cs.len() {
        assert(cs.take(k) =~= cs);
    } else {
        lemma_prefix(cs, k + 1, setup, teardown, sig);
        assert(cs.take(k + 1).drop_last() =~= cs.take(k));
        let short = expand_list(cs.take(k), setup, teardown, sig);
        let long = expand_list(cs.take(k + 1), setup, teardown, sig);
        assert forall|j: int| 0 <= j < short.len() implies #[trigger] short[j] == long[j] by {}
    }
}

proof fn lemma_item_of(cs: Seq<BlockV>, i: int, setup: Seq<Token>, teardown: Seq<Token>, sig: Option<SigV>)
    requires
        0 <= i < cs.len(),
        expands(cs[i]),
    ensures
        item_count(cs.take(i)) < expand_list(cs, setup, teardown, sig).len(),
        Some(expand_list(cs, setup, teardown, sig)[item_count(cs.take(i)) as int]) == expand_block(
            cs[i],
            setup,
            teardown,
            sig,
        ),
{
    lemma_prefix(cs, i + 1, setup, teardown, sig);
    lemma_item_count(cs.take(i), setup, teardown, sig);
    assert(cs.take(i + 1).drop_last() =~= cs.take(i));
    assert(cs.take(i + 1).last() == cs[i]);
    let idx = item_count(cs.take(i)) as int;
    assert(expand_list(cs.take(i + 1), setup, teardown, sig)[idx] == expand_list(cs, setup, teardown, sig)[idx]);
}

proof fn lemma_at_path(cs: Seq<BlockV>, path: Seq<int>, setup: Seq<Token>, teardown: Seq<Token>, sig: Option<SigV>)
    requires
        path_ok(cs, path),
    ensures
        ({
            let x = item_at(expand_list(cs, setup, teardown, sig), cs, path);
            match block_at(cs, path) {
                BlockV::Unit { name, attrs, sig: own, body } => x == ItemV::Test {
                    name,
                    attrs,
                    sig: resolve(own, sig_along(cs, path, sig)),
                    body: setup + setup_below(cs, path, true) + body + (teardown + setup_below(cs, path, false)),
                },
                BlockV::Scope { name, attrs, .. } => x matches ItemV::Module { name: n, attrs: a, .. } && n == name
                    && a == attrs,
                _ => false,
            }
        }),
    decreases path.len(),
{
    let i = path[0];
    lemma_item_of(cs, i, setup, teardown, sig);
    if path.len() == 1 {
        let e = Seq::<Token>::empty();
        if let BlockV::Unit { body, .. } = cs[i] {
            assert(setup + e + body + (teardown + e) =~= setup + body + teardown);
        }
    } else {
        let children = cs[i]->Scope_children;
        let rest = path.drop_first();
        let inner_setup = setup + hook_body(children, true);
        let inner_teardown = teardown + hook_body(children, false);
        let inner_sig = resolve(cs[i]->Scope_sig, sig);
        lemma_at_path(children, rest, inner_setup, inner_teardown, inner_sig);
        if let BlockV::Unit { body, .. } = block_at(children, rest) {
            assert(inner_setup + setup_below(children, rest, true) + body + (inner_teardown + setup_below(
                children,
                rest,
                false,
            )) =~= setup + setup_below(cs, path, true) + body + (teardown + setup_below(cs, path, false)));
        }
    }
}

/// What a scope or unit anywhere in a tree expands to, found in the
/// expansion at the matching place. A unit's test carries the unit's own
/// attributes; its signature is the unit's own, else that of the nearest
/// enclosing scope that declares one, else none; and its body is the setup
/// statements of the top level and of every enclosing scope, outermost
/// first, then the unit's own statements, then the teardown statements in
/// the same order. A scope's module carries the scope's own name and
/// attributes.
pub proof fn law_expansion_at_path(blocks: Seq<BlockV>, path: Seq<int>)
    requires
        path_ok(blocks, path),
    ensures
        ({
            let x = item_at(expand(blocks), blocks, path);
            match block_at(blocks, path) {
                BlockV::Unit { name, attrs, sig: own, body } => x == ItemV::Test {
                    name,
                    attrs,
                    sig: resolve(own, sig_along(blocks, path, None)),
                    body: hook_body(blocks, true) + setup_below(blocks, path, true) + body + (hook_body(
                        blocks,
                        false,
                    ) + setup_below(blocks, path, false)),
                },
                BlockV::Scope { name, attrs, .. } => x matches ItemV::Module { name: n, attrs: a, .. } && n == name
                    && a == attrs,
                _ => false,
            }
        }),
{
    lemma_at_path(blocks, path, hook_body(blocks, true), hook_body(blocks, false), None);
}

} // verus!
