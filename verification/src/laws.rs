//! The laws the library guarantees, each proved from the spec functions that
//! the executable functions are verified against: rendering is a pure
//! function emitting rules in source order, registration deduplicates by
//! content, and a fully unregistered handle is gone.
use crate::ast::{SpecAtRuleBlock, SpecBlock, SpecBlockContent, SpecRuleBlock, SpecSheet, SpecStyleAttribute};
use crate::parser::sp_parse;
use crate::registry::{
    lemma_sp_find, sp_class_name, sp_find, sp_lookup_class, sp_lookup_css, sp_register,
    sp_sheet_key, sp_unregister, sp_wf, Handle, RegistryError, SpecManager, SpecMountRequest,
};
use crate::render::{
    sp_at_rule, sp_attr, sp_block, sp_close, sp_content, sp_contents, sp_render_sheet,
    sp_root_context, sp_rule, sp_rules, sp_segments, sp_selectors, SpecStyleContext,
};
use vstd::prelude::*;

verus! {

broadcast proof fn lemma_seq_add_assoc<A>(a: Seq<A>, b: Seq<A>, c: Seq<A>)
    ensures
        #[trigger] ((a + b) + c) == a + (b + c),
{
    assert((a + b) + c =~= a + (b + c));
}

broadcast proof fn lemma_seq_add_empty_left<A>(a: Seq<A>)
    ensures
        #[trigger] (Seq::<A>::empty() + a) == a,
{
    assert(Seq::<A>::empty() + a =~= a);
}

proof fn lemma_segments_acc(segs: Seq<Seq<char>>, i: int, acc: Seq<char>)
    ensures
        sp_segments(segs, i, acc) == acc + sp_segments(segs, i, Seq::empty()),
    decreases segs.len() - i,
{
    broadcast use lemma_seq_add_assoc, lemma_seq_add_empty_left;

    if 0 <= i < segs.len() {
        lemma_segments_acc(segs, i + 1, acc + segs[i]);
        lemma_segments_acc(segs, i + 1, Seq::empty() + segs[i]);
    }
}

proof fn lemma_attr_acc(a: SpecStyleAttribute, ctx: SpecStyleContext, acc: Seq<char>)
    ensures
        sp_attr(a, ctx, acc).1 == acc + sp_attr(a, ctx, Seq::empty()).1,
        sp_attr(a, ctx, acc).0 == sp_attr(a, ctx, Seq::empty()).0,
{
    broadcast use lemma_seq_add_assoc, lemma_seq_add_empty_left;

    let pre = if ctx.open {
        Seq::<char>::empty()
    } else {
        ctx.cond + " {\n"@
    };
    lemma_segments_acc(a.value, 0, acc + pre + "    "@ + a.name + ": "@);
    lemma_segments_acc(a.value, 0, pre + "    "@ + a.name + ": "@);
    assert(acc + pre + "    "@ + a.name + ": "@ == acc + (pre + "    "@ + a.name + ": "@));
}

proof fn lemma_content_acc(c: SpecBlockContent, ctx: SpecStyleContext, acc: Seq<char>)
    ensures
        sp_content(c, ctx, acc).1 == acc + sp_content(c, ctx, Seq::empty()).1,
        sp_content(c, ctx, acc).0 == sp_content(c, ctx, Seq::empty()).0,
    decreases c, 4int, 0int,
{
    match c {
        SpecBlockContent::StyleAttr(a) => lemma_attr_acc(a, ctx, acc),
        SpecBlockContent::RuleBlock(r) => lemma_rule_acc(r, ctx, acc),
    }
}

proof fn lemma_contents_acc(
    items: Seq<SpecBlockContent>,
    i: int,
    ctx: SpecStyleContext,
    acc: Seq<char>,
)
    ensures
        sp_contents(items, i, ctx, acc).1 == acc + sp_contents(items, i, ctx, Seq::empty()).1,
        sp_contents(items, i, ctx, acc).0 == sp_contents(items, i, ctx, Seq::empty()).0,
    decreases items, 5int, items.len() - i,
{
    broadcast use lemma_seq_add_assoc, lemma_seq_add_empty_left;

    if 0 <= i < items.len() {
        lemma_content_acc(items[i], ctx, acc);
        let step = sp_content(items[i], ctx, Seq::empty());
        lemma_contents_acc(items, i + 1, step.0, acc + step.1);
        lemma_contents_acc(items, i + 1, step.0, step.1);
    }
}

proof fn lemma_rule_acc(r: SpecRuleBlock, ctx: SpecStyleContext, acc: Seq<char>)
    ensures
        sp_rule(r, ctx, acc) == acc + sp_rule(r, ctx, Seq::empty()),
    decreases r, 2int, 0int,
{
    match r {
        SpecRuleBlock::Block(b) => lemma_block_acc(b, ctx, acc),
        SpecRuleBlock::AtRule(a) => lemma_at_rule_acc(a, ctx, acc),
    }
}

proof fn lemma_block_acc(b: SpecBlock, ctx: SpecStyleContext, acc: Seq<char>)
    ensures
        sp_block(b, ctx, acc) == acc + sp_block(b, ctx, Seq::empty()),
    decreases b, 3int, 0int,
{
    broadcast use lemma_seq_add_assoc, lemma_seq_add_empty_left;

    let cond = if b.condition.len() == 0 {
        ctx.cond
    } else {
        sp_selectors(b.condition, 0, ctx.scope, Seq::empty())
    };
    let ctx2 = SpecStyleContext { scope: ctx.scope, cond, open: false };
    lemma_contents_acc(b.content, 0, ctx2, sp_close(ctx.open, acc));
    lemma_contents_acc(b.content, 0, ctx2, sp_close(ctx.open, Seq::empty()));
}

proof fn lemma_at_rule_acc(
    a: SpecAtRuleBlock,
    ctx: SpecStyleContext,
    acc: Seq<char>,
)
    ensures
        sp_at_rule(a, ctx, acc) == acc + sp_at_rule(a, ctx, Seq::empty()),
    decreases a, 3int, 0int,
{
    broadcast use lemma_seq_add_assoc, lemma_seq_add_empty_left;

    let inner = SpecStyleContext { scope: ctx.scope, cond: "."@ + ctx.scope, open: false };
    lemma_rules_acc(a.content, 0, inner, sp_close(ctx.open, acc) + a.condition + " {\n"@);
    lemma_rules_acc(a.content, 0, inner, sp_close(ctx.open, Seq::empty()) + a.condition + " {\n"@);
}

proof fn lemma_rules_acc(
    items: Seq<SpecRuleBlock>,
    i: int,
    ctx: SpecStyleContext,
    acc: Seq<char>,
)
    ensures
        sp_rules(items, i, ctx, acc) == acc + sp_rules(items, i, ctx, Seq::empty()),
    decreases items, 5int, items.len() - i,
{
    broadcast use lemma_seq_add_assoc, lemma_seq_add_empty_left;

    if 0 <= i < items.len() {
        lemma_rule_acc(items[i], ctx, acc);
        let step = sp_rule(items[i], ctx, Seq::empty());
        lemma_rules_acc(items, i + 1, ctx, acc + step);
        lemma_rules_acc(items, i + 1, ctx, step);
    }
}

proof fn lemma_rules_shift(
    items1: Seq<SpecRuleBlock>,
    items2: Seq<SpecRuleBlock>,
    j: int,
    ctx: SpecStyleContext,
    acc: Seq<char>,
)
    requires
        0 <= j <= items2.len(),
    ensures
        sp_rules(items1 + items2, items1.len() + j, ctx, acc) == sp_rules(items2, j, ctx, acc),
    decreases items2.len() - j,
{
    if j < items2.len() {
        assert((items1 + items2)[items1.len() + j] == items2[j]);
        lemma_rules_shift(items1, items2, j + 1, ctx, sp_rule(items2[j], ctx, acc));
    }
}

proof fn lemma_rules_append(
    items1: Seq<SpecRuleBlock>,
    items2: Seq<SpecRuleBlock>,
    i: int,
    ctx: SpecStyleContext,
    acc: Seq<char>,
)
    requires
        0 <= i <= items1.len(),
    ensures
        sp_rules(items1 + items2, i, ctx, acc) == sp_rules(
            items2,
            0,
            ctx,
            sp_rules(items1, i, ctx, acc),
        ),
    decreases items1.len() - i,
{
    if i < items1.len() {
        assert((items1 + items2)[i] == items1[i]);
        lemma_rules_append(items1, items2, i + 1, ctx, sp_rule(items1[i], ctx, acc));
    } else {
        lemma_rules_shift(items1, items2, 0, ctx, acc);
    }
}

/// Order preservation: a sheet's CSS is the CSS of its first rules followed
/// by the CSS of the remaining rules, in source order — so rules render their
/// clauses exactly in the order they were written.
pub proof fn lemma_render_order(
    items1: Seq<SpecRuleBlock>,
    items2: Seq<SpecRuleBlock>,
    scope: Seq<char>,
)
    ensures
        sp_render_sheet(SpecSheet { items: items1 + items2 }, scope) == sp_render_sheet(
            SpecSheet { items: items1 },
            scope,
        ) + sp_render_sheet(SpecSheet { items: items2 }, scope),
{
    let ctx = sp_root_context(scope);
    lemma_rules_append(items1, items2, 0, ctx, Seq::empty());
    lemma_rules_acc(items2, 0, ctx, sp_rules(items1, 0, ctx, Seq::empty()));
}

/// Determinism: parsing and rendering are pure functions of the source text,
/// the interpolation values and the scope class — equal inputs give equal
/// parses, and equal sheet models render to byte-identical CSS.
pub proof fn lemma_parse_render_deterministic(
    t1: Seq<char>,
    i1: Seq<Seq<char>>,
    c1: Seq<char>,
    t2: Seq<char>,
    i2: Seq<Seq<char>>,
    c2: Seq<char>,
)
    requires
        t1 == t2,
        i1 == i2,
        c1 == c2,
    ensures
        sp_parse(t1, i1) == sp_parse(t2, i2),
        match (sp_parse(t1, i1), sp_parse(t2, i2)) {
            (Ok(v1), Ok(v2)) => sp_render_sheet(v1, c1) == sp_render_sheet(v2, c2),
            _ => true,
        },
{
}

/// Registering preserves the registry's well-formedness: unique keys,
/// positive counts, and class names generated from the prefix and the key.
pub proof fn lemma_register_wf(m: SpecManager, v: SpecSheet)
    requires
        sp_wf(m),
    ensures
        sp_wf(sp_register(m, v).0),
{
    let k = sp_sheet_key(v);
    lemma_sp_find(m.entries, k, 0);
}

/// Unregistering preserves the registry's well-formedness.
pub proof fn lemma_unregister_wf(m: SpecManager, h: Handle)
    requires
        sp_wf(m),
    ensures
        sp_wf(sp_unregister(m, h).0),
{
    lemma_sp_find(m.entries, h.key, 0);
}

/// Idempotent deduplication: registering a sheet again, right after a
/// registration of the same sheet, returns the same handle and class name,
/// mounts nothing, adds no entry, and only raises that entry's reference
/// count by one.
pub proof fn lemma_register_dedup(m: SpecManager, v: SpecSheet)
    requires
        sp_wf(m),
    ensures
        ({
            let (m1, h1, mnt1) = sp_register(m, v);
            let (m2, h2, mnt2) = sp_register(m1, v);
            &&& h2 == h1
            &&& mnt2 == None::<SpecMountRequest>
            &&& m2.entries.len() == m1.entries.len()
            &&& sp_lookup_class(m2, h2) == sp_lookup_class(m1, h1)
            &&& ({
                let i = sp_find(m1.entries, h1.key, 0);
                &&& 0 <= i < m1.entries.len()
                &&& m2.entries[i].count == (if m1.entries[i].count < u64::MAX {
                    (m1.entries[i].count + 1) as u64
                } else {
                    m1.entries[i].count
                })
            })
        }),
{
    let k = sp_sheet_key(v);
    let i = sp_find(m.entries, k, 0);
    lemma_sp_find(m.entries, k, 0);
    let (m1, h1, mnt1) = sp_register(m, v);
    lemma_register_wf(m, v);
    lemma_sp_find(m1.entries, k, 0);
    let f1 = sp_find(m1.entries, k, 0);
    if i < m.entries.len() {
        assert(m1.entries[i].key == k);
        if f1 < i {
            assert(m1.entries[f1].key == m.entries[f1].key);
            assert(false);
        }
        if f1 > i {
            assert(m1.entries[i].key != k);
            assert(false);
        }
    } else {
        let n = m.entries.len() as int;
        assert(m1.entries[n].key == k);
        if f1 < n {
            assert(m1.entries[f1].key == m.entries[f1].key);
            assert(false);
        }
        if f1 > n {
            assert(m1.entries[n].key != k);
            assert(false);
        }
    }
    let (m2, h2, mnt2) = sp_register(m1, v);
    lemma_sp_find(m2.entries, k, 0);
    let f2 = sp_find(m2.entries, k, 0);
    assert(m2.entries[f1].key == k);
    if f2 < f1 {
        assert(m2.entries[f2].key == m1.entries[f2].key);
        assert(false);
    }
    if f2 > f1 {
        assert(m2.entries[f1].key != k);
        assert(false);
    }
}

/// Lookup after a full unregister: when the last reference of an entry goes
/// (the unmount request is issued), any further lookup of that handle reports
/// `NotFound`.
pub proof fn lemma_lookup_after_unregister(m: SpecManager, h: Handle)
    requires
        sp_wf(m),
    ensures
        ({
            let (m2, um) = sp_unregister(m, h);
            match um {
                Some(_) => sp_lookup_class(m2, h) == Err::<Seq<char>, RegistryError>(
                    RegistryError::NotFound,
                ) && sp_lookup_css(m2, h) == Err::<Seq<char>, RegistryError>(
                    RegistryError::NotFound,
                ),
                None => true,
            }
        }),
{
    let k = h.key;
    let i = sp_find(m.entries, k, 0);
    lemma_sp_find(m.entries, k, 0);
    let (m2, um) = sp_unregister(m, h);
    if i < m.entries.len() && m.entries[i].count <= 1 {
        assert(forall|j: int|
            0 <= j < m2.entries.len() ==> m2.entries[j].key != k) by {
            assert(forall|j: int| 0 <= j < i ==> m2.entries[j] == m.entries[j]);
            assert(forall|j: int|
                i <= j < m2.entries.len() ==> m2.entries[j] == m.entries[j + 1]);
        }
        lemma_sp_find(m2.entries, k, 0);
        let f2 = sp_find(m2.entries, k, 0);
        if f2 < m2.entries.len() {
            assert(false);
        }
    }
}

} // verus!

verus! {

/// The registry state after registering the same sheet `n` times in a row,
/// together with how many mount requests those registrations issued.
pub open spec fn sp_register_n(m: SpecManager, v: SpecSheet, n: nat) -> (SpecManager, nat)
    decreases n,
{
    if n == 0 {
        (m, 0)
    } else {
        let (m1, h, mnt) = sp_register(m, v);
        let (m2, c) = sp_register_n(m1, v, (n - 1) as nat);
        (
            m2,
            c + match mnt {
                Some(_) => 1nat,
                None => 0nat,
            },
        )
    }
}

/// The registry state after unregistering the same handle `n` times in a row,
/// together with how many unmount requests those calls issued.
pub open spec fn sp_unregister_n(m: SpecManager, h: Handle, n: nat) -> (SpecManager, nat)
    decreases n,
{
    if n == 0 {
        (m, 0)
    } else {
        let (m1, um) = sp_unregister(m, h);
        let (m2, c) = sp_unregister_n(m1, h, (n - 1) as nat);
        (
            m2,
            c + match um {
                Some(_) => 1nat,
                None => 0nat,
            },
        )
    }
}

proof fn lemma_register_n_single(m: SpecManager, v: SpecSheet, n: nat)
    requires
        m.entries.len() == 1,
        m.entries[0].key == sp_sheet_key(v),
        m.entries[0].count >= 1,
        m.entries[0].count + n < u64::MAX,
    ensures
        ({
            let (m2, c) = sp_register_n(m, v, n);
            &&& c == 0
            &&& m2.prefix == m.prefix
            &&& m2.entries.len() == 1
            &&& m2.entries[0].key == m.entries[0].key
            &&& m2.entries[0].count == m.entries[0].count + n
            &&& m2.entries[0].class_name == m.entries[0].class_name
            &&& m2.entries[0].css == m.entries[0].css
        }),
    decreases n,
{
    if n > 0 {
        let (m1, h, mnt) = sp_register(m, v);
        lemma_register_n_single(m1, v, (n - 1) as nat);
    }
}

proof fn lemma_unregister_n_single(m: SpecManager, h: Handle, n: nat)
    requires
        m.entries.len() == 1,
        m.entries[0].key == h.key,
        m.entries[0].count == n,
        n >= 1,
    ensures
        ({
            let (m2, c) = sp_unregister_n(m, h, n);
            c == 1 && m2.entries.len() == 0 && m2.prefix == m.prefix
        }),
    decreases n,
{
    let (m1, um) = sp_unregister(m, h);
    if n > 1 {
        lemma_unregister_n_single(m1, h, (n - 1) as nat);
    } else {
        assert(sp_unregister_n(m1, h, 0).0 == m1);
    }
}

/// Idempotent deduplication, in full: registering `n` structurally identical
/// sheets into a fresh manager issues exactly one mount request, yields one
/// entry whose class name is the one generated for the sheet's content hash
/// and whose reference count is `n`; `n` unregistrations of that handle then
/// empty the registry and issue exactly one unmount request.
pub proof fn lemma_idempotent_dedup(prefix: Seq<char>, v: SpecSheet, n: nat)
    requires
        1 <= n < u64::MAX,
    ensures
        ({
            let m0 = SpecManager { prefix, entries: Seq::empty() };
            let (mn, mounts) = sp_register_n(m0, v, n);
            &&& mounts == 1
            &&& mn.entries.len() == 1
            &&& mn.entries[0].key == sp_sheet_key(v)
            &&& mn.entries[0].count == n
            &&& mn.entries[0].class_name == sp_class_name(prefix, sp_sheet_key(v))
            &&& ({
                let (m_end, unmounts) = sp_unregister_n(
                    mn,
                    Handle { key: sp_sheet_key(v) },
                    n,
                );
                unmounts == 1 && m_end.entries.len() == 0
            })
        }),
{
    let m0 = SpecManager { prefix, entries: Seq::empty() };
    let (m1, h, mnt) = sp_register(m0, v);
    lemma_register_n_single(m1, v, (n - 1) as nat);
    let (mn, mounts) = sp_register_n(m0, v, n);
    lemma_unregister_n_single(mn, Handle { key: sp_sheet_key(v) }, n);
}

} // verus!
