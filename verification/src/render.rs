//! The context-aware single-pass renderer. It walks a `Sheet` depth first in
//! source order and emits flat CSS text: runs of declarations become one
//! clause `condition {\n    name: value;\n...}\n`, a nested rule closes the
//! clause that is open and opens its own, and an at-rule wraps its body in an
//! additional `@keyword condition { ... }` shell. The exact output is defined
//! by the `sp_*` spec functions over the ghost model, and every executable
//! function is proved to emit precisely that text.
use crate::ast::{
    view_at_rule, view_attribute, view_block, view_content, view_contents, view_fragments,
    view_rule, view_rules, view_selectors, view_strings, AtRuleBlock, Block, BlockContent,
    RuleBlock, SelectorFragment, Sheet, SpecAtRuleBlock, SpecBlock, SpecBlockContent,
    SpecRuleBlock, SpecSelector, SpecSelectorFragment, SpecSheet, SpecStyleAttribute,
    StyleAttribute,
};
use crate::ast::{lemma_view_contents, lemma_view_rules};
use vstd::prelude::*;

verus! {

/// Ghost model of `StyleContext`.
#[verifier::ext_equal]
pub struct SpecStyleContext {
    pub scope: Seq<char>,
    pub cond: Seq<char>,
    pub open: bool,
}

/// Closes the clause that is currently open, if any.
pub open spec fn sp_close(open: bool, acc: Seq<char>) -> Seq<char> {
    if open {
        acc + "}\n"@
    } else {
        acc
    }
}

/// Emits the fragments of one selector from index `i` on: text fragments
/// verbatim, the scope placeholder as `.` followed by the scope class.
pub open spec fn sp_fragments(
    frags: Seq<SpecSelectorFragment>,
    i: int,
    scope: Seq<char>,
    acc: Seq<char>,
) -> Seq<char>
    decreases frags.len() - i,
{
    if 0 <= i < frags.len() {
        match frags[i] {
            SpecSelectorFragment::Text(t) => sp_fragments(frags, i + 1, scope, acc + t),
            SpecSelectorFragment::Scope => sp_fragments(frags, i + 1, scope, acc + "."@ + scope),
        }
    } else {
        acc
    }
}

/// Emits a selector list from index `i` on, `, `-joined.
pub open spec fn sp_selectors(
    sels: Seq<SpecSelector>,
    i: int,
    scope: Seq<char>,
    acc: Seq<char>,
) -> Seq<char>
    decreases sels.len() - i,
{
    if 0 <= i < sels.len() {
        sp_selectors(
            sels,
            i + 1,
            scope,
            sp_fragments(sels[i].fragments, 0, scope, if i > 0 {
                acc + ", "@
            } else {
                acc
            }),
        )
    } else {
        acc
    }
}

/// Concatenates the text segments of a declaration value from index `i` on.
pub open spec fn sp_segments(segs: Seq<Seq<char>>, i: int, acc: Seq<char>) -> Seq<char>
    decreases segs.len() - i,
{
    if 0 <= i < segs.len() {
        sp_segments(segs, i + 1, acc + segs[i])
    } else {
        acc
    }
}

/// Emits one declaration: opens the context's clause if none is open, then
/// one indented `name: value;` line. The clause is open afterwards.
pub open spec fn sp_attr(
    a: SpecStyleAttribute,
    ctx: SpecStyleContext,
    acc: Seq<char>,
) -> (SpecStyleContext, Seq<char>) {
    let acc1 = if ctx.open {
        acc
    } else {
        acc + ctx.cond + " {\n"@
    };
    let acc2 = sp_segments(a.value, 0, acc1 + "    "@ + a.name + ": "@) + ";\n"@;
    (SpecStyleContext { open: true, ..ctx }, acc2)
}

/// Emits one item of a block body and threads the clause state through.
pub open spec fn sp_content(
    c: SpecBlockContent,
    ctx: SpecStyleContext,
    acc: Seq<char>,
) -> (SpecStyleContext, Seq<char>)
    decreases c, 1int, 0int,
{
    match c {
        SpecBlockContent::StyleAttr(a) => sp_attr(a, ctx, acc),
        SpecBlockContent::RuleBlock(r) => (
            SpecStyleContext { open: false, ..ctx },
            sp_rule(r, ctx, acc),
        ),
    }
}

/// Emits the items of a block body from index `i` on.
pub open spec fn sp_contents(
    items: Seq<SpecBlockContent>,
    i: int,
    ctx: SpecStyleContext,
    acc: Seq<char>,
) -> (SpecStyleContext, Seq<char>)
    decreases items, 0int, items.len() - i,
{
    if 0 <= i < items.len() {
        let (ctx2, acc2) = sp_content(items[i], ctx, acc);
        sp_contents(items, i + 1, ctx2, acc2)
    } else {
        (ctx, acc)
    }
}

/// Emits one rule: a qualified block or an at-rule. Any open clause is closed
/// first; no clause is open afterwards.
pub open spec fn sp_rule(r: SpecRuleBlock, ctx: SpecStyleContext, acc: Seq<char>) -> Seq<char>
    decreases r, 0int, 0int,
{
    match r {
        SpecRuleBlock::Block(b) => sp_block(b, ctx, acc),
        SpecRuleBlock::AtRule(a) => sp_at_rule(a, ctx, acc),
    }
}

/// Emits a qualified block. Its condition is its resolved selector list, or
/// the enclosing condition when the selector list is empty; the body is
/// emitted under that condition and the final clause closed exactly once.
pub open spec fn sp_block(b: SpecBlock, ctx: SpecStyleContext, acc: Seq<char>) -> Seq<char>
    decreases b, 1int, 0int,
{
    let acc1 = sp_close(ctx.open, acc);
    let cond = if b.condition.len() == 0 {
        ctx.cond
    } else {
        sp_selectors(b.condition, 0, ctx.scope, Seq::empty())
    };
    let (ctx2, acc2) = sp_contents(
        b.content,
        0,
        SpecStyleContext { scope: ctx.scope, cond, open: false },
        acc1,
    );
    sp_close(ctx2.open, acc2)
}

/// Emits an at-rule: its raw condition, a brace-wrapped body rendered in a
/// fresh context bound to the scope class, and the closing brace.
pub open spec fn sp_at_rule(
    a: SpecAtRuleBlock,
    ctx: SpecStyleContext,
    acc: Seq<char>,
) -> Seq<char>
    decreases a, 1int, 0int,
{
    let acc1 = sp_close(ctx.open, acc) + a.condition + " {\n"@;
    let acc2 = sp_rules(
        a.content,
        0,
        SpecStyleContext { scope: ctx.scope, cond: "."@ + ctx.scope, open: false },
        acc1,
    );
    acc2 + "}\n"@
}

/// Emits a sequence of rules from index `i` on, in order, each against the
/// same enclosing context.
pub open spec fn sp_rules(
    items: Seq<SpecRuleBlock>,
    i: int,
    ctx: SpecStyleContext,
    acc: Seq<char>,
) -> Seq<char>
    decreases items, 0int, items.len() - i,
{
    if 0 <= i < items.len() {
        sp_rules(items, i + 1, ctx, sp_rule(items[i], ctx, acc))
    } else {
        acc
    }
}

/// The root context for a sheet rendered under `scope`: the default clause
/// condition is the bare scope-class selector and no clause is open.
pub open spec fn sp_root_context(scope: Seq<char>) -> SpecStyleContext {
    SpecStyleContext { scope, cond: "."@ + scope, open: false }
}

/// The complete CSS text of a sheet rendered under a scope class.
pub open spec fn sp_render_sheet(v: SpecSheet, scope: Seq<char>) -> Seq<char> {
    sp_rules(v.items, 0, sp_root_context(scope), Seq::empty())
}

/// Render-time state: the scope class, the condition of the clause that a
/// declaration would be emitted under, and whether that clause is currently
/// open in the output buffer.
pub struct StyleContext {
    pub scope_class: String,
    pub condition: String,
    pub is_open: bool,
}

impl View for StyleContext {
    type V = SpecStyleContext;

    open spec fn view(&self) -> SpecStyleContext {
        SpecStyleContext { scope: self.scope_class@, cond: self.condition@, open: self.is_open }
    }
}

impl StyleContext {
    /// The root context for a sheet rendered under `scope_class`.
    pub fn root(scope_class: &str) -> (r: StyleContext)
        ensures
            r@ == sp_root_context(scope_class@),
    {
        let mut condition = String::from_str(".");
        condition.append(scope_class);
        StyleContext { scope_class: scope_class.to_owned(), condition, is_open: false }
    }

    /// Closes the clause that is currently open, if any.
    pub fn write_finishing_clause(&mut self, w: &mut String)
        ensures
            final(w)@ == sp_close(old(self)@.open, old(w)@),
            final(self)@ == (SpecStyleContext { open: false, ..old(self)@ }),
    {
        if self.is_open {
            w.append("}\n");
            self.is_open = false;
        }
    }

    /// A child context that emits under the given condition.
    pub fn with_condition(&self, condition: String) -> (r: StyleContext)
        ensures
            r@ == (SpecStyleContext { cond: condition@, open: false, ..self@ }),
    {
        StyleContext {
            scope_class: self.scope_class.clone(),
            condition,
            is_open: false,
        }
    }

    /// A child context that keeps this context's condition, for nested blocks
    /// without a selector list of their own.
    pub fn to_block_context(&self) -> (r: StyleContext)
        ensures
            r@ == (SpecStyleContext { open: false, ..self@ }),
    {
        StyleContext {
            scope_class: self.scope_class.clone(),
            condition: self.condition.clone(),
            is_open: false,
        }
    }
}

impl StyleAttribute {
    /// Emits this declaration under the context's condition, opening the
    /// clause if no clause is open.
    pub fn write_style(&self, w: &mut String, ctx: &mut StyleContext)
        ensures
            (final(ctx)@, final(w)@) == sp_attr(view_attribute(*self), old(ctx)@, old(w)@),
    {
        if !ctx.is_open {
            w.append(ctx.condition.as_str());
            w.append(" {\n");
            ctx.is_open = true;
        }
        w.append("    ");
        w.append(self.name.as_str());
        w.append(": ");
        let ghost segs = view_attribute(*self).value;
        let ghost base = w@;
        let mut i: usize = 0;
        while i < self.value.len()
            invariant
                0 <= i <= self.value.len(),
                segs == view_strings(self.value@),
                sp_segments(segs, 0, base) == sp_segments(segs, i as int, w@),
            decreases self.value.len() - i,
        {
            w.append(self.value[i].as_str());
            i = i + 1;
        }
        w.append(";\n");
    }
}

impl Block {
    /// The resolved selector-list text of this block, or `None` when the
    /// selector list is empty and the block binds to the enclosing condition.
    pub fn cond_str(&self, ctx: &StyleContext) -> (r: Option<String>)
        ensures
            match r {
                Some(s) => self.condition.len() > 0 && s@ == sp_selectors(
                    view_block(*self).condition,
                    0,
                    ctx@.scope,
                    Seq::empty(),
                ),
                None => self.condition.len() == 0,
            },
    {
        if self.condition.len() == 0 {
            return None;
        }
        let ghost sels = view_block(*self).condition;
        let mut cond = String::new();
        let mut i: usize = 0;
        while i < self.condition.len()
            invariant
                0 <= i <= self.condition.len(),
                sels == view_selectors(self.condition@),
                sp_selectors(sels, 0, ctx@.scope, Seq::empty()) == sp_selectors(
                    sels,
                    i as int,
                    ctx@.scope,
                    cond@,
                ),
            decreases self.condition.len() - i,
        {
            if i > 0 {
                cond.append(", ");
            }
            let ghost frags = sels[i as int].fragments;
            let ghost base = cond@;
            let sel = &self.condition[i];
            let mut j: usize = 0;
            while j < sel.fragments.len()
                invariant
                    0 <= j <= sel.fragments.len(),
                    frags == view_fragments(sel.fragments@),
                    sp_fragments(frags, 0, ctx@.scope, base) == sp_fragments(
                        frags,
                        j as int,
                        ctx@.scope,
                        cond@,
                    ),
                decreases sel.fragments.len() - j,
            {
                match &sel.fragments[j] {
                    SelectorFragment::Text(t) => {
                        cond.append(t.as_str());
                    },
                    SelectorFragment::Scope => {
                        cond.append(".");
                        cond.append(ctx.scope_class.as_str());
                    },
                }
                j = j + 1;
            }
            i = i + 1;
        }
        Some(cond)
    }

    /// Emits this block: closes the clause that is open, resolves its
    /// condition, emits its body, and closes the final clause.
    pub fn write_style(&self, w: &mut String, ctx: &mut StyleContext)
        ensures
            final(w)@ == sp_block(view_block(*self), old(ctx)@, old(w)@),
            final(ctx)@ == (SpecStyleContext { open: false, ..old(ctx)@ }),
        decreases *self, 1int, 0int,
    {
        ctx.write_finishing_clause(w);
        let cond_s = self.cond_str(ctx);
        let mut final_ctx = match cond_s {
            Some(m) => ctx.with_condition(m),
            None => ctx.to_block_context(),
        };
        proof {
            lemma_view_contents(self.content, 0);
        }
        let ghost items = view_block(*self).content;
        let ghost ctx0 = final_ctx@;
        let ghost base = w@;
        let mut i: usize = 0;
        while i < self.content.len()
            invariant
                0 <= i <= self.content.len(),
                items == view_contents(self.content, 0),
                items.len() == self.content.len(),
                forall|j: int|
                    0 <= j < self.content.len() ==> items[j] == view_content(self.content[j]),
                final_ctx@.scope == ctx0.scope,
                sp_contents(items, 0, ctx0, base) == sp_contents(items, i as int, final_ctx@, w@),
            decreases self.content.len() - i,
        {
            self.content[i].write_style(w, &mut final_ctx);
            i = i + 1;
        }
        final_ctx.write_finishing_clause(w);
    }
}

impl BlockContent {
    /// Emits this item: a declaration line, or a nested rule as a clause of
    /// its own.
    pub fn write_style(&self, w: &mut String, ctx: &mut StyleContext)
        ensures
            (final(ctx)@, final(w)@) == sp_content(view_content(*self), old(ctx)@, old(w)@),
        decreases *self, 2int, 0int,
    {
        match self {
            BlockContent::StyleAttr(m) => m.write_style(w, ctx),
            BlockContent::RuleBlock(m) => m.write_style(w, ctx),
        }
    }
}

impl RuleBlock {
    /// Emits this rule: a qualified block or an at-rule.
    pub fn write_style(&self, w: &mut String, ctx: &mut StyleContext)
        ensures
            final(w)@ == sp_rule(view_rule(*self), old(ctx)@, old(w)@),
            final(ctx)@ == (SpecStyleContext { open: false, ..old(ctx)@ }),
        decreases *self, 2int, 0int,
    {
        match self {
            RuleBlock::Block(m) => m.write_style(w, ctx),
            RuleBlock::AtRule(m) => m.write_style(w, ctx),
        }
    }
}

impl AtRuleBlock {
    /// Emits this at-rule: its raw condition, its body in a fresh context
    /// bound to the scope class, and the closing brace.
    pub fn write_style(&self, w: &mut String, ctx: &mut StyleContext)
        ensures
            final(w)@ == sp_at_rule(view_at_rule(*self), old(ctx)@, old(w)@),
            final(ctx)@ == (SpecStyleContext { open: false, ..old(ctx)@ }),
        decreases *self, 1int, 0int,
    {
        ctx.write_finishing_clause(w);
        w.append(self.condition.as_str());
        w.append(" {\n");
        let mut inner = StyleContext::root(ctx.scope_class.as_str());
        proof {
            lemma_view_rules(self.content, 0);
        }
        let ghost items = view_at_rule(*self).content;
        let ghost ctx0 = inner@;
        let ghost base = w@;
        let mut i: usize = 0;
        while i < self.content.len()
            invariant
                0 <= i <= self.content.len(),
                items == view_rules(self.content, 0),
                items.len() == self.content.len(),
                forall|j: int|
                    0 <= j < self.content.len() ==> items[j] == view_rule(self.content[j]),
                inner@ == ctx0,
                ctx0.open == false,
                sp_rules(items, 0, ctx0, base) == sp_rules(items, i as int, ctx0, w@),
            decreases self.content.len() - i,
        {
            self.content[i].write_style(w, &mut inner);
            proof {
                assert(inner@ =~= ctx0);
            }
            i = i + 1;
        }
        w.append("}\n");
    }
}

/// Renders a sheet to flat CSS text under the given scope class: rules in
/// source order, each clause opened and closed exactly once, the scope
/// placeholder and empty selector lists resolved to the scope class.
pub fn render(sheet: &Sheet, class_name: &str) -> (r: String)
    ensures
        r@ == sp_render_sheet(sheet@, class_name@),
{
    let mut ctx = StyleContext::root(class_name);
    let mut w = String::new();
    proof {
        lemma_view_rules(sheet.items, 0);
    }
    let ghost items = sheet@.items;
    let ghost ctx0 = ctx@;
    let mut i: usize = 0;
    while i < sheet.items.len()
        invariant
            0 <= i <= sheet.items.len(),
            items == view_rules(sheet.items, 0),
            items.len() == sheet.items.len(),
            forall|j: int| 0 <= j < sheet.items.len() ==> items[j] == view_rule(sheet.items[j]),
            ctx@ == ctx0,
            ctx0.open == false,
            sp_rules(items, 0, ctx0, Seq::empty()) == sp_rules(items, i as int, ctx0, w@),
        decreases sheet.items.len() - i,
    {
        sheet.items[i].write_style(&mut w, &mut ctx);
        proof {
            assert(ctx@ =~= ctx0);
        }
        i = i + 1;
    }
    ctx.write_finishing_clause(&mut w);
    w
}

} // verus!
