//! The abstract syntax tree of a parsed stylesheet, together with its
//! mathematical model: every node type has a ghost counterpart built from
//! `Seq`, and a view function mapping the executable tree onto it. All
//! contracts of the parser, the renderer and the registry speak about these
//! models, so structurally identical trees are indistinguishable to them.
use vstd::prelude::*;

verus! {

/// One fragment of a selector: either verbatim selector text (type, class,
/// id, pseudo-class, attribute and combinator characters, unvalidated) or the
/// scope placeholder `&`, replaced at render time by the generated class.
#[derive(Debug, Clone, PartialEq, Eq, Hash)]
pub enum SelectorFragment {
    Text(String),
    Scope,
}

/// One selector: an ordered sequence of fragments, concatenated verbatim at
/// render time.
#[derive(Debug, Clone, PartialEq, Eq, Hash)]
pub struct Selector {
    pub fragments: Vec<SelectorFragment>,
}

/// One declaration `name: value;`. The value is an ordered sequence of text
/// segments: literal source text and interpolation values, both already
/// resolved to plain text when the tree is built.
#[derive(Debug, Clone, PartialEq, Eq, Hash)]
pub struct StyleAttribute {
    pub name: String,
    pub value: Vec<String>,
}

/// A qualified rule: selectors and an ordered body of declarations and nested
/// rules. An empty `condition` binds the block to the sheet's own scope class
/// (at top level) or to the enclosing block's condition (when nested).
#[derive(Debug, PartialEq, Eq, Hash)]
pub struct Block {
    pub condition: Vec<Selector>,
    pub content: Vec<BlockContent>,
}

/// One item of a block body: a declaration or a nested rule.
#[derive(Debug, PartialEq, Eq, Hash)]
pub enum BlockContent {
    StyleAttr(StyleAttribute),
    RuleBlock(RuleBlock),
}

/// A rule that can stand at sheet top level, inside an at-rule, or nested in
/// a block: a qualified rule or a generic at-rule.
#[derive(Debug, PartialEq, Eq, Hash)]
pub enum RuleBlock {
    Block(Block),
    AtRule(AtRuleBlock),
}

/// A generic at-rule `@keyword condition { ... }`. The keyword and condition
/// are kept as one raw, unvalidated text (starting with `@`); the body is a
/// sequence of rules, bare declarations having been wrapped into implicit
/// blocks by the parser.
#[derive(Debug, PartialEq, Eq, Hash)]
pub struct AtRuleBlock {
    pub condition: String,
    pub content: Vec<RuleBlock>,
}

/// An immutable parsed stylesheet: the ordered sequence of its top-level
/// rules, bare declarations having been wrapped into implicit blocks.
#[derive(Debug, PartialEq, Eq, Hash)]
pub struct Sheet {
    pub items: Vec<RuleBlock>,
}

impl From<StyleAttribute> for BlockContent {
    fn from(s: StyleAttribute) -> (r: BlockContent) {
        BlockContent::StyleAttr(s)
    }
}

impl vstd::std_specs::convert::FromSpecImpl<StyleAttribute> for BlockContent {
    open spec fn obeys_from_spec() -> bool {
        true
    }

    open spec fn from_spec(s: StyleAttribute) -> BlockContent {
        BlockContent::StyleAttr(s)
    }
}

/// Ghost model of `SelectorFragment`.
pub enum SpecSelectorFragment {
    Text(Seq<char>),
    Scope,
}

/// Ghost model of `Selector`.
pub struct SpecSelector {
    pub fragments: Seq<SpecSelectorFragment>,
}

/// Ghost model of `StyleAttribute`.
pub struct SpecStyleAttribute {
    pub name: Seq<char>,
    pub value: Seq<Seq<char>>,
}

/// Ghost model of `Block`.
pub struct SpecBlock {
    pub condition: Seq<SpecSelector>,
    pub content: Seq<SpecBlockContent>,
}

/// Ghost model of `BlockContent`.
pub enum SpecBlockContent {
    StyleAttr(SpecStyleAttribute),
    RuleBlock(SpecRuleBlock),
}

/// Ghost model of `RuleBlock`.
pub enum SpecRuleBlock {
    Block(SpecBlock),
    AtRule(SpecAtRuleBlock),
}

/// Ghost model of `AtRuleBlock`.
pub struct SpecAtRuleBlock {
    pub condition: Seq<char>,
    pub content: Seq<SpecRuleBlock>,
}

/// Ghost model of `Sheet`.
pub struct SpecSheet {
    pub items: Seq<SpecRuleBlock>,
}

pub open spec fn view_fragment(f: SelectorFragment) -> SpecSelectorFragment {
    match f {
        SelectorFragment::Text(s) => SpecSelectorFragment::Text(s@),
        SelectorFragment::Scope => SpecSelectorFragment::Scope,
    }
}

pub open spec fn view_fragments(v: Seq<SelectorFragment>) -> Seq<SpecSelectorFragment> {
    v.map_values(|f: SelectorFragment| view_fragment(f))
}

pub open spec fn view_selector(s: Selector) -> SpecSelector {
    SpecSelector { fragments: view_fragments(s.fragments@) }
}

pub open spec fn view_selectors(v: Seq<Selector>) -> Seq<SpecSelector> {
    v.map_values(|s: Selector| view_selector(s))
}

pub open spec fn view_strings(v: Seq<String>) -> Seq<Seq<char>> {
    v.map_values(|s: String| s@)
}

pub open spec fn view_attribute(a: StyleAttribute) -> SpecStyleAttribute {
    SpecStyleAttribute { name: a.name@, value: view_strings(a.value@) }
}

pub open spec fn view_block(b: Block) -> SpecBlock
    decreases b, 1int, 0int,
{
    SpecBlock { condition: view_selectors(b.condition@), content: view_contents(b.content, 0) }
}

pub open spec fn view_contents(v: Vec<BlockContent>, i: int) -> Seq<SpecBlockContent>
    decreases v, 0int, v.len() - i,
{
    if 0 <= i < v.len() {
        seq![view_content(v[i])] + view_contents(v, i + 1)
    } else {
        Seq::empty()
    }
}

pub open spec fn view_content(c: BlockContent) -> SpecBlockContent
    decreases c, 1int, 0int,
{
    match c {
        BlockContent::StyleAttr(a) => SpecBlockContent::StyleAttr(view_attribute(a)),
        BlockContent::RuleBlock(r) => SpecBlockContent::RuleBlock(view_rule(r)),
    }
}

pub open spec fn view_rule(r: RuleBlock) -> SpecRuleBlock
    decreases r, 1int, 0int,
{
    match r {
        RuleBlock::Block(b) => SpecRuleBlock::Block(view_block(b)),
        RuleBlock::AtRule(a) => SpecRuleBlock::AtRule(view_at_rule(a)),
    }
}

pub open spec fn view_at_rule(a: AtRuleBlock) -> SpecAtRuleBlock
    decreases a, 1int, 0int,
{
    SpecAtRuleBlock { condition: a.condition@, content: view_rules(a.content, 0) }
}

pub open spec fn view_rules(v: Vec<RuleBlock>, i: int) -> Seq<SpecRuleBlock>
    decreases v, 0int, v.len() - i,
{
    if 0 <= i < v.len() {
        seq![view_rule(v[i])] + view_rules(v, i + 1)
    } else {
        Seq::empty()
    }
}

pub open spec fn view_sheet(s: Sheet) -> SpecSheet {
    SpecSheet { items: view_rules(s.items, 0) }
}

impl View for Sheet {
    type V = SpecSheet;

    open spec fn view(&self) -> SpecSheet {
        view_sheet(*self)
    }
}

/// The suffix model of a block body agrees index by index with the item
/// models.
pub proof fn lemma_view_contents(v: Vec<BlockContent>, i: int)
    requires
        0 <= i <= v.len(),
    ensures
        view_contents(v, i).len() == v.len() - i,
        forall|j: int|
            0 <= j < v.len() - i ==> view_contents(v, i)[j] == view_content(v[i + j]),
    decreases v.len() - i,
{
    if i < v.len() {
        lemma_view_contents(v, i + 1);
    }
}

/// The suffix model of a rule sequence agrees index by index with the item
/// models.
pub proof fn lemma_view_rules(v: Vec<RuleBlock>, i: int)
    requires
        0 <= i <= v.len(),
    ensures
        view_rules(v, i).len() == v.len() - i,
        forall|j: int| 0 <= j < v.len() - i ==> view_rules(v, i)[j] == view_rule(v[i + j]),
    decreases v.len() - i,
{
    if i < v.len() {
        lemma_view_rules(v, i + 1);
    }
}

/// Appending one rule to a vector appends its model to the vector's model.
pub proof fn lemma_view_rules_push(v: Vec<RuleBlock>, x: RuleBlock, w: Vec<RuleBlock>)
    requires
        w@ == v@.push(x),
    ensures
        view_rules(w, 0) == view_rules(v, 0).push(view_rule(x)),
{
    lemma_view_rules(v, 0);
    lemma_view_rules(w, 0);
    assert(view_rules(w, 0) =~= view_rules(v, 0).push(view_rule(x)));
}

/// Appending one item to a block body appends its model to the body's model.
pub proof fn lemma_view_contents_push(v: Vec<BlockContent>, x: BlockContent, w: Vec<BlockContent>)
    requires
        w@ == v@.push(x),
    ensures
        view_contents(w, 0) == view_contents(v, 0).push(view_content(x)),
{
    lemma_view_contents(v, 0);
    lemma_view_contents(w, 0);
    assert(view_contents(w, 0) =~= view_contents(v, 0).push(view_content(x)));
}

} // verus!
