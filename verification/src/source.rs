//! Style sources: the value a host turns into a mounted style. A
//! `StyleSource` carries a parsed sheet and, optionally, the manager that the
//! style should be registered with; `into_style` performs the registration
//! and hands back the generated class name with the CSS text registered under
//! it.
use crate::ast::{view_sheet, view_strings, Sheet, SpecSheet};
use crate::parser::{parse, sp_parse, ParseError};
use crate::registry::{
    lemma_register_lookup, sp_class_name, sp_lookup_css, sp_register, sp_sheet_key, RegistryError,
    SpecManager, StyleManager,
};
use vstd::prelude::*;

verus! {

/// The parsed source that a `StyleSource` carries.
#[derive(Debug, PartialEq, Eq)]
enum SheetSource {
    Sheet(Sheet),
}

/// A registered style: its generated scope class and its scoped CSS text.
#[derive(Debug, PartialEq, Eq)]
pub struct Style {
    pub class_name: String,
    pub style_str: String,
}

impl Style {
    /// The generated class name that scopes this style.
    pub fn get_class_name(&self) -> (r: &str)
        ensures
            r@ == self.class_name@,
    {
        self.class_name.as_str()
    }

    /// The CSS text registered for this style.
    pub fn get_style_str(&self) -> (r: &str)
        ensures
            r@ == self.style_str@,
    {
        self.style_str.as_str()
    }
}

/// A source from which a style can be created: a parsed sheet, and optionally
/// the manager the style should be registered with.
#[derive(Debug)]
pub struct StyleSource {
    inner: SheetSource,
    manager: Option<StyleManager>,
}

impl StyleSource {
    /// The model of the sheet this source carries.
    pub closed spec fn spec_sheet(&self) -> SpecSheet {
        match self.inner {
            SheetSource::Sheet(s) => view_sheet(s),
        }
    }

    /// The manager this source is bound to, if any.
    pub closed spec fn spec_manager(&self) -> Option<StyleManager> {
        self.manager
    }

    /// A valid source: its manager, when bound, is well formed.
    pub open spec fn wf(&self) -> bool {
        match self.spec_manager() {
            Some(m) => m.wf(),
            None => true,
        }
    }

    /// The model of the manager that `into_style` registers with: the bound
    /// one, or a fresh default manager.
    pub open spec fn effective_manager(&self) -> SpecManager {
        match self.spec_manager() {
            Some(m) => m@,
            None => SpecManager { prefix: "stylist"@, entries: Seq::empty() },
        }
    }

    /// Binds this source to the manager that `into_style` registers with.
    pub fn with_manager(self, manager: StyleManager) -> (r: StyleSource)
        requires
            manager.wf(),
        ensures
            r.spec_sheet() == self.spec_sheet(),
            r.spec_manager() == Some(manager),
            r.wf(),
    {
        StyleSource { manager: Some(manager), inner: self.inner }
    }

    /// The sheet this source carries.
    pub fn into_sheet(self) -> (r: Sheet)
        ensures
            view_sheet(r) == self.spec_sheet(),
    {
        match self.inner {
            SheetSource::Sheet(m) => m,
        }
    }

    /// Registers the sheet with the bound (or a fresh default) manager and
    /// returns the style: the class name generated for the sheet's content
    /// hash under the manager's prefix, and the CSS text registered under it.
    pub fn into_style(self) -> (r: Style)
        requires
            self.wf(),
        ensures
            r.class_name@ == sp_class_name(
                self.effective_manager().prefix,
                sp_sheet_key(self.spec_sheet()),
            ),
            ({
                let (m2, h, mnt) = sp_register(self.effective_manager(), self.spec_sheet());
                sp_lookup_css(m2, h) == Ok::<Seq<char>, RegistryError>(r.style_str@)
            }),
    {
        let StyleSource { inner, manager } = self;
        let mut mgr = match manager {
            Some(m) => m,
            None => StyleManager::default(),
        };
        let sheet = match inner {
            SheetSource::Sheet(m) => m,
        };
        proof {
            lemma_register_lookup(mgr@, view_sheet(sheet));
        }
        let (h, _mount) = mgr.register(&sheet);
        let class_name = match mgr.get_class_name(h) {
            Ok(c) => c,
            Err(_) => {
                proof {
                    assert(false);
                }
                String::new()
            },
        };
        let style_str = match mgr.get_style_text(h) {
            Ok(c) => c,
            Err(_) => {
                proof {
                    assert(false);
                }
                String::new()
            },
        };
        Style { class_name, style_str }
    }

    /// Parses a source text, with no interpolation values, into a source.
    pub fn try_from_str(text: &str) -> (r: Result<StyleSource, ParseError>)
        ensures
            match (r, sp_parse(text@, Seq::empty())) {
                (Ok(src), Ok(v)) => src.spec_sheet() == v && src.spec_manager()
                    == None::<StyleManager> && src.wf(),
                (Err(e), Err(se)) => e == se,
                _ => false,
            },
    {
        let interps: Vec<String> = Vec::new();
        proof {
            assert(view_strings(interps@) =~= Seq::<Seq<char>>::empty());
        }
        match parse(text, &interps) {
            Ok(sheet) => Ok(StyleSource { inner: SheetSource::Sheet(sheet), manager: None }),
            Err(e) => Err(e),
        }
    }

    /// Parses an owned source text, with no interpolation values, into a
    /// source.
    pub fn try_from_string(text: String) -> (r: Result<StyleSource, ParseError>)
        ensures
            match (r, sp_parse(text@, Seq::empty())) {
                (Ok(src), Ok(v)) => src.spec_sheet() == v && src.spec_manager()
                    == None::<StyleManager> && src.wf(),
                (Err(e), Err(se)) => e == se,
                _ => false,
            },
    {
        StyleSource::try_from_str(text.as_str())
    }
}

impl StyleSource {
    /// The source that `From<Sheet>` constructs.
    pub closed spec fn spec_from_sheet(other: Sheet) -> StyleSource {
        StyleSource { inner: SheetSource::Sheet(other), manager: None }
    }
}

/// What `From<Sheet>` constructs: that very sheet, bound to no manager.
pub proof fn lemma_from_sheet(s: Sheet)
    ensures
        StyleSource::spec_from_sheet(s).spec_sheet() == view_sheet(s),
        StyleSource::spec_from_sheet(s).spec_manager() == None::<StyleManager>,
        StyleSource::spec_from_sheet(s).wf(),
{
}

impl From<Sheet> for StyleSource {
    fn from(other: Sheet) -> (r: StyleSource) {
        StyleSource { inner: SheetSource::Sheet(other), manager: None }
    }
}

impl vstd::std_specs::convert::FromSpecImpl<Sheet> for StyleSource {
    open spec fn obeys_from_spec() -> bool {
        true
    }

    open spec fn from_spec(other: Sheet) -> StyleSource {
        StyleSource::spec_from_sheet(other)
    }
}

} // verus!
