//! What the analysis knows of a parent facade that re-exports a child
//! item, and how the facade's `use` is spelled.

use vstd::prelude::*;

use crate::facade_paths::ParentFacadeUsage;

verus! {

/// Whether `--fix pub-use` can rewrite the facade's `use`.
#[derive(Debug, Clone, Copy, Default, PartialEq, Eq, Structural)]
pub enum ParentFacadeFixSupport {
    #[default]
    Unsupported,
    Supported,
}

/// The visibility the facade's `use` is written with.
#[derive(Debug, Clone, Copy, PartialEq, Eq, Structural)]
pub enum ParentFacadeSpelling {
    Public,
    Crate,
    Super,
    Other,
}

/// How far the facade's `use` reaches, and how it is written.
#[derive(Debug, Clone, Copy, PartialEq, Eq, Structural)]
pub struct ParentFacadeReach {
    pub reaches_parent: bool,
    pub spelling: ParentFacadeSpelling,
    /// The facade's re-exports of the item disagree on their spelling.
    pub spelling_conflict: bool,
}

/// A parent facade that re-exports a child item.
#[derive(Debug, Clone, PartialEq, Eq)]
pub struct ParentFacadeExportStatus {
    pub usage: ParentFacadeUsage,
    pub fix_support: ParentFacadeFixSupport,
    pub parent_facade_reach: ParentFacadeReach,
    pub parent_path: String,
    pub parent_rel_path: String,
    pub parent_line: usize,
    /// Def-path of the module holding the `use` item.
    pub boundary_def_path: String,
}

/// The `use` keyword sequence a facade of this reach is written with, when
/// it has one agreed spelling.
pub open spec fn use_syntax_spec(reach: ParentFacadeReach) -> Option<Seq<char>> {
    if reach.spelling_conflict {
        None
    } else {
        match reach.spelling {
            ParentFacadeSpelling::Public => Some("pub use"@),
            ParentFacadeSpelling::Crate => Some("pub(crate) use"@),
            ParentFacadeSpelling::Super => Some("pub(super) use"@),
            ParentFacadeSpelling::Other => None,
        }
    }
}

impl ParentFacadeExportStatus {
    /// How the facade's `use` is written: `pub use`, `pub(crate) use` or
    /// `pub(super) use`; none for another spelling or conflicting ones.
    pub fn use_syntax(&self) -> (r: Option<&'static str>)
        ensures
            match r {
                Some(s) => use_syntax_spec(self.parent_facade_reach) == Some(s@),
                None => use_syntax_spec(self.parent_facade_reach) is None,
            },
    {
        if self.parent_facade_reach.spelling_conflict {
            return None;
        }
        match self.parent_facade_reach.spelling {
            ParentFacadeSpelling::Public => Some("pub use"),
            ParentFacadeSpelling::Crate => Some("pub(crate) use"),
            ParentFacadeSpelling::Super => Some("pub(super) use"),
            ParentFacadeSpelling::Other => None,
        }
    }
}

} // verus!
