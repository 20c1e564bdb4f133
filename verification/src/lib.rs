//! Delivers externally built library artifacts into a build system's `deps`
//! directory, replacing placeholder files the build system already produced.
//!
//! The crate indexes placeholder files by a normalized crate name, resolves
//! delivery destinations, and plans the extraction of compressed archives so
//! that a designated export member lands exactly on the placeholder path while
//! bundled members land as its siblings.

mod depot;
mod manifest;
mod paths;
mod recipients;
mod template;
pub use paths::{PathModel, SysPath};
pub use depot::{ArchiveError, Delivery, Depot, DepotError, FileWrite};
pub use manifest::{
    FileData, Manifest, ManifestCreationError, ManifestData, ManifestInspectionError, Package,
    PackageData, Packages, Substitution, SubstitutionDecl, TomlDependency, UninspectedPackage,
    UrlData,
};
pub use recipients::{
    parse_placeholder, placeholder_key, Address, CollisionNote, DirEntry, Recipients,
    RecipientsError, Resolution,
};
pub use template::{TemplateEngine, TemplateGenerationError};

use vstd::prelude::*;

verus! {

/// A crate name with every hyphen mapped to an underscore; the key under
/// which placeholder files are indexed and resolved.
pub open spec fn normalize_name(s: Seq<char>) -> Seq<char> {
    s.map_values(|c: char| if c == '-' { '_' } else { c })
}

/// Maps hyphens to underscores, so that `get("foo-bar")` and `get("foo_bar")`
/// address the same placeholder.
pub fn normalize(name: &str) -> (r: String)
    ensures
        r@ == normalize_name(name@),
{
    let len = name.unicode_len();
    let mut out = String::new();
    let mut i: usize = 0;
    while i < len
        invariant
            len == name@.len(),
            i <= len,
            out@ == normalize_name(name@.subrange(0, i as int)),
        decreases len - i,
    {
        let c = name.get_char(i);
        if c == '-' {
            out.append("_");
        } else {
            let piece = name.substring_char(i, i + 1);
            out.append(piece);
        }
        proof {
            reveal_strlit("_");
            assert(name@.subrange(0, i as int + 1) =~= name@.subrange(0, i as int).push(name@[i as int]));
            assert(normalize_name(name@.subrange(0, i as int + 1)) =~= normalize_name(
                name@.subrange(0, i as int),
            ).push(if name@[i as int] == '-' {
                '_'
            } else {
                name@[i as int]
            }));
        }
        i = i + 1;
    }
    proof {
        assert(name@.subrange(0, len as int) =~= name@);
    }
    out
}

/// Any failure one full delivery run can report.
#[derive(Debug)]
pub enum Error {
    RecipientsError(RecipientsError),
    ManifestCreationError(ManifestCreationError),
    ManifestInspectionError(ManifestInspectionError),
    DepotError(DepotError),
}

} // verus!
