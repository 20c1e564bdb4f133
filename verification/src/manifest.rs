//! Turns declared package data into the package records the depot consumes.
//!
//! The declarations come out of the host project's manifest: a map from crate
//! name to a source-location template, optional named substitutions, and the
//! project's dependency table, from which each package's declared version is
//! drawn. Inspection renders each source template and sorts the result into a
//! file source or a URL source. Reading and decoding the manifest file itself
//! is the caller's task.

use vstd::prelude::*;

use crate::paths::{join_model, path_from_str, string_eq, PathModel, SysPath};
use crate::template::{
    resolve_subs, rustc_prefix, rendered_with, TemplateEngine, TemplateGenerationError,
};

verus! {

/// How reading declared package data can fail. The declarations are handed in
/// already decoded; these cover what the caller reports when producing them.
#[derive(Debug)]
pub enum ManifestCreationError {
    /// A required environment value was missing; holds the variable's name.
    EnvError(String),
    /// The manifest file could not be read; holds the error's text.
    Io(String),
    /// The manifest file could not be decoded; holds the error's text.
    Toml(String),
}

/// How inspecting a manifest can fail.
#[derive(Debug)]
pub enum ManifestInspectionError {
    /// The template engine could not be built.
    TemplateGeneration(TemplateGenerationError),
    /// A package's source template failed to render: the crate name, the
    /// declared package, and the renderer's message.
    TemplateRender(String, UninspectedPackage, String),
    /// A package's source is a URL that does not parse: the crate name, the
    /// declared package, and the parser's message.
    Url(String, UninspectedPackage, String),
}

/// A dependency declaration in the host project's manifest: a bare version
/// requirement, or a table that may carry one.
pub enum TomlDependency {
    Plain(String),
    Detailed { version: Option<String> },
}

/// A substitution declaration: a bare value, or a table that says whether the
/// value names an environment variable.
pub enum SubstitutionDecl {
    Plain(String),
    Configured { value: String, env: bool },
}

/// The declared package data drawn from the host project's manifest.
pub struct ManifestData {
    /// Crate name to source-location template.
    pub packages: Vec<(String, String)>,
    /// Named substitutions, where the manifest declares any.
    pub substitutions: Option<Vec<(String, SubstitutionDecl)>>,
    /// The project's dependency table.
    pub dependencies: Vec<(String, TomlDependency)>,
}

/// A named substitution for source-location templates.
#[derive(Debug)]
pub enum Substitution {
    /// A fixed value.
    Value(String),
    /// The value of the named environment variable.
    EnvironmentVariable(String),
}

/// A declared package before inspection: its declared version, where the
/// dependency table carries one, and its source-location template.
#[derive(Debug)]
pub struct UninspectedPackage {
    pub version: Option<String>,
    pub source: String,
}

/// The declared packages with their substitutions, ready for inspection.
pub struct Manifest {
    pub packages: Vec<(String, UninspectedPackage)>,
    pub substitutions: Vec<(String, Substitution)>,
    pub manifest_dir: SysPath,
}

/// A package record the depot consumes.
pub struct Package {
    pub version: Option<String>,
    pub data: PackageData,
}

/// Where a package's bytes come from.
pub enum PackageData {
    File(FileData),
    Url(UrlData),
}

/// A local file source.
#[derive(Debug)]
pub struct FileData {
    pub source: SysPath,
}

#[verifier::external_type_specification]
#[verifier::external_body]
pub struct ExUrl(reqwest::Url);

/// A network source.
#[derive(Debug)]
pub struct UrlData {
    pub source: reqwest::Url,
}

/// The package records delivery consumes, keyed by crate name.
pub struct Packages {
    pub packages: Vec<(String, Package)>,
}

/// Whether the url crate's parser accepts a string as an absolute URL.
pub uninterp spec fn url_accepted(s: Seq<char>) -> bool;

/// Relies on reqwest::Url::parse, the url crate's parser: whether a string
/// parses as an absolute URL is a function of the string alone.
#[verifier::external_body]
fn parse_url(s: &str) -> (r: Result<reqwest::Url, String>)
    ensures
        r.is_ok() == url_accepted(s@),
{
    reqwest::Url::parse(s).map_err(|e| e.to_string())
}

/// The substitution a declaration stands for: a table with the environment
/// mark set draws on an environment variable, everything else is a fixed
/// value.
pub open spec fn substitution_of(d: SubstitutionDecl) -> Substitution {
    match d {
        SubstitutionDecl::Plain(v) => Substitution::Value(v),
        SubstitutionDecl::Configured { value, env } => if env {
            Substitution::EnvironmentVariable(value)
        } else {
            Substitution::Value(value)
        },
    }
}

/// The version the dependency table declares for a crate: the first entry
/// under the crate's name, where it is a table carrying a version.
pub open spec fn dep_version(deps: Seq<(String, TomlDependency)>, k: Seq<char>) -> Option<
    Seq<char>,
>
    decreases deps.len(),
{
    if deps.len() == 0 {
        None
    } else if deps[0].0@ == k {
        match deps[0].1 {
            TomlDependency::Plain(_) => None,
            TomlDependency::Detailed { version } => version.deep_view(),
        }
    } else {
        dep_version(deps.skip(1), k)
    }
}

/// The declared packages a manifest's package map and dependency table yield.
pub open spec fn loaded_packages(
    out: Seq<(String, UninspectedPackage)>,
    pkgs: Seq<(String, String)>,
    deps: Seq<(String, TomlDependency)>,
) -> bool {
    &&& out.len() == pkgs.len()
    &&& forall|j: int|
        0 <= j < pkgs.len() ==> {
            let o = #[trigger] out[j];
            &&& o.0 == pkgs[j].0
            &&& o.1.source == pkgs[j].1
            &&& o.1.version.deep_view() == dep_version(deps, pkgs[j].0@)
        }
}

/// The substitutions a manifest yields: the declared ones, or, where none are
/// declared, the build target and profile drawn from the environment.
pub open spec fn loaded_substitutions(
    out: Seq<(String, Substitution)>,
    decl: Option<Vec<(String, SubstitutionDecl)>>,
) -> bool {
    match decl {
        Some(ds) => out.len() == ds@.len() && forall|j: int|
            0 <= j < ds@.len() ==> (#[trigger] out[j]).0 == ds@[j].0 && out[j].1
                == substitution_of(ds@[j].1),
        None => {
            &&& out.len() == 2
            &&& out[0].0@ == "target"@
            &&& (out[0].1 matches Substitution::EnvironmentVariable(k) && k@ == "TARGET"@)
            &&& out[1].0@ == "profile"@
            &&& (out[1].1 matches Substitution::EnvironmentVariable(k) && k@ == "PROFILE"@)
        },
    }
}

/// A source string of the form `file://<path>`.
pub open spec fn is_file_prefixed(s: Seq<char>) -> bool {
    s.len() >= 7 && s.take(7) == "file://"@
}

/// Whether a scheme marker `://` occurs at position `i`.
pub open spec fn scheme_at(s: Seq<char>, i: int) -> bool {
    s[i] == ':' && s[i + 1] == '/' && s[i + 2] == '/'
}

/// Whether a source string carries a scheme marker anywhere.
pub open spec fn has_scheme(s: Seq<char>) -> bool {
    exists|i: int| 0 <= i && i + 3 <= s.len() && #[trigger] scheme_at(s, i)
}

/// The file a source string names: its path, stripped of a `file://` prefix
/// where one stands, joined onto the manifest directory. An absolute path
/// replaces the directory.
pub open spec fn file_dest_of(manifest_dir: PathModel, s: Seq<char>) -> PathModel {
    if is_file_prefixed(s) {
        join_model(manifest_dir, crate::paths::path_model_of(s.skip(7)))
    } else {
        join_model(manifest_dir, crate::paths::path_model_of(s))
    }
}

/// What rendering a package's source template yields under resolved
/// substitutions.
pub open spec fn render_of(subs: Seq<(Seq<char>, Seq<char>)>, up: UninspectedPackage) -> Option<
    Seq<char>,
> {
    rendered_with(subs, up.version.deep_view(), up.source@)
}

/// Whether one declared package inspects without error.
pub open spec fn package_ok(subs: Seq<(Seq<char>, Seq<char>)>, up: UninspectedPackage) -> bool {
    match render_of(subs, up) {
        None => false,
        Some(rs) => is_file_prefixed(rs) || !has_scheme(rs) || url_accepted(rs),
    }
}

/// Whether every declared package before position `j` inspects without
/// error.
pub open spec fn packages_ok_to(
    subs: Seq<(Seq<char>, Seq<char>)>,
    pkgs: Seq<(String, UninspectedPackage)>,
    j: int,
) -> bool {
    forall|k: int| 0 <= k < j ==> package_ok(subs, (#[trigger] pkgs[k]).1)
}

/// Whether an inspected package record is the one its declaration calls for.
pub open spec fn package_inspected(
    subs: Seq<(Seq<char>, Seq<char>)>,
    mdir: PathModel,
    decl: (String, UninspectedPackage),
    out: (String, Package),
) -> bool {
    &&& out.0 == decl.0
    &&& out.1.version == decl.1.version
    &&& (render_of(subs, decl.1) matches Some(rs) && match out.1.data {
        PackageData::File(fd) => (is_file_prefixed(rs) || !has_scheme(rs)) && fd.source@
            == file_dest_of(mdir, rs),
        PackageData::Url(_) => !is_file_prefixed(rs) && has_scheme(rs) && url_accepted(rs),
    })
}

/// Copies an optional string.
fn clone_opt_string(v: &Option<String>) -> (r: Option<String>)
    ensures
        r == *v,
{
    match v {
        Some(s) => Some(s.clone()),
        None => None,
    }
}

/// Copies a declared package.
fn clone_uninspected(up: &UninspectedPackage) -> (r: UninspectedPackage)
    ensures
        r == *up,
{
    UninspectedPackage { version: clone_opt_string(&up.version), source: up.source.clone() }
}

/// The version the dependency table declares for a crate.
fn dep_version_get(deps: &Vec<(String, TomlDependency)>, key: &String) -> (r: Option<String>)
    ensures
        r.deep_view() == dep_version(deps@, key@),
{
    let mut i: usize = 0;
    proof {
        assert(deps@.skip(0) =~= deps@);
    }
    while i < deps.len()
        invariant
            i <= deps@.len(),
            dep_version(deps@, key@) == dep_version(deps@.skip(i as int), key@),
        decreases deps@.len() - i,
    {
        proof {
            assert(deps@.skip(i as int)[0] == deps@[i as int]);
            assert(deps@.skip(i as int).skip(1) =~= deps@.skip(i as int + 1));
        }
        if string_eq(&deps[i].0, key) {
            match &deps[i].1 {
                TomlDependency::Plain(_) => {
                    return None;
                },
                TomlDependency::Detailed { version } => {
                    return clone_opt_string(version);
                },
            }
        }
        i = i + 1;
    }
    proof {
        assert(deps@.skip(deps@.len() as int) =~= Seq::<(String, TomlDependency)>::empty());
    }
    None
}

impl Manifest {
    /// Pairs each declared package with the version its dependency-table
    /// entry carries, where that entry is a table with a version.
    pub fn load_packages(
        packages: Vec<(String, String)>,
        dependencies: &Vec<(String, TomlDependency)>,
    ) -> (r: Vec<(String, UninspectedPackage)>)
        ensures
            loaded_packages(r@, packages@, dependencies@),
    {
        let mut out: Vec<(String, UninspectedPackage)> = Vec::new();
        let mut i: usize = 0;
        while i < packages.len()
            invariant
                i <= packages@.len(),
                out@.len() == i,
                forall|j: int|
                    0 <= j < i ==> {
                        let o = #[trigger] out@[j];
                        &&& o.0 == packages@[j].0
                        &&& o.1.source == packages@[j].1
                        &&& o.1.version.deep_view() == dep_version(dependencies@, packages@[j].0@)
                    },
            decreases packages@.len() - i,
        {
            let name = packages[i].0.clone();
            let version = dep_version_get(dependencies, &packages[i].0);
            let source = packages[i].1.clone();
            out.push((name, UninspectedPackage { version, source }));
            i = i + 1;
        }
        out
    }

    /// Builds the manifest record from declared package data: the packages
    /// paired with their declared versions, and the declared substitutions
    /// or, where none are declared, the build target and profile drawn from
    /// the environment.
    pub fn produce(manifest_dir: SysPath, contents: ManifestData) -> (r: Result<
        Manifest,
        ManifestCreationError,
    >)
        ensures
            match r {
                Ok(m) => {
                    &&& m.manifest_dir@ == manifest_dir@
                    &&& loaded_packages(m.packages@, contents.packages@, contents.dependencies@)
                    &&& loaded_substitutions(m.substitutions@, contents.substitutions)
                },
                Err(_) => false,
            },
    {
        let ManifestData { packages, substitutions, dependencies } = contents;
        let packages = Self::load_packages(packages, &dependencies);
        let substitutions = match substitutions {
            Some(ds) => {
                let mut out: Vec<(String, Substitution)> = Vec::new();
                let mut i: usize = 0;
                while i < ds.len()
                    invariant
                        i <= ds@.len(),
                        out@.len() == i,
                        forall|j: int|
                            0 <= j < i ==> (#[trigger] out@[j]).0 == ds@[j].0 && out@[j].1
                                == substitution_of(ds@[j].1),
                    decreases ds@.len() - i,
                {
                    let sub = match &ds[i].1 {
                        SubstitutionDecl::Plain(v) => Substitution::Value(v.clone()),
                        SubstitutionDecl::Configured { value, env } => {
                            if *env {
                                Substitution::EnvironmentVariable(value.clone())
                            } else {
                                Substitution::Value(value.clone())
                            }
                        },
                    };
                    out.push((ds[i].0.clone(), sub));
                    i = i + 1;
                }
                out
            },
            None => {
                let mut out: Vec<(String, Substitution)> = Vec::new();
                out.push((
                    "target".to_owned(),
                    Substitution::EnvironmentVariable("TARGET".to_owned()),
                ));
                out.push((
                    "profile".to_owned(),
                    Substitution::EnvironmentVariable("PROFILE".to_owned()),
                ));
                out
            },
        };
        Ok(Manifest { packages, substitutions, manifest_dir })
    }

    /// Sorts one rendered source into a file or URL source: a `file://`
    /// prefix or the absence of any scheme marker names a file under the
    /// manifest directory; anything else must parse as a URL.
    fn inspect_package_data_helper(
        manifest_dir: &SysPath,
        crate_name: &str,
        package: &UninspectedPackage,
        source: &str,
    ) -> (r: Result<PackageData, ManifestInspectionError>)
        ensures
            match r {
                Ok(d) => match d {
                    PackageData::File(fd) => (is_file_prefixed(source@) || !has_scheme(source@))
                        && fd.source@ == file_dest_of(manifest_dir@, source@),
                    PackageData::Url(_) => !is_file_prefixed(source@) && has_scheme(source@)
                        && url_accepted(source@),
                },
                Err(e) => !is_file_prefixed(source@) && has_scheme(source@) && !url_accepted(
                    source@,
                ) && match e {
                    ManifestInspectionError::Url(n, up, _) => n@ == crate_name@ && up == *package,
                    _ => false,
                },
            },
    {
        let len = source.unicode_len();
        let prefixed = len >= 7 && source.get_char(0) == 'f' && source.get_char(1) == 'i'
            && source.get_char(2) == 'l' && source.get_char(3) == 'e' && source.get_char(4) == ':'
            && source.get_char(5) == '/' && source.get_char(6) == '/';
        proof {
            reveal_strlit("file://");
            assert("file://"@.len() == 7 && "file://"@[0] == 'f' && "file://"@[1] == 'i'
                && "file://"@[2] == 'l' && "file://"@[3] == 'e' && "file://"@[4] == ':'
                && "file://"@[5] == '/' && "file://"@[6] == '/');
            if len >= 7 {
                let head = source@.take(7);
                assert(head[0] == source@[0] && head[1] == source@[1] && head[2] == source@[2]
                    && head[3] == source@[3] && head[4] == source@[4] && head[5] == source@[5]
                    && head[6] == source@[6]);
                if prefixed {
                    assert(head =~= "file://"@);
                } else {
                    assert(head == "file://"@ ==> head[0] == 'f' && head[1] == 'i' && head[2]
                        == 'l' && head[3] == 'e' && head[4] == ':' && head[5] == '/' && head[6]
                        == '/');
                }
            }
            assert(prefixed == is_file_prefixed(source@));
        }
        if prefixed {
            let rest = source.substring_char(7, len);
            let dest = manifest_dir.join(&path_from_str(rest));
            return Ok(PackageData::File(FileData { source: dest }));
        }
        if !find_scheme(source) {
            let dest = manifest_dir.join(&path_from_str(source));
            return Ok(PackageData::File(FileData { source: dest }));
        }
        match parse_url(source) {
            Ok(u) => Ok(PackageData::Url(UrlData { source: u })),
            Err(msg) => Err(
                ManifestInspectionError::Url(
                    crate_name.to_owned(),
                    clone_uninspected(package),
                    msg,
                ),
            ),
        }
    }

    /// Inspects the declared packages: builds the template engine from the
    /// substitutions and the given toolchain version against the environment
    /// snapshot, renders each package's source template, and sorts each
    /// result into a file or URL source. Fails on the first package whose
    /// template does not render or whose URL does not parse.
    pub fn inspect(
        self,
        rustc_short_version: Option<String>,
        env: &Vec<(String, Option<String>)>,
    ) -> (r: Result<Packages, ManifestInspectionError>)
        ensures
            match r {
                Ok(ps) => (resolve_subs(self.substitutions@, env@) matches Ok(rs0) && {
                    let subs = rustc_prefix(rustc_short_version.deep_view()) + rs0;
                    &&& ps.packages@.len() == self.packages@.len()
                    &&& forall|j: int|
                        0 <= j < self.packages@.len() ==> package_inspected(
                            subs,
                            self.manifest_dir@,
                            self.packages@[j],
                            #[trigger] ps.packages@[j],
                        )
                }),
                Err(e) => match e {
                    ManifestInspectionError::TemplateGeneration(g) => (resolve_subs(
                        self.substitutions@,
                        env@,
                    ) matches Err(k) && match g {
                        TemplateGenerationError::EnvError(n) => n@ == k,
                        _ => false,
                    }),
                    ManifestInspectionError::TemplateRender(n, up, _) => (resolve_subs(
                        self.substitutions@,
                        env@,
                    ) matches Ok(rs0) && {
                        let subs = rustc_prefix(rustc_short_version.deep_view()) + rs0;
                        exists|j: int|
                            0 <= j < self.packages@.len() && packages_ok_to(
                                subs,
                                self.packages@,
                                j,
                            ) && n@ == (#[trigger] self.packages@[j]).0@ && up.source@
                                == self.packages@[j].1.source@ && up.version.deep_view()
                                == self.packages@[j].1.version.deep_view() && render_of(
                                subs,
                                self.packages@[j].1,
                            ) is None
                    }),
                    ManifestInspectionError::Url(n, up, _) => (resolve_subs(
                        self.substitutions@,
                        env@,
                    ) matches Ok(rs0) && {
                        let subs = rustc_prefix(rustc_short_version.deep_view()) + rs0;
                        exists|j: int|
                            0 <= j < self.packages@.len() && packages_ok_to(
                                subs,
                                self.packages@,
                                j,
                            ) && n@ == (#[trigger] self.packages@[j]).0@ && up.source@
                                == self.packages@[j].1.source@ && up.version.deep_view()
                                == self.packages@[j].1.version.deep_view() && (render_of(
                                subs,
                                self.packages@[j].1,
                            ) matches Some(rs) && !is_file_prefixed(rs) && has_scheme(rs)
                                && !url_accepted(rs))
                    }),
                },
            },
    {
        let Manifest { packages, substitutions, manifest_dir } = self;
        let engine = match TemplateEngine::new(substitutions, rustc_short_version, env) {
            Ok(t) => t,
            Err(e) => {
                return Err(ManifestInspectionError::TemplateGeneration(e));
            },
        };
        let ghost subs = engine.subs_spec();
        let mut out: Vec<(String, Package)> = Vec::new();
        let mut i: usize = 0;
        while i < packages.len()
            invariant
                i <= packages@.len(),
                packages@ == self.packages@,
                manifest_dir@ == self.manifest_dir@,
                resolve_subs(self.substitutions@, env@) matches Ok(rs0) && subs == rustc_prefix(
                    rustc_short_version.deep_view(),
                ) + rs0,
                subs == engine.subs_spec(),
                out@.len() == i,
                packages_ok_to(subs, packages@, i as int),
                forall|j: int|
                    0 <= j < i ==> package_inspected(
                        subs,
                        manifest_dir@,
                        packages@[j],
                        #[trigger] out@[j],
                    ),
            decreases packages@.len() - i,
        {
            let name = packages[i].0.clone();
            let up = &packages[i].1;
            let version_ref: Option<&str> = match &up.version {
                Some(v) => Some(v.as_str()),
                None => None,
            };
            proof {
                assert(version_ref.deep_view() == up.version.deep_view());
            }
            let rendered = match engine.render(up.source.as_str(), version_ref) {
                Ok(s) => s,
                Err(msg) => {
                    proof {
                        assert(packages_ok_to(subs, packages@, i as int));
                        assert(render_of(subs, packages@[i as int].1) is None);
                    }
                    return Err(
                        ManifestInspectionError::TemplateRender(name, clone_uninspected(up), msg),
                    );
                },
            };
            let data = match Self::inspect_package_data_helper(
                &manifest_dir,
                name.as_str(),
                up,
                rendered.as_str(),
            ) {
                Ok(d) => d,
                Err(e) => {
                    proof {
                        assert(packages_ok_to(subs, packages@, i as int));
                        assert(render_of(subs, packages@[i as int].1) matches Some(rs)
                            && !is_file_prefixed(rs) && has_scheme(rs) && !url_accepted(rs));
                    }
                    return Err(e);
                },
            };
            out.push((name, Package { version: clone_opt_string(&up.version), data }));
            i = i + 1;
        }
        Ok(Packages { packages: out })
    }
}

/// Whether a scheme marker `://` occurs anywhere in a source string.
fn find_scheme(s: &str) -> (r: bool)
    ensures
        r == has_scheme(s@),
{
    let len = s.unicode_len();
    if len < 3 {
        return false;
    }
    let mut i: usize = 0;
    while i <= len - 3
        invariant
            len == s@.len(),
            len >= 3,
            i <= len - 2,
            forall|j: int| 0 <= j < i ==> !scheme_at(s@, j),
        decreases len - i,
    {
        if s.get_char(i) == ':' && s.get_char(i + 1) == '/' && s.get_char(i + 2) == '/' {
            proof {
                assert(scheme_at(s@, i as int));
            }
            return true;
        }
        proof {
            assert(!scheme_at(s@, i as int));
        }
        i = i + 1;
    }
    false
}

} // verus!
