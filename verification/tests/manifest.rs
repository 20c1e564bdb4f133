use dhl::{
    Manifest, ManifestData, ManifestInspectionError, PackageData, Substitution, SubstitutionDecl,
    SysPath, TomlDependency,
};

fn path(absolute: bool, segments: &[&str]) -> SysPath {
    SysPath { absolute, segments: segments.iter().map(|s| s.to_string()).collect() }
}

fn segs(p: &SysPath) -> Vec<String> {
    p.segments.clone()
}

fn strings(v: &[&str]) -> Vec<String> {
    v.iter().map(|s| s.to_string()).collect()
}

#[test]
fn produce_pairs_versions_from_dependencies() {
    let data = ManifestData {
        packages: vec![
            ("priv".to_string(), "file://lib/libpriv.tar.gz".to_string()),
            ("foo".to_string(), "./lib/libfoo.tar.gz".to_string()),
        ],
        substitutions: None,
        dependencies: vec![
            ("foo".to_string(), TomlDependency::Plain("0.4.5".to_string())),
            (
                "priv".to_string(),
                TomlDependency::Detailed { version: Some("^3.2".to_string()) },
            ),
        ],
    };
    let m = Manifest::produce(path(true, &["proj"]), data).unwrap();
    assert_eq!(m.packages.len(), 2);
    assert_eq!(m.packages[0].0, "priv");
    assert_eq!(m.packages[0].1.version, Some("^3.2".to_string()));
    assert_eq!(m.packages[0].1.source, "file://lib/libpriv.tar.gz");
    assert_eq!(m.packages[1].0, "foo");
    // A bare version requirement in the dependency table carries no version.
    assert_eq!(m.packages[1].1.version, None);
}

#[test]
fn produce_defaults_substitutions_to_target_and_profile() {
    let data = ManifestData { packages: Vec::new(), substitutions: None, dependencies: Vec::new() };
    let m = Manifest::produce(path(true, &["proj"]), data).unwrap();
    assert_eq!(m.substitutions.len(), 2);
    assert_eq!(m.substitutions[0].0, "target");
    assert!(matches!(&m.substitutions[0].1, Substitution::EnvironmentVariable(k) if k == "TARGET"));
    assert_eq!(m.substitutions[1].0, "profile");
    assert!(
        matches!(&m.substitutions[1].1, Substitution::EnvironmentVariable(k) if k == "PROFILE")
    );
}

#[test]
fn produce_reads_declared_substitutions() {
    let data = ManifestData {
        packages: Vec::new(),
        substitutions: Some(vec![
            ("a".to_string(), SubstitutionDecl::Plain("v1".to_string())),
            (
                "b".to_string(),
                SubstitutionDecl::Configured { value: "VAR_B".to_string(), env: true },
            ),
            (
                "c".to_string(),
                SubstitutionDecl::Configured { value: "v3".to_string(), env: false },
            ),
        ]),
        dependencies: Vec::new(),
    };
    let m = Manifest::produce(path(true, &["proj"]), data).unwrap();
    assert!(matches!(&m.substitutions[0].1, Substitution::Value(v) if v == "v1"));
    assert!(matches!(&m.substitutions[1].1, Substitution::EnvironmentVariable(k) if k == "VAR_B"));
    assert!(matches!(&m.substitutions[2].1, Substitution::Value(v) if v == "v3"));
}

fn manifest_with_sources(sources: &[(&str, &str)]) -> Manifest {
    let data = ManifestData {
        packages: sources.iter().map(|(k, v)| (k.to_string(), v.to_string())).collect(),
        substitutions: Some(Vec::new()),
        dependencies: Vec::new(),
    };
    Manifest::produce(path(true, &["home", "proj"]), data).unwrap()
}

#[test]
fn inspect_sorts_sources() {
    let m = manifest_with_sources(&[
        ("filepkg", "file://lib/libpriv.tar.gz"),
        ("relpkg", "./lib/libpriv2.tar.gz"),
        ("abspkg", "file:///opt/libabs.tar.gz"),
        ("urlpkg", "http://example.com/libpriv.tar.gz"),
    ]);
    let ps = m.inspect(None, &Vec::new()).unwrap();
    assert_eq!(ps.packages.len(), 4);

    match &ps.packages[0].1.data {
        PackageData::File(f) => {
            assert!(f.source.absolute);
            assert_eq!(segs(&f.source), strings(&["home", "proj", "lib", "libpriv.tar.gz"]));
        }
        _ => panic!("expected a file source"),
    }
    match &ps.packages[1].1.data {
        PackageData::File(f) => {
            assert_eq!(
                segs(&f.source),
                strings(&["home", "proj", ".", "lib", "libpriv2.tar.gz"])
            );
        }
        _ => panic!("expected a file source"),
    }
    // An absolute path replaces the manifest directory.
    match &ps.packages[2].1.data {
        PackageData::File(f) => {
            assert!(f.source.absolute);
            assert_eq!(segs(&f.source), strings(&["opt", "libabs.tar.gz"]));
        }
        _ => panic!("expected a file source"),
    }
    assert!(matches!(&ps.packages[3].1.data, PackageData::Url(_)));
}

#[test]
fn inspect_renders_templates_into_sources() {
    let data = ManifestData {
        packages: vec![(
            "pkg".to_string(),
            "./lib/libpkg-{{flavor}}-{{version}}.tar.gz".to_string(),
        )],
        substitutions: Some(vec![(
            "flavor".to_string(),
            SubstitutionDecl::Plain("fast".to_string()),
        )]),
        dependencies: vec![(
            "pkg".to_string(),
            TomlDependency::Detailed { version: Some("1.2".to_string()) },
        )],
    };
    let m = Manifest::produce(path(true, &["proj"]), data).unwrap();
    let ps = m.inspect(None, &Vec::new()).unwrap();
    match &ps.packages[0].1.data {
        PackageData::File(f) => {
            assert_eq!(
                segs(&f.source),
                strings(&["proj", ".", "lib", "libpkg-fast-1.2.tar.gz"])
            );
        }
        _ => panic!("expected a file source"),
    }
}

#[test]
fn inspect_rejects_unparsable_url() {
    let m = manifest_with_sources(&[("bad", "://missing-scheme")]);
    match m.inspect(None, &Vec::new()) {
        Err(ManifestInspectionError::Url(name, up, _)) => {
            assert_eq!(name, "bad");
            assert_eq!(up.source, "://missing-scheme");
        }
        _ => panic!("expected the URL error"),
    }
}

#[test]
fn inspect_reports_missing_env_var() {
    let data = ManifestData {
        packages: Vec::new(),
        substitutions: Some(vec![(
            "v".to_string(),
            SubstitutionDecl::Configured { value: "DHL_UNSET".to_string(), env: true },
        )]),
        dependencies: Vec::new(),
    };
    let m = Manifest::produce(path(true, &["proj"]), data).unwrap();
    match m.inspect(None, &Vec::new()) {
        Err(ManifestInspectionError::TemplateGeneration(
            dhl::TemplateGenerationError::EnvError(name),
        )) => assert_eq!(name, "DHL_UNSET"),
        _ => panic!("expected the environment error"),
    }
}
