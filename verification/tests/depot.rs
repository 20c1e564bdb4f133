use dhl::{
    Delivery, Depot, DepotError, DirEntry, FileData, Package, PackageData, Packages, Recipients,
    SysPath,
};

fn path(absolute: bool, segments: &[&str]) -> SysPath {
    SysPath { absolute, segments: segments.iter().map(|s| s.to_string()).collect() }
}

fn entry(name: &str, modified: Option<u64>) -> DirEntry {
    DirEntry { name: Some(name.to_string()), modified }
}

fn segs(p: &SysPath) -> Vec<String> {
    p.segments.clone()
}

fn targz(members: &[(&str, &str)]) -> Vec<u8> {
    let mut builder = tar::Builder::new(Vec::new());
    for (member_path, data) in members {
        let mut header = tar::Header::new_old();
        header.set_path(member_path).unwrap();
        header.set_size(data.len() as u64);
        header.set_cksum();
        builder.append(&header, data.as_bytes()).unwrap();
    }
    let tar_bytes = builder.into_inner().unwrap();
    let mut encoder = libflate::gzip::Encoder::new(Vec::new()).unwrap();
    std::io::Write::write_all(&mut encoder, &tar_bytes).unwrap();
    encoder.finish().into_result().unwrap()
}

fn file_package(source: SysPath) -> Package {
    Package { version: None, data: PackageData::File(FileData { source }) }
}

fn delivered_file(d: &Delivery) -> SysPath {
    match &d.data {
        PackageData::File(f) => f.source.clone(),
        PackageData::Url(_) => panic!("expected a file source"),
    }
}

#[test]
fn verify_file_delivery() {
    let base = path(true, &["example"]);
    let private = base.child("private");
    let deps_dir = base.child("deps");

    let entries = vec![
        entry("libdhltest-c000l0ff.rlib", Some(1)),
        entry("libdhltest_dash-d15ea5e.rlib", Some(2)),
        entry("libdhltest_underscore-deadbeef.rlib", Some(3)),
    ];

    let dep1_name = "libbytes-f6610c9d61c318a7.rlib";
    let dep1_data = "test1";
    let dep2_name = "libcfg_if-8132ccc150e6610a.rlib";
    let dep2_data = "test2";
    let dep3_name = "libbyteorder-568dc38c19e619e7.rlib";
    let dep3_data = "test3";
    let dep4_name = "libforeign_types-ace5d92fe2c77261.rlib";
    let dep4_data = "test4";

    let dhltest_bytes = targz(&[
        (dep1_name, dep1_data),
        (dep2_name, dep2_data),
        ("export.rlib", "test5"),
    ]);
    let dash_bytes = targz(&[
        (dep3_name, dep3_data),
        (dep4_name, dep4_data),
        ("export.rlib", "test6"),
    ]);
    let underscore_bytes = targz(&[("export.rlib", "test7")]);

    let (mut recipients, notes) = Recipients::with_path(deps_dir.clone(), &base, &entries);
    assert!(notes.is_empty());

    let packages = Packages {
        packages: vec![
            ("dhltest".to_string(), file_package(private.child("dhltest.tar.gz"))),
            ("dhltest-dash".to_string(), file_package(private.child("libdhltest_dash.tar.gz"))),
            (
                "dhltest_underscore".to_string(),
                file_package(private.child("libdhltest_underscore.v12.tar.gz")),
            ),
        ],
    };

    let depot = Depot::new();
    let deliveries = depot.deliver(&mut recipients, packages).unwrap();
    assert_eq!(deliveries.len(), 3);
    assert_eq!(deliveries[0].crate_name, "dhltest");
    assert_eq!(
        segs(&deliveries[0].dest),
        vec!["example".to_string(), "deps".to_string(), "libdhltest-c000l0ff.rlib".to_string()]
    );
    assert_eq!(
        segs(&delivered_file(&deliveries[0])),
        vec!["example".to_string(), "private".to_string(), "dhltest.tar.gz".to_string()]
    );

    // The caller would now read each source; here the archive bytes stand in.
    let archives = [&dhltest_bytes, &dash_bytes, &underscore_bytes];
    let mut all_writes = Vec::new();
    for (d, bytes) in deliveries.iter().zip(archives.iter()) {
        let writes = Depot::unpack(&d.crate_name, bytes, &d.dest).unwrap();
        all_writes.extend(writes);
    }

    let expect = [
        (dep1_name, "test1"),
        (dep2_name, "test2"),
        ("libdhltest-c000l0ff.rlib", "test5"),
        (dep3_name, "test3"),
        (dep4_name, "test4"),
        ("libdhltest_dash-d15ea5e.rlib", "test6"),
        ("libdhltest_underscore-deadbeef.rlib", "test7"),
    ];
    assert_eq!(all_writes.len(), expect.len());
    for (w, (name, data)) in all_writes.iter().zip(expect.iter()) {
        assert_eq!(
            segs(&w.path),
            vec!["example".to_string(), "deps".to_string(), name.to_string()]
        );
        assert_eq!(w.data, data.as_bytes());
    }
}

#[test]
fn unpack_flattens_nested_members() {
    let dest = path(true, &["deps", "libfoo-1234.rlib"]);
    let bytes = targz(&[
        ("some/nested/dir/libdep_a-1.rlib", "aaa"),
        ("other/libdep_b-2.rlib", "bbb"),
        ("deep/inside/export.rlib", "primary"),
    ]);
    let writes = Depot::unpack("foo", &bytes, &dest).unwrap();
    assert_eq!(writes.len(), 3);
    assert_eq!(segs(&writes[0].path), vec!["deps".to_string(), "libdep_a-1.rlib".to_string()]);
    assert_eq!(writes[0].data, b"aaa");
    assert_eq!(segs(&writes[1].path), vec!["deps".to_string(), "libdep_b-2.rlib".to_string()]);
    assert_eq!(writes[1].data, b"bbb");
    // The export member lands on the destination itself, wherever it sat
    // inside the archive.
    assert_eq!(segs(&writes[2].path), vec!["deps".to_string(), "libfoo-1234.rlib".to_string()]);
    assert_eq!(writes[2].data, b"primary");
}

#[test]
fn unpack_rejects_member_without_file_name() {
    let dest = path(true, &["deps", "libfoo-1234.rlib"]);
    let bytes = targz(&[("first.rlib", "x"), (".", "y")]);
    match Depot::unpack("foo", &bytes, &dest) {
        Err(dhl::ArchiveError::TarFileNameError(name, p)) => {
            assert_eq!(name, "foo");
            assert!(p == "." || p == "./");
        }
        _ => panic!("expected the missing-file-name error"),
    }
}

#[test]
fn unpack_rejects_bytes_that_are_not_gzip() {
    let dest = path(true, &["deps", "libfoo-1234.rlib"]);
    let bytes = vec![1u8, 2, 3, 4, 5];
    match Depot::unpack("foo", &bytes, &dest) {
        Err(dhl::ArchiveError::GzipError(name, _)) => assert_eq!(name, "foo"),
        _ => panic!("expected the gzip error"),
    }
}

#[test]
fn missing_library_file_aborts_delivery() {
    let base = path(true, &["example"]);
    let deps_dir = base.child("deps");
    let entries = vec![entry("libpresent-1.rlib", Some(1))];
    let (mut recipients, _) = Recipients::with_path(deps_dir, &base, &entries);

    let packages = Packages {
        packages: vec![
            ("present".to_string(), file_package(base.child("present.tar.gz"))),
            ("absent".to_string(), file_package(base.child("absent.tar.gz"))),
            ("present".to_string(), file_package(base.child("again.tar.gz"))),
        ],
    };
    let depot = Depot::new();
    match depot.deliver(&mut recipients, packages) {
        Err(DepotError::MissingLibraryFile(name)) => assert_eq!(name, "absent"),
        _ => panic!("expected the missing-library-file error"),
    }
}

#[test]
fn url_packages_are_planned_like_file_packages() {
    let base = path(true, &["example"]);
    let deps_dir = base.child("deps");
    let entries = vec![entry("libweb-abc123.rlib", Some(1))];
    let (mut recipients, _) = Recipients::with_path(deps_dir, &base, &entries);

    let url = reqwest::Url::parse("http://example.com/libweb.tar.gz").unwrap();
    let packages = Packages {
        packages: vec![(
            "web".to_string(),
            Package { version: None, data: PackageData::Url(dhl::UrlData { source: url }) },
        )],
    };
    let depot = Depot::new();
    let deliveries = depot.deliver(&mut recipients, packages).unwrap();
    assert_eq!(deliveries.len(), 1);
    assert_eq!(
        segs(&deliveries[0].dest),
        vec!["example".to_string(), "deps".to_string(), "libweb-abc123.rlib".to_string()]
    );
    match &deliveries[0].data {
        PackageData::Url(u) => assert_eq!(u.source.as_str(), "http://example.com/libweb.tar.gz"),
        _ => panic!("expected a URL source"),
    }
}

#[test]
fn delivery_announces_each_crate_once() {
    let base = path(true, &["example"]);
    let deps_dir = base.child("deps");
    let entries = vec![entry("libonce-1.rlib", Some(1))];
    let (mut recipients, _) = Recipients::with_path(deps_dir, &base, &entries);

    let packages = Packages {
        packages: vec![
            ("once".to_string(), file_package(base.child("a.tar.gz"))),
            ("once".to_string(), file_package(base.child("b.tar.gz"))),
        ],
    };
    let depot = Depot::new();
    let deliveries = depot.deliver(&mut recipients, packages).unwrap();
    assert_eq!(deliveries.len(), 2);
    assert!(deliveries[0].watch.is_some());
    assert!(deliveries[1].watch.is_none());
}
