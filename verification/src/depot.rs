//! Plans the delivery of archives onto resolved destinations.
//!
//! An archive is a gzip-compressed tar stream. Its member named `export.rlib`
//! replaces the placeholder file at the destination path itself; every other
//! member lands beside it in the deps directory under its own file name,
//! whatever nested path it had inside the archive. Decoding runs over bytes
//! held in memory; performing the resulting file writes is the caller's task.

use vstd::prelude::*;

use crate::manifest::{FileData, Package, PackageData, Packages, UrlData};
use crate::paths::{slash_segments, split_slash, string_eq, PathModel, SysPath};
use crate::recipients::{after_get, resolution_model, AddressModel, Recipients};

verus! {

/// Mathematical model of an [`ArchiveEntry`].
pub ghost struct ArchiveEntryModel {
    pub path: Seq<char>,
    pub data: Seq<u8>,
}

/// One member of a tar archive: its path inside the archive and its content.
pub struct ArchiveEntry {
    pub path: String,
    pub data: Vec<u8>,
}

impl View for ArchiveEntry {
    type V = ArchiveEntryModel;

    open spec fn view(&self) -> ArchiveEntryModel {
        ArchiveEntryModel { path: self.path@, data: self.data@ }
    }
}

impl DeepView for ArchiveEntry {
    type V = ArchiveEntryModel;

    open spec fn deep_view(&self) -> ArchiveEntryModel {
        self.view()
    }
}

/// What gzip decoding yields on a byte stream: the decompressed bytes, or
/// `None` where the stream is not a well-formed gzip stream.
pub uninterp spec fn gunzip(bytes: Seq<u8>) -> Option<Seq<u8>>;

/// What reading a tar stream yields: its members in order, each with its path
/// and content, or `None` where the stream is not a readable tar archive.
pub uninterp spec fn tar_members(bytes: Seq<u8>) -> Option<Seq<ArchiveEntryModel>>;

/// The members of a gzip-compressed tar archive.
pub open spec fn decoded_members(bytes: Seq<u8>) -> Option<Seq<ArchiveEntryModel>> {
    match gunzip(bytes) {
        None => None,
        Some(t) => tar_members(t),
    }
}

/// Relies on libflate's gzip decoder: decompressing a gzip stream held in
/// memory, a function of the bytes alone.
#[verifier::external_body]
fn gzip_decode(bytes: &Vec<u8>) -> (r: Result<Vec<u8>, String>)
    ensures
        match r {
            Ok(v) => gunzip(bytes@) == Some(v@),
            Err(_) => gunzip(bytes@) is None,
        },
{
    let mut dec = match libflate::gzip::Decoder::new(std::io::Cursor::new(bytes.as_slice())) {
        Ok(d) => d,
        Err(e) => return Err(format!("{}", e)),
    };
    let mut out = Vec::new();
    match std::io::Read::read_to_end(&mut dec, &mut out) {
        Ok(_) => Ok(out),
        Err(e) => Err(format!("{}", e)),
    }
}

/// How reading a tar stream can fail: the container itself is unreadable, or
/// a member's path does not decode.
enum TarFailure {
    Container(String),
    Path(String),
}

/// Relies on the tar crate's archive reader: listing the members of a tar
/// stream held in memory with their paths and contents, a function of the
/// bytes alone.
#[verifier::external_body]
fn tar_member_list(bytes: &Vec<u8>) -> (r: Result<Vec<ArchiveEntry>, TarFailure>)
    ensures
        match r {
            Ok(v) => tar_members(bytes@) == Some(v.deep_view()),
            Err(_) => tar_members(bytes@) is None,
        },
{
    let mut ar = tar::Archive::new(std::io::Cursor::new(bytes.as_slice()));
    let mut out: Vec<ArchiveEntry> = Vec::new();
    for m in ar.entries().map_err(|e| TarFailure::Container(e.to_string()))? {
        let mut m = m.map_err(|e| TarFailure::Container(e.to_string()))?;
        let path = m.path().map_err(|e| TarFailure::Path(e.to_string()))?.to_string_lossy().into_owned();
        let mut data = Vec::new();
        std::io::Read::read_to_end(&mut m, &mut data).map_err(|e| TarFailure::Container(e.to_string()))?;
        out.push(ArchiveEntry { path, data });
    }
    Ok(out)
}

/// The file name of an archive member's path: the last segment, looking past
/// trailing `.` segments; `None` when no segment remains or the last one is
/// a parent reference.
pub open spec fn entry_file_name(segments: Seq<Seq<char>>) -> Option<Seq<char>>
    decreases segments.len(),
{
    if segments.len() == 0 {
        None
    } else if segments.last() == "."@ {
        entry_file_name(segments.drop_last())
    } else if segments.last() == ".."@ {
        None
    } else {
        Some(segments.last())
    }
}

/// Where one archive member lands: the member named `export.rlib` on the
/// destination itself, every other member beside it under its own file name;
/// `None` where the member's path has no file name.
pub open spec fn planned_path(dest: PathModel, path: Seq<char>) -> Option<PathModel> {
    match entry_file_name(slash_segments(path)) {
        None => None,
        Some(f) => Some(
            if f == "export.rlib"@ {
                dest
            } else {
                PathModel { absolute: dest.absolute, segments: dest.segments.drop_last().push(f) }
            },
        ),
    }
}

/// Mathematical model of a [`FileWrite`].
pub ghost struct WriteModel {
    pub path: PathModel,
    pub data: Seq<u8>,
}

/// One planned filesystem write: the full content a path is to receive.
pub struct FileWrite {
    pub path: SysPath,
    pub data: Vec<u8>,
}

impl View for FileWrite {
    type V = WriteModel;

    open spec fn view(&self) -> WriteModel {
        WriteModel { path: self.path@, data: self.data@ }
    }
}

impl DeepView for FileWrite {
    type V = WriteModel;

    open spec fn deep_view(&self) -> WriteModel {
        self.view()
    }
}

/// The writes an archive's members produce, in archive order, or the first
/// member path without a file name.
pub open spec fn unpack_plan(dest: PathModel, members: Seq<ArchiveEntryModel>) -> Result<
    Seq<WriteModel>,
    Seq<char>,
>
    decreases members.len(),
{
    if members.len() == 0 {
        Ok(Seq::empty())
    } else {
        match unpack_plan(dest, members.drop_last()) {
            Err(p) => Err(p),
            Ok(ws) => match planned_path(dest, members.last().path) {
                None => Err(members.last().path),
                Some(pp) => Ok(ws.push(WriteModel { path: pp, data: members.last().data })),
            },
        }
    }
}

proof fn lemma_plan_prefix_err(dest: PathModel, members: Seq<ArchiveEntryModel>, m: int, p: Seq<char>)
    requires
        0 <= m <= members.len(),
        unpack_plan(dest, members.take(m)) == Err::<Seq<WriteModel>, Seq<char>>(p),
    ensures
        unpack_plan(dest, members) == Err::<Seq<WriteModel>, Seq<char>>(p),
    decreases members.len(),
{
    if m == members.len() {
        assert(members.take(m) =~= members);
    } else {
        assert(members.drop_last().take(m) =~= members.take(m));
        lemma_plan_prefix_err(dest, members.drop_last(), m, p);
    }
}

/// How decoding or redistributing an archive can fail; each variant carries
/// the crate name the delivery was for.
#[derive(Debug)]
pub enum ArchiveError {
    /// The gzip layer failed to decode; holds the error's text.
    GzipError(String, String),
    /// The tar container failed to decode; holds the error's text.
    TarError(String, String),
    /// A member's path failed to decode; holds the error's text.
    TarPathError(String, String),
    /// A member's path has no file name; holds that path.
    TarFileNameError(String, String),
}

/// The file name of an archive member path, as [`entry_file_name`] defines
/// it over the path's `/`-separated segments.
pub fn file_name_of(segments: &Vec<String>) -> (r: Option<String>)
    ensures
        r.deep_view() == entry_file_name(segments.deep_view()),
{
    let ghost dv = segments.deep_view();
    let mut j: usize = segments.len();
    proof {
        assert(dv.take(segments@.len() as int) =~= dv);
    }
    while j > 0
        invariant
            j <= segments@.len(),
            dv == segments.deep_view(),
            entry_file_name(dv) == entry_file_name(dv.take(j as int)),
        decreases j,
    {
        proof {
            assert(dv.take(j as int).last() == segments@[j - 1]@);
            assert(dv.take(j as int).drop_last() =~= dv.take(j as int - 1));
        }
        let seg = &segments[j - 1];
        if string_eq(seg, &".".to_owned()) {
            j = j - 1;
        } else if string_eq(seg, &"..".to_owned()) {
            return None;
        } else {
            return Some(seg.clone());
        }
    }
    proof {
        assert(dv.take(0) =~= Seq::<Seq<char>>::empty());
    }
    None
}

/// Copies a byte vector.
fn clone_bytes(v: &Vec<u8>) -> (r: Vec<u8>)
    ensures
        r@ == v@,
{
    let mut r: Vec<u8> = Vec::new();
    let mut i: usize = 0;
    while i < v.len()
        invariant
            i <= v@.len(),
            r@ == v@.take(i as int),
        decreases v@.len() - i,
    {
        r.push(v[i]);
        proof {
            assert(v@.take(i as int + 1) =~= v@.take(i as int).push(v@[i as int]));
        }
        i = i + 1;
    }
    proof {
        assert(v@.take(v@.len() as int) =~= v@);
    }
    r
}

/// How a delivery can fail; the variants carry the crate name the delivery
/// was for.
#[derive(Debug)]
pub enum DepotError {
    /// A file source could not be opened or read: the crate name, the source,
    /// and the error's text.
    FileError(String, FileData, String),
    /// The network client could not be built; holds the error's text. The
    /// client is built once, so one failure is shared by every URL delivery
    /// attempted after it.
    TlsError(String),
    /// A URL source could not be fetched: the crate name, the source, and the
    /// error's text.
    HttpError(String, UrlData, String),
    /// No placeholder file resolves for the crate name.
    MissingLibraryFile(String),
    /// The fetched archive failed to decode or redistribute.
    ArchiveError(ArchiveError),
}


/// Mathematical model of a [`Delivery`]: the crate name, the destination, and
/// the watch signal; the package data rides along unchanged.
pub ghost struct DeliveryModel {
    pub crate_name: Seq<char>,
    pub dest: PathModel,
    pub watch: Option<PathModel>,
}

/// One planned transfer: which crate, from which source, onto which resolved
/// destination, and the watch path to announce where this resolution was the
/// crate's first.
pub struct Delivery {
    pub crate_name: String,
    pub data: PackageData,
    pub dest: SysPath,
    pub watch: Option<SysPath>,
}

impl View for Delivery {
    type V = DeliveryModel;

    open spec fn view(&self) -> DeliveryModel {
        DeliveryModel {
            crate_name: self.crate_name@,
            dest: self.dest@,
            watch: self.watch.deep_view(),
        }
    }
}

impl DeepView for Delivery {
    type V = DeliveryModel;

    open spec fn deep_view(&self) -> DeliveryModel {
        self.view()
    }
}

/// The crate names of a package list, in order.
pub open spec fn names_of(pkgs: Seq<(String, Package)>) -> Seq<Seq<char>> {
    pkgs.map_values(|p: (String, Package)| p.0@)
}

/// What resolving a list of crate names in order does: the planned deliveries
/// and the index afterwards, or, at the first name with no placeholder, that
/// name and the index as the earlier resolutions left it.
pub open spec fn deliver_steps(
    index: Map<Seq<char>, AddressModel>,
    deps: PathModel,
    rel: Option<PathModel>,
    names: Seq<Seq<char>>,
) -> (Result<Seq<DeliveryModel>, Seq<char>>, Map<Seq<char>, AddressModel>)
    decreases names.len(),
{
    if names.len() == 0 {
        (Ok(Seq::empty()), index)
    } else {
        let (res, idx) = deliver_steps(index, deps, rel, names.drop_last());
        match res {
            Err(n) => (Err(n), idx),
            Ok(ds) => match resolution_model(idx, deps, rel, names.last()) {
                None => (Err(names.last()), idx),
                Some(rm) => (
                    Ok(
                        ds.push(
                            DeliveryModel {
                                crate_name: names.last(),
                                dest: rm.dest,
                                watch: rm.watch,
                            },
                        ),
                    ),
                    after_get(idx, names.last()),
                ),
            },
        }
    }
}

proof fn lemma_deliver_prefix_err(
    index: Map<Seq<char>, AddressModel>,
    deps: PathModel,
    rel: Option<PathModel>,
    names: Seq<Seq<char>>,
    m: int,
)
    requires
        0 <= m <= names.len(),
        deliver_steps(index, deps, rel, names.take(m)).0 is Err,
    ensures
        deliver_steps(index, deps, rel, names) == deliver_steps(index, deps, rel, names.take(m)),
    decreases names.len(),
{
    if m == names.len() {
        assert(names.take(m) =~= names);
    } else {
        assert(names.drop_last().take(m) =~= names.take(m));
        lemma_deliver_prefix_err(index, deps, rel, names.drop_last(), m);
    }
}

/// The delivery engine. Transfers are planned here; the caller performs the
/// reads and writes the plans call for.
pub struct Depot {}

impl Depot {
    /// A fresh delivery engine.
    pub fn new() -> Depot {
        Depot {}
    }

    /// Decodes a gzip-compressed tar archive held in memory and plans where
    /// each member's content lands: the member named `export.rlib` on the
    /// destination itself, every other member beside it under its own file
    /// name. Fails on the first undecodable layer or member path, naming the
    /// crate the delivery was for.
    pub fn unpack(crate_name: &str, archive: &Vec<u8>, dest: &SysPath) -> (r: Result<
        Vec<FileWrite>,
        ArchiveError,
    >)
        requires
            dest@.segments.len() > 0,
        ensures
            match r {
                Ok(ws) => (decoded_members(archive@) matches Some(ms) && unpack_plan(dest@, ms)
                    == Ok::<Seq<WriteModel>, Seq<char>>(ws.deep_view())),
                Err(e) => match e {
                    ArchiveError::GzipError(n, _) => n@ == crate_name@ && gunzip(archive@) is None,
                    ArchiveError::TarError(n, _) => n@ == crate_name@ && gunzip(archive@) is Some
                        && decoded_members(archive@) is None,
                    ArchiveError::TarPathError(n, _) => n@ == crate_name@ && gunzip(archive@)
                        is Some && decoded_members(archive@) is None,
                    ArchiveError::TarFileNameError(n, p) => n@ == crate_name@ && (decoded_members(
                        archive@,
                    ) matches Some(ms) && unpack_plan(dest@, ms) == Err::<
                        Seq<WriteModel>,
                        Seq<char>,
                    >(p@)),
                },
            },
    {
        let decoded = match gzip_decode(archive) {
            Ok(d) => d,
            Err(msg) => return Err(ArchiveError::GzipError(crate_name.to_owned(), msg)),
        };
        let members = match tar_member_list(&decoded) {
            Ok(ms) => ms,
            Err(TarFailure::Container(msg)) => {
                return Err(ArchiveError::TarError(crate_name.to_owned(), msg));
            },
            Err(TarFailure::Path(msg)) => {
                return Err(ArchiveError::TarPathError(crate_name.to_owned(), msg));
            },
        };
        let ghost ms = members.deep_view();
        let mut writes: Vec<FileWrite> = Vec::new();
        let mut i: usize = 0;
        proof {
            assert(ms.take(0) =~= Seq::<ArchiveEntryModel>::empty());
            assert(writes.deep_view() =~= Seq::<WriteModel>::empty());
        }
        while i < members.len()
            invariant
                i <= members@.len(),
                ms == members.deep_view(),
                dest@.segments.len() > 0,
                decoded_members(archive@) == Some(ms),
                unpack_plan(dest@, ms.take(i as int)) == Ok::<Seq<WriteModel>, Seq<char>>(
                    writes.deep_view(),
                ),
            decreases members@.len() - i,
        {
            let ghost wv = writes.deep_view();
            proof {
                assert(ms.take(i as int + 1).drop_last() =~= ms.take(i as int));
                assert(ms.take(i as int + 1).last() == ms[i as int]);
                assert(ms[i as int] == members@[i as int]@);
            }
            let member = &members[i];
            let segments = split_slash(member.path.as_str());
            match file_name_of(&segments) {
                None => {
                    proof {
                        lemma_plan_prefix_err(dest@, ms, i as int + 1, ms[i as int].path);
                    }
                    return Err(
                        ArchiveError::TarFileNameError(crate_name.to_owned(), member.path.clone()),
                    );
                },
                Some(f) => {
                    let target = if string_eq(&f, &"export.rlib".to_owned()) {
                        dest.clone()
                    } else {
                        dest.with_file_name(f.as_str())
                    };
                    writes.push(FileWrite { path: target, data: clone_bytes(&member.data) });
                    proof {
                        assert(writes.deep_view() =~= wv.push(
                            WriteModel {
                                path: planned_path(dest@, ms[i as int].path).unwrap(),
                                data: ms[i as int].data,
                            },
                        )) by {
                            assert forall|q: int|
                                0 <= q < writes@.len() implies #[trigger] writes.deep_view()[q]
                                == wv.push(
                                WriteModel {
                                    path: planned_path(dest@, ms[i as int].path).unwrap(),
                                    data: ms[i as int].data,
                                },
                            )[q] by {
                                if q < wv.len() {
                                    assert(writes.deep_view()[q] == wv[q]);
                                }
                            }
                        }
                    }
                },
            }
            i = i + 1;
        }
        proof {
            assert(ms.take(members@.len() as int) =~= ms);
        }
        Ok(writes)
    }

    /// Resolves every package's crate name to its placeholder's destination,
    /// in list order, marking each resolved address watched. Stops at the
    /// first crate name with no placeholder: that name comes back as a
    /// missing-library-file error, the packages before it stay resolved, and
    /// nothing is planned for it or the names after it.
    pub fn deliver(&self, recipients: &mut Recipients, packages: Packages) -> (r: Result<
        Vec<Delivery>,
        DepotError,
    >)
        requires
            old(recipients).wf(),
        ensures
            final(recipients).wf(),
            final(recipients).deps_dir_spec() == old(recipients).deps_dir_spec(),
            final(recipients).relative_spec() == old(recipients).relative_spec(),
            ({
                let (res, idx) = deliver_steps(
                    old(recipients).index(),
                    old(recipients).deps_dir_spec(),
                    old(recipients).relative_spec(),
                    names_of(packages.packages@),
                );
                &&& final(recipients).index() == idx
                &&& match r {
                    Ok(ds) => (res matches Ok(dms) && ds.deep_view() == dms && ds@.len()
                        == packages.packages@.len() && forall|j: int|
                        0 <= j < ds@.len() ==> (#[trigger] ds@[j]).data
                            == packages.packages@[j].1.data),
                    Err(e) => (res matches Err(n) && match e {
                        DepotError::MissingLibraryFile(nm) => nm@ == n,
                        _ => false,
                    }),
                }
            }),
    {
        let ghost all = packages.packages@;
        let ghost deps0 = old(recipients).deps_dir_spec();
        let ghost rel0 = old(recipients).relative_spec();
        let ghost index0 = old(recipients).index();
        let Packages { packages: mut rest } = packages;
        let mut out: Vec<Delivery> = Vec::new();
        let mut i: usize = 0;
        proof {
            assert(all.skip(0) =~= all);
            assert(names_of(all.take(0)) =~= Seq::<Seq<char>>::empty());
            assert(out.deep_view() =~= Seq::<DeliveryModel>::empty());
            assert(rest@.len() == rest.len());
        }
        while rest.len() > 0
            invariant
                all == packages.packages@,
                i + rest@.len() == all.len(),
                i + rest@.len() <= usize::MAX,
                rest@ == all.skip(i as int),
                recipients.wf(),
                deps0 == old(recipients).deps_dir_spec(),
                rel0 == old(recipients).relative_spec(),
                index0 == old(recipients).index(),
                recipients.deps_dir_spec() == deps0,
                recipients.relative_spec() == rel0,
                out@.len() == i,
                forall|j: int| 0 <= j < i ==> (#[trigger] out@[j]).data == all[j].1.data,
                ({
                    let (res, idx) = deliver_steps(index0, deps0, rel0, names_of(
                        all.take(i as int),
                    ));
                    &&& res == Ok::<Seq<DeliveryModel>, Seq<char>>(out.deep_view())
                    &&& recipients.index() == idx
                }),
            decreases rest@.len(),
        {
            let ghost pre_out = out.deep_view();
            let ghost step_names = names_of(all.take(i as int + 1));
            proof {
                assert(rest@[0] == all[i as int]);
                assert(step_names.drop_last() =~= names_of(all.take(i as int)));
                assert(step_names.last() == all[i as int].0@);
            }
            let (name, package) = rest.remove(0);
            proof {
                assert(rest@ =~= all.skip(i as int + 1));
            }
            match recipients.get(name.as_str()) {
                None => {
                    proof {
                        let pre_idx = deliver_steps(
                            index0,
                            deps0,
                            rel0,
                            names_of(all.take(i as int)),
                        ).1;
                        assert(resolution_model(pre_idx, deps0, rel0, name@) is None);
                        assert(after_get(pre_idx, name@) == pre_idx);
                        assert(deliver_steps(index0, deps0, rel0, step_names).0 == Err::<
                            Seq<DeliveryModel>,
                            Seq<char>,
                        >(name@));
                        assert(deliver_steps(index0, deps0, rel0, step_names).1 == pre_idx);
                        assert(recipients.index() == pre_idx);
                        assert(names_of(all).take(i as int + 1) =~= step_names);
                        lemma_deliver_prefix_err(index0, deps0, rel0, names_of(all), i as int + 1);
                    }
                    return Err(DepotError::MissingLibraryFile(name));
                },
                Some(found) => {
                    out.push(
                        Delivery {
                            crate_name: name,
                            data: package.data,
                            dest: found.dest,
                            watch: found.watch,
                        },
                    );
                    proof {
                        assert(out.deep_view() =~= pre_out.push(out@.last()@)) by {
                            assert forall|q: int|
                                0 <= q < out@.len() implies #[trigger] out.deep_view()[q]
                                == pre_out.push(out@.last()@)[q] by {
                                if q < pre_out.len() {
                                    assert(out.deep_view()[q] == pre_out[q]);
                                }
                            }
                        }
                    }
                },
            }
            i = i + 1;
        }
        proof {
            assert(all.take(all.len() as int) =~= all);
        }
        Ok(out)
    }
}

} // verus!
