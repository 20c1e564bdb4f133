//! Indexes the placeholder artifact files found in a `deps` directory by a
//! normalized crate name and resolves crate names to delivery destinations.
//!
//! The index is built once from a directory snapshot. File names must match
//! the placeholder pattern `lib<NAME>-<HASH>.rlib`; on a key collision the
//! holder survives only when both modification times are known and its own is
//! at least as great — an unknown time counts the incoming file as newer — and
//! a diagnostic note records the outcome. Each address carries a `watched` flag
//! that flips to true on its first successful resolution, which is the one
//! moment a change-tracking signal is handed to the caller.

use vstd::prelude::*;

use crate::normalize_name;
use crate::paths::{PathModel, SysPath};

verus! {

/// Placeholder file names start with this prefix.
pub open spec fn has_placeholder_prefix(s: Seq<char>) -> bool {
    s.len() >= 3 && s.take(3) == "lib"@
}

/// Placeholder file names end with this extension.
pub open spec fn has_placeholder_ext(rest: Seq<char>) -> bool {
    rest.len() >= 5 && rest.skip(rest.len() - 5) == ".rlib"@
}

/// The characters before the first hyphen, or `None` when no hyphen occurs.
pub open spec fn prefix_before_dash(s: Seq<char>) -> Option<Seq<char>>
    decreases s.len(),
{
    if s.len() == 0 {
        None
    } else if s[0] == '-' {
        Some(Seq::empty())
    } else {
        match prefix_before_dash(s.skip(1)) {
            None => None,
            Some(t) => Some(seq![s[0]] + t),
        }
    }
}

/// The index key encoded in a placeholder file name `lib<NAME>-<HASH>.rlib`:
/// `Some(<NAME>)` when the name carries the prefix, the extension and the
/// separating hyphen, `None` otherwise.
pub open spec fn placeholder_key(s: Seq<char>) -> Option<Seq<char>> {
    if has_placeholder_prefix(s) {
        let rest = s.skip(3);
        if has_placeholder_ext(rest) {
            prefix_before_dash(rest)
        } else {
            None
        }
    } else {
        None
    }
}

proof fn lemma_no_dash(s: Seq<char>)
    requires
        forall|k: int| 0 <= k < s.len() ==> s[k] != '-',
    ensures
        prefix_before_dash(s) is None,
    decreases s.len(),
{
    if s.len() > 0 {
        lemma_no_dash(s.skip(1));
    }
}

proof fn lemma_first_dash(s: Seq<char>, m: int)
    requires
        0 <= m < s.len(),
        s[m] == '-',
        forall|k: int| 0 <= k < m ==> s[k] != '-',
    ensures
        prefix_before_dash(s) == Some(s.take(m)),
    decreases m,
{
    if m == 0 {
        assert(s.take(0) =~= Seq::<char>::empty());
    } else {
        lemma_first_dash(s.skip(1), m - 1);
        assert(s.take(m) =~= seq![s[0]] + s.skip(1).take(m - 1));
    }
}

/// Extracts the index key from a directory entry's file name, accepting only
/// names of the placeholder form `lib<NAME>-<HASH>.rlib`.
pub fn parse_placeholder(file_name: &str) -> (r: Option<String>)
    ensures
        r.deep_view() == placeholder_key(file_name@),
{
    let len = file_name.unicode_len();
    let prefix_ok = len >= 3 && file_name.get_char(0) == 'l' && file_name.get_char(1) == 'i'
        && file_name.get_char(2) == 'b';
    proof {
        reveal_strlit("lib");
        assert("lib"@.len() == 3 && "lib"@[0] == 'l' && "lib"@[1] == 'i' && "lib"@[2] == 'b');
        if len >= 3 {
            let head = file_name@.take(3);
            assert(head[0] == file_name@[0] && head[1] == file_name@[1] && head[2]
                == file_name@[2]);
            if prefix_ok {
                assert(head =~= "lib"@);
            }
        }
        assert(prefix_ok == has_placeholder_prefix(file_name@));
    }
    if !prefix_ok {
        return None;
    }
    // The remainder after the prefix must carry the extension.
    let ext_ok = len >= 8 && file_name.get_char(len - 5) == '.' && file_name.get_char(len - 4)
        == 'r' && file_name.get_char(len - 3) == 'l' && file_name.get_char(len - 2) == 'i'
        && file_name.get_char(len - 1) == 'b';
    proof {
        reveal_strlit(".rlib");
        assert(".rlib"@.len() == 5 && ".rlib"@[0] == '.' && ".rlib"@[1] == 'r' && ".rlib"@[2]
            == 'l' && ".rlib"@[3] == 'i' && ".rlib"@[4] == 'b');
        let rest = file_name@.skip(3);
        if len >= 8 {
            let tail = rest.skip(rest.len() - 5);
            assert(tail.len() == 5);
            assert(tail[0] == file_name@[len - 5] && tail[1] == file_name@[len - 4] && tail[2]
                == file_name@[len - 3] && tail[3] == file_name@[len - 2] && tail[4]
                == file_name@[len - 1]);
            if ext_ok {
                assert(tail =~= ".rlib"@);
            } else {
                assert(tail == ".rlib"@ ==> tail[0] == '.' && tail[1] == 'r' && tail[2] == 'l'
                    && tail[3] == 'i' && tail[4] == 'b');
            }
        } else {
            assert(rest.len() < 5);
        }
        assert(ext_ok == has_placeholder_ext(rest));
    }
    if !ext_ok {
        return None;
    }
    // Take the name up to the first hyphen after the prefix.
    let mut i: usize = 3;
    while i < len
        invariant
            3 <= i <= len,
            len == file_name@.len(),
            has_placeholder_prefix(file_name@),
            has_placeholder_ext(file_name@.skip(3)),
            forall|k: int| 3 <= k < i ==> file_name@[k] != '-',
        decreases len - i,
    {
        if file_name.get_char(i) == '-' {
            let name = file_name.substring_char(3, i);
            proof {
                let rest = file_name@.skip(3);
                assert(forall|k: int| 0 <= k < i - 3 ==> #[trigger] rest[k] == file_name@[k + 3]);
                lemma_first_dash(rest, i - 3);
                assert(rest.take(i - 3) =~= file_name@.subrange(3, i as int));
            }
            return Some(name.to_owned());
        }
        i = i + 1;
    }
    proof {
        let rest = file_name@.skip(3);
        assert(forall|k: int| 0 <= k < rest.len() ==> #[trigger] rest[k] == file_name@[k + 3]);
        lemma_no_dash(rest);
    }
    None
}


/// Mathematical model of an [`Address`].
pub ghost struct AddressModel {
    pub file_name: Seq<char>,
    pub last_modified: Option<u64>,
    pub watched: bool,
}

/// What the index stores on each placeholder file: its raw file name, its
/// modification time where the filesystem reported one, and whether its first
/// resolution has already been signalled.
pub struct Address {
    pub file_name: String,
    pub last_modified: Option<u64>,
    pub watched: bool,
}

impl View for Address {
    type V = AddressModel;

    open spec fn view(&self) -> AddressModel {
        AddressModel {
            file_name: self.file_name@,
            last_modified: self.last_modified,
            watched: self.watched,
        }
    }
}

impl Address {
    /// A freshly discovered placeholder file: not yet watched.
    pub fn new(file_name: String, last_modified: Option<u64>) -> (r: Address)
        ensures
            r@ == (AddressModel { file_name: file_name@, last_modified, watched: false }),
    {
        Address { file_name, last_modified, watched: false }
    }

    /// The collision policy: this address survives against an incoming one
    /// only when both timestamps are known and its own is greater or equal.
    /// An unknown timestamp on either side counts the incoming file as newer.
    pub fn is_newer(&self, other: &Address) -> (r: bool)
        ensures
            r == holder_survives(self@, other@),
    {
        match (&self.last_modified, &other.last_modified) {
            (Some(a), Some(b)) => *a >= *b,
            _ => false,
        }
    }

    /// Marks the address as watched; true exactly on the first call.
    pub fn watch(&mut self) -> (r: bool)
        ensures
            final(self)@ == (AddressModel { watched: true, ..old(self)@ }),
            r == !old(self).watched,
    {
        let was = self.watched;
        self.watched = true;
        !was
    }
}

/// The collision policy on models; see [`Address::is_newer`].
pub open spec fn holder_survives(holder: AddressModel, incoming: AddressModel) -> bool {
    match (holder.last_modified, incoming.last_modified) {
        (Some(x), Some(y)) => x >= y,
        _ => false,
    }
}

/// One entry of a directory snapshot: the entry's file name, or `None` where
/// it does not decode as text, and its modification time where known.
pub struct DirEntry {
    pub name: Option<String>,
    pub modified: Option<u64>,
}

/// The index key a snapshot entry contributes, if any: entries without a
/// decodable name and names outside the placeholder pattern contribute none.
pub open spec fn key_of(e: DirEntry) -> Option<Seq<char>> {
    match e.name {
        Some(n) => placeholder_key(n@),
        None => None,
    }
}

/// The address a snapshot entry is recorded under.
pub open spec fn address_of(e: DirEntry) -> AddressModel {
    match e.name {
        Some(n) => AddressModel { file_name: n@, last_modified: e.modified, watched: false },
        None => AddressModel { file_name: Seq::empty(), last_modified: e.modified, watched: false },
    }
}

/// The index a directory snapshot produces: entries are folded in order, and
/// on a key collision the holder survives when it counts as at least as new.
pub open spec fn scan_index(entries: Seq<DirEntry>) -> Map<Seq<char>, AddressModel>
    decreases entries.len(),
{
    if entries.len() == 0 {
        Map::empty()
    } else {
        let m = scan_index(entries.drop_last());
        match key_of(entries.last()) {
            None => m,
            Some(k) => {
                let a = address_of(entries.last());
                if m.dom().contains(k) && holder_survives(m[k], a) {
                    m
                } else {
                    m.insert(k, a)
                }
            },
        }
    }
}

/// Mathematical model of a [`CollisionNote`].
pub ghost struct NoteModel {
    pub name: Seq<char>,
    pub survivor: Seq<char>,
    pub discarded: Seq<char>,
    pub replaced: bool,
}

/// A diagnostic record of one key collision during the directory scan:
/// which file survives under the key, which was discarded, and whether the
/// holder was replaced by the newcomer.
#[derive(Debug)]
pub struct CollisionNote {
    pub name: String,
    pub survivor: String,
    pub discarded: String,
    pub replaced: bool,
}

impl View for CollisionNote {
    type V = NoteModel;

    open spec fn view(&self) -> NoteModel {
        NoteModel {
            name: self.name@,
            survivor: self.survivor@,
            discarded: self.discarded@,
            replaced: self.replaced,
        }
    }
}

impl DeepView for CollisionNote {
    type V = NoteModel;

    open spec fn deep_view(&self) -> NoteModel {
        self.view()
    }
}

/// The note one collision produces, given the holding and the incoming
/// address.
pub open spec fn note_of(k: Seq<char>, holder: AddressModel, incoming: AddressModel) -> NoteModel {
    if holder_survives(holder, incoming) {
        NoteModel {
            name: k,
            survivor: holder.file_name,
            discarded: incoming.file_name,
            replaced: false,
        }
    } else {
        NoteModel {
            name: k,
            survivor: incoming.file_name,
            discarded: holder.file_name,
            replaced: true,
        }
    }
}

/// The diagnostics a directory snapshot produces, one per collision, in scan
/// order.
pub open spec fn scan_notes(entries: Seq<DirEntry>) -> Seq<NoteModel>
    decreases entries.len(),
{
    if entries.len() == 0 {
        Seq::empty()
    } else {
        let ns = scan_notes(entries.drop_last());
        let m = scan_index(entries.drop_last());
        match key_of(entries.last()) {
            None => ns,
            Some(k) => {
                if m.dom().contains(k) {
                    ns.push(note_of(k, m[k], address_of(entries.last())))
                } else {
                    ns
                }
            },
        }
    }
}

/// The key-address pairs an index vector stands for.
pub open spec fn pairs_model(s: Seq<(String, Address)>) -> Seq<(Seq<char>, AddressModel)> {
    s.map_values(|p: (String, Address)| (p.0@, p.1@))
}

/// No two pairs share a key.
pub open spec fn unique_keys(s: Seq<(Seq<char>, AddressModel)>) -> bool {
    forall|i: int, j: int| 0 <= i < j < s.len() ==> s[i].0 != s[j].0
}

/// The finite map an association list stands for; later pairs win.
pub open spec fn map_of(s: Seq<(Seq<char>, AddressModel)>) -> Map<Seq<char>, AddressModel>
    decreases s.len(),
{
    if s.len() == 0 {
        Map::empty()
    } else {
        map_of(s.drop_last()).insert(s.last().0, s.last().1)
    }
}

proof fn lemma_map_of_absent(s: Seq<(Seq<char>, AddressModel)>, k: Seq<char>)
    requires
        forall|i: int| 0 <= i < s.len() ==> (#[trigger] s[i]).0 != k,
    ensures
        !map_of(s).dom().contains(k),
    decreases s.len(),
{
    if s.len() > 0 {
        lemma_map_of_absent(s.drop_last(), k);
    }
}

proof fn lemma_map_of_present(s: Seq<(Seq<char>, AddressModel)>, i: int)
    requires
        unique_keys(s),
        0 <= i < s.len(),
    ensures
        map_of(s).dom().contains(s[i].0),
        map_of(s)[s[i].0] == s[i].1,
    decreases s.len(),
{
    if i < s.len() - 1 {
        lemma_map_of_present(s.drop_last(), i);
        assert(s.drop_last()[i] == s[i]);
        assert(s[i].0 != s.last().0);
    }
}

proof fn lemma_map_of_update(s: Seq<(Seq<char>, AddressModel)>, i: int, a: AddressModel)
    requires
        unique_keys(s),
        0 <= i < s.len(),
    ensures
        map_of(s.update(i, (s[i].0, a))) == map_of(s).insert(s[i].0, a),
    decreases s.len(),
{
    let t = s.update(i, (s[i].0, a));
    if i == s.len() - 1 {
        assert(t.drop_last() =~= s.drop_last());
        assert(map_of(t) =~= map_of(s).insert(s[i].0, a));
    } else {
        assert(t.drop_last() =~= s.drop_last().update(i, (s[i].0, a)));
        assert(s.drop_last()[i] == s[i]);
        lemma_map_of_update(s.drop_last(), i, a);
        assert(s[i].0 != s.last().0);
        assert(map_of(t) =~= map_of(s).insert(s[i].0, a));
    }
}

/// Why a recipients index could not be set up.
#[derive(Debug)]
pub enum RecipientsError {
    /// A required environment value was missing; holds the variable's name.
    EnvError(String),
    /// The output directory has fewer than three ancestors, so no deps
    /// directory can be derived from it.
    InvalidOutDir(SysPath),
}

/// The deps directory an output directory determines: its third ancestor with
/// a fixed `deps` segment appended.
pub open spec fn deps_dir_of(out_dir: PathModel) -> PathModel {
    PathModel {
        absolute: out_dir.absolute,
        segments: out_dir.segments.take(out_dir.segments.len() - 3).push("deps"@),
    }
}

/// The deps directory expressed relative to the manifest directory, if the
/// former lies below the latter.
pub open spec fn relative_of(deps: PathModel, manifest: PathModel) -> Option<PathModel> {
    if deps.absolute == manifest.absolute && manifest.segments.is_prefix_of(deps.segments) {
        Some(
            PathModel {
                absolute: false,
                segments: deps.segments.skip(manifest.segments.len() as int),
            },
        )
    } else {
        None
    }
}

/// The destination a crate name resolves to under an index: the deps
/// directory extended by the surviving placeholder's file name.
pub open spec fn resolved_dest(
    index: Map<Seq<char>, AddressModel>,
    deps: PathModel,
    name: Seq<char>,
) -> Option<PathModel> {
    let k = normalize_name(name);
    if index.dom().contains(k) {
        Some(
            PathModel {
                absolute: deps.absolute,
                segments: deps.segments.push(index[k].file_name),
            },
        )
    } else {
        None
    }
}

/// The change-tracking signal a resolution emits: the watch path, present
/// exactly when the name resolves and its address is not yet watched. The
/// path is relative to the manifest directory where that form exists, else
/// the absolute destination.
pub open spec fn watch_signal(
    index: Map<Seq<char>, AddressModel>,
    deps: PathModel,
    rel: Option<PathModel>,
    name: Seq<char>,
) -> Option<PathModel> {
    let k = normalize_name(name);
    if index.dom().contains(k) && !index[k].watched {
        let file = index[k].file_name;
        Some(
            match rel {
                Some(rd) => PathModel { absolute: rd.absolute, segments: rd.segments.push(file) },
                None => PathModel { absolute: deps.absolute, segments: deps.segments.push(file) },
            },
        )
    } else {
        None
    }
}

/// The index after a resolution: the surviving address of a resolved name is
/// marked watched; an unresolved name changes nothing.
pub open spec fn after_get(index: Map<Seq<char>, AddressModel>, name: Seq<char>) -> Map<
    Seq<char>,
    AddressModel,
> {
    let k = normalize_name(name);
    if index.dom().contains(k) {
        index.insert(k, AddressModel { watched: true, ..index[k] })
    } else {
        index
    }
}

/// Mathematical model of a [`Resolution`].
pub ghost struct ResolutionModel {
    pub dest: PathModel,
    pub watch: Option<PathModel>,
}

/// What one successful resolution hands back: the destination path, and the
/// watch path when this was the name's first resolution.
pub struct Resolution {
    pub dest: SysPath,
    pub watch: Option<SysPath>,
}

impl View for Resolution {
    type V = ResolutionModel;

    open spec fn view(&self) -> ResolutionModel {
        ResolutionModel { dest: self.dest@, watch: self.watch.deep_view() }
    }
}

impl DeepView for Resolution {
    type V = ResolutionModel;

    open spec fn deep_view(&self) -> ResolutionModel {
        self.view()
    }
}

/// What a resolution returns, as a function of the index it runs against.
pub open spec fn resolution_model(
    index: Map<Seq<char>, AddressModel>,
    deps: PathModel,
    rel: Option<PathModel>,
    name: Seq<char>,
) -> Option<ResolutionModel> {
    match resolved_dest(index, deps, name) {
        None => None,
        Some(d) => Some(ResolutionModel { dest: d, watch: watch_signal(index, deps, rel, name) }),
    }
}

/// The index of placeholder files in one deps directory, built once from a
/// directory snapshot. Immutable afterwards except for the per-address
/// watched flags.
pub struct Recipients {
    deps_dir: SysPath,
    relative_deps_dir: Option<SysPath>,
    addresses: Vec<(String, Address)>,
}

impl Recipients {
    /// The deps directory this index delivers into.
    pub closed spec fn deps_dir_spec(&self) -> PathModel {
        self.deps_dir@
    }

    /// The deps directory relative to the manifest directory, where it lies
    /// below it.
    pub closed spec fn relative_spec(&self) -> Option<PathModel> {
        self.relative_deps_dir.deep_view()
    }

    /// The name-to-address index.
    pub closed spec fn index(&self) -> Map<Seq<char>, AddressModel> {
        map_of(pairs_model(self.addresses@))
    }

    /// The internal index vector holds each key at most once.
    pub closed spec fn wf(&self) -> bool {
        unique_keys(pairs_model(self.addresses@))
    }

    /// Derives the deps directory from an output directory: its third
    /// ancestor joined with `deps`. Fails when fewer than three ancestors
    /// exist.
    pub fn get_deps_dir(out_dir: &SysPath) -> (r: Result<SysPath, RecipientsError>)
        ensures
            match r {
                Ok(d) => out_dir@.segments.len() >= 3 && d@ == deps_dir_of(out_dir@),
                Err(e) => out_dir@.segments.len() < 3 && match e {
                    RecipientsError::InvalidOutDir(p) => p@ == out_dir@,
                    _ => false,
                },
            },
    {
        if out_dir.segments.len() < 3 {
            return Err(RecipientsError::InvalidOutDir(out_dir.clone()));
        }
        let mut d = out_dir.clone();
        let ghost base = d.segments@;
        let ghost base_view = d.segments.deep_view();
        proof {
            assert(base_view == out_dir@.segments);
            assert(base.len() == base_view.len());
        }
        let keep = d.segments.len() - 3;
        d.segments.truncate(keep);
        d.segments.push("deps".to_owned());
        proof {
            assert forall|k: int|
                0 <= k < d.segments@.len() implies #[trigger] d.segments.deep_view()[k]
                == deps_dir_of(out_dir@).segments[k] by {
                if k < keep {
                    assert(d.segments@[k] == base.subrange(0, keep as int)[k]);
                    assert(base_view[k] == base[k]@);
                }
            }
            assert(d.segments.deep_view() =~= deps_dir_of(out_dir@).segments);
        }
        Ok(d)
    }

    /// Builds the index from a snapshot of the deps directory's entries.
    /// Entries outside the placeholder pattern are skipped; on a key
    /// collision the address with the greater-or-unknown modification time
    /// survives, and one diagnostic note per collision is returned beside the
    /// index.
    pub fn with_path(deps_dir: SysPath, manifest_dir: &SysPath, entries: &Vec<DirEntry>) -> (r: (
        Recipients,
        Vec<CollisionNote>,
    ))
        ensures
            r.0.wf(),
            r.0.deps_dir_spec() == deps_dir@,
            r.0.relative_spec() == relative_of(deps_dir@, manifest_dir@),
            r.0.index() == scan_index(entries@),
            r.1.deep_view() == scan_notes(entries@),
    {
        let relative_deps_dir = deps_dir.strip_prefix(manifest_dir);
        let mut addresses: Vec<(String, Address)> = Vec::new();
        let mut notes: Vec<CollisionNote> = Vec::new();
        let mut i: usize = 0;
        while i < entries.len()
            invariant
                i <= entries@.len(),
                unique_keys(pairs_model(addresses@)),
                map_of(pairs_model(addresses@)) == scan_index(entries@.take(i as int)),
                notes.deep_view() == scan_notes(entries@.take(i as int)),
            decreases entries@.len() - i,
        {
            let ghost prefix = entries@.take(i as int);
            let ghost step = entries@.take(i as int + 1);
            let ghost m = scan_index(prefix);
            let ghost ns = scan_notes(prefix);
            proof {
                assert(step.drop_last() =~= prefix);
                assert(step.last() == entries@[i as int]);
                assert(scan_index(step.drop_last()) == m);
                assert(scan_notes(step.drop_last()) == ns);
            }
            let entry = &entries[i];
            let parsed = match &entry.name {
                Some(n) => parse_placeholder(n.as_str()),
                None => None,
            };
            match parsed {
                None => {
                    proof {
                        assert(key_of(entries@[i as int]) is None);
                        assert(scan_index(step) == m);
                        assert(scan_notes(step) == ns);
                    }
                },
                Some(key) => {
                    let ghost k = key@;
                    proof {
                        assert(key_of(entries@[i as int]) == Some(k));
                    }
                    let file_name = match &entry.name {
                        Some(n) => n.clone(),
                        None => String::new(),
                    };
                    let incoming = Address::new(file_name, entry.modified);
                    let ghost a = incoming@;
                    proof {
                        assert(a == address_of(entries@[i as int]));
                    }
                    let ghost before = pairs_model(addresses@);
                    match position_of(&addresses, &key) {
                        None => {
                            proof {
                                lemma_map_of_absent(before, k);
                                assert(!m.dom().contains(k));
                                assert(scan_index(step) == m.insert(k, a));
                                assert(scan_notes(step) == ns);
                            }
                            addresses.push((key, incoming));
                            proof {
                                let after = pairs_model(addresses@);
                                assert(after =~= before.push((k, a)));
                                assert(after.drop_last() =~= before);
                                assert(after.last() == (k, a));
                                assert(map_of(after) == map_of(before).insert(k, a));
                                assert(unique_keys(after)) by {
                                    assert(forall|j: int|
                                        0 <= j < before.len() ==> (#[trigger] before[j]).0 != k);
                                    assert(forall|j: int|
                                        0 <= j < before.len() ==> after[j] == before[j]);
                                }
                            }
                        },
                        Some(p) => {
                            proof {
                                lemma_map_of_present(before, p as int);
                                assert(before[p as int] == (
                                    addresses@[p as int].0@,
                                    addresses@[p as int].1@,
                                ));
                                assert(m.dom().contains(k));
                                assert(m[k] == addresses@[p as int].1@);
                            }
                            let keep_holder = addresses[p].1.is_newer(&incoming);
                            let holder_name = addresses[p].1.file_name.clone();
                            if keep_holder {
                                proof {
                                    assert(holder_survives(m[k], a));
                                    assert(scan_index(step) == m);
                                }
                                let note = CollisionNote {
                                    name: key,
                                    survivor: holder_name,
                                    discarded: incoming.file_name,
                                    replaced: false,
                                };
                                proof {
                                    assert(note@ == note_of(k, m[k], a));
                                }
                                notes.push(note);
                                proof {
                                    assert(scan_notes(step) == ns.push(note_of(k, m[k], a)));
                                }
                            } else {
                                proof {
                                    assert(!holder_survives(m[k], a));
                                    assert(scan_index(step) == m.insert(k, a));
                                }
                                let note = CollisionNote {
                                    name: key.clone(),
                                    survivor: incoming.file_name.clone(),
                                    discarded: holder_name,
                                    replaced: true,
                                };
                                proof {
                                    assert(note@ == note_of(k, m[k], a));
                                }
                                notes.push(note);
                                proof {
                                    assert(scan_notes(step) == ns.push(note_of(k, m[k], a)));
                                }
                                let _ = addresses.remove(p);
                                addresses.insert(p, (key, incoming));
                                proof {
                                    let after = pairs_model(addresses@);
                                    assert(after =~= before.update(p as int, (k, a)));
                                    lemma_map_of_update(before, p as int, a);
                                    assert(map_of(after) == map_of(before).insert(k, a));
                                    assert(unique_keys(after)) by {
                                        assert(forall|j: int|
                                            0 <= j < after.len() && j != p ==> (#[trigger] after[j])
                                                == before[j]);
                                        assert(after[p as int].0 == before[p as int].0);
                                    }
                                }
                            }
                        },
                    }
                },
            }
            proof {
                assert(map_of(pairs_model(addresses@)) == scan_index(step));
                assert(notes.deep_view() =~= scan_notes(step)) by {
                    assert forall|q: int|
                        0 <= q < notes@.len() implies #[trigger] notes.deep_view()[q] == scan_notes(
                        step,
                    )[q] by {
                        if q < ns.len() {
                            assert(notes.deep_view()[q] == ns[q]);
                        }
                    }
                }
            }
            i = i + 1;
        }
        proof {
            assert(entries@.take(entries@.len() as int) =~= entries@);
        }
        (Recipients { deps_dir, relative_deps_dir, addresses }, notes)
    }

    /// Resolves a crate name to the destination path of its placeholder file.
    /// On the first resolution of a name the result carries the watch path to
    /// announce; later resolutions of the same name stay silent. The exclusive
    /// reference makes the watched transition a race-free check-and-set.
    pub fn get(&mut self, name: &str) -> (r: Option<Resolution>)
        requires
            old(self).wf(),
        ensures
            final(self).wf(),
            final(self).deps_dir_spec() == old(self).deps_dir_spec(),
            final(self).relative_spec() == old(self).relative_spec(),
            final(self).index() == after_get(old(self).index(), name@),
            r.deep_view() == resolution_model(
                old(self).index(),
                old(self).deps_dir_spec(),
                old(self).relative_spec(),
                name@,
            ),
    {
        let key = crate::normalize(name);
        match position_of(&self.addresses, &key) {
            None => {
                proof {
                    lemma_map_of_absent(pairs_model(self.addresses@), key@);
                }
                None
            },
            Some(p) => {
                proof {
                    lemma_map_of_present(pairs_model(self.addresses@), p as int);
                }
                let ghost before = pairs_model(self.addresses@);
                let mut pair = self.addresses.remove(p);
                let first = pair.1.watch();
                let file_name = pair.1.file_name.clone();
                let dest = self.deps_dir.child(file_name.as_str());
                let watch = if first {
                    Some(
                        match &self.relative_deps_dir {
                            Some(rd) => rd.child(file_name.as_str()),
                            None => dest.clone(),
                        },
                    )
                } else {
                    None
                };
                self.addresses.insert(p, pair);
                proof {
                    assert(pairs_model(self.addresses@) =~= before.update(
                        p as int,
                        (before[p as int].0, AddressModel { watched: true, ..before[p as int].1 }),
                    ));
                    lemma_map_of_update(
                        before,
                        p as int,
                        AddressModel { watched: true, ..before[p as int].1 },
                    );
                }
                Some(Resolution { dest, watch })
            },
        }
    }
}

/// The position of a key in the index vector, if present.
fn position_of(addresses: &Vec<(String, Address)>, key: &String) -> (r: Option<usize>)
    ensures
        match r {
            Some(p) => p < addresses@.len() && pairs_model(addresses@)[p as int].0 == key@,
            None => forall|i: int|
                0 <= i < addresses@.len() ==> (#[trigger] pairs_model(addresses@)[i]).0 != key@,
        },
{
    let mut i: usize = 0;
    while i < addresses.len()
        invariant
            i <= addresses@.len(),
            forall|j: int| 0 <= j < i ==> (#[trigger] pairs_model(addresses@)[j]).0 != key@,
        decreases addresses@.len() - i,
    {
        if crate::paths::string_eq(&addresses[i].0, key) {
            return Some(i);
        }
        i = i + 1;
    }
    None
}

/// A crate name with every underscore mapped to a hyphen: the other spelling
/// under which callers may ask for the same placeholder.
pub open spec fn hyphenated(s: Seq<char>) -> Seq<char> {
    s.map_values(|c: char| if c == '_' { '-' } else { c })
}

proof fn lemma_normalize_hyphenated(s: Seq<char>)
    ensures
        normalize_name(hyphenated(s)) == normalize_name(s),
{
    assert(normalize_name(hyphenated(s)) =~= normalize_name(s));
}

/// A crate name and its fully hyphenated spelling resolve identically: same
/// destination, same watch signal, same index afterwards.
pub proof fn lemma_resolution_ignores_hyphens(
    index: Map<Seq<char>, AddressModel>,
    deps: PathModel,
    rel: Option<PathModel>,
    name: Seq<char>,
)
    ensures
        resolution_model(index, deps, rel, hyphenated(name)) == resolution_model(
            index,
            deps,
            rel,
            name,
        ),
        after_get(index, hyphenated(name)) == after_get(index, name),
{
    lemma_normalize_hyphenated(name);
}

/// The watch signal fires on exactly the first resolution of a key: after any
/// resolution of a name, no resolution of a name with the same key signals
/// again, the destination stays the same, and the index no longer changes.
pub proof fn lemma_watch_fires_once(
    index: Map<Seq<char>, AddressModel>,
    deps: PathModel,
    rel: Option<PathModel>,
    first: Seq<char>,
    later: Seq<char>,
)
    requires
        normalize_name(first) == normalize_name(later),
    ensures
        watch_signal(after_get(index, first), deps, rel, later) is None,
        resolved_dest(after_get(index, first), deps, later) == resolved_dest(index, deps, later),
        after_get(after_get(index, first), later) == after_get(index, first),
{
    let k = normalize_name(first);
    if index.dom().contains(k) {
        assert(after_get(after_get(index, first), later) =~= after_get(index, first));
    }
}

/// Two placeholder files sharing a key produce exactly one collision
/// diagnostic, and the surviving address follows the greater-or-unknown
/// modification time policy.
pub proof fn lemma_collision_pair(e1: DirEntry, e2: DirEntry, k: Seq<char>)
    requires
        key_of(e1) == Some(k),
        key_of(e2) == Some(k),
    ensures
        scan_index(seq![e1, e2]).dom().contains(k),
        scan_index(seq![e1, e2])[k] == if holder_survives(address_of(e1), address_of(e2)) {
            address_of(e1)
        } else {
            address_of(e2)
        },
        scan_notes(seq![e1, e2]).len() == 1,
        scan_notes(seq![e1, e2])[0] == note_of(k, address_of(e1), address_of(e2)),
{
    let entries = seq![e1, e2];
    let one = entries.drop_last();
    assert(one =~= seq![e1]);
    assert(one.drop_last() =~= Seq::<DirEntry>::empty());
    assert(one.last() == e1 && entries.last() == e2);
    assert(scan_index(Seq::<DirEntry>::empty()) =~= Map::<Seq<char>, AddressModel>::empty());
    assert(scan_notes(Seq::<DirEntry>::empty()) =~= Seq::<NoteModel>::empty());
    assert(!Map::<Seq<char>, AddressModel>::empty().dom().contains(k));
    assert(scan_index(one) =~= Map::<Seq<char>, AddressModel>::empty().insert(k, address_of(e1)));
    assert(scan_notes(one) =~= Seq::<NoteModel>::empty());
    assert(scan_index(one).dom().contains(k) && scan_index(one)[k] == address_of(e1));
    assert(scan_notes(entries) =~= scan_notes(one).push(
        note_of(k, address_of(e1), address_of(e2)),
    ));
}

/// A snapshot taken after a delivery picks the delivered file up again: when
/// the delivered placeholder counts as at least as new as whatever the other
/// entries put under its key, the fresh scan indexes it unwatched, so its
/// first resolution signals anew.
pub proof fn lemma_rescan_after_delivery(
    entries: Seq<DirEntry>,
    e: DirEntry,
    k: Seq<char>,
    deps: PathModel,
    rel: Option<PathModel>,
    name: Seq<char>,
)
    requires
        key_of(e) == Some(k),
        scan_index(entries).dom().contains(k) ==> !holder_survives(
            scan_index(entries)[k],
            address_of(e),
        ),
        normalize_name(name) == k,
    ensures
        scan_index(entries.push(e)).dom().contains(k),
        scan_index(entries.push(e))[k] == address_of(e),
        !scan_index(entries.push(e))[k].watched,
        watch_signal(scan_index(entries.push(e)), deps, rel, name) is Some,
{
    assert(entries.push(e).drop_last() =~= entries);
    assert(entries.push(e).last() == e);
}

} // verus!
