//! A minimal path representation: a flag for absolute paths plus the list of
//! path segments. All destination and source locations the crate reasons
//! about are held in this form; converting to and from the platform's native
//! path type is the caller's task.

use vstd::prelude::*;

verus! {

/// Mathematical model of a [`SysPath`]: the absolute flag and the segments as
/// sequences of characters.
pub ghost struct PathModel {
    pub absolute: bool,
    pub segments: Seq<Seq<char>>,
}

/// A filesystem location, kept as plain segments. `absolute` records whether
/// the path starts at the filesystem root.
#[derive(Debug)]
pub struct SysPath {
    pub absolute: bool,
    pub segments: Vec<String>,
}

impl View for SysPath {
    type V = PathModel;

    open spec fn view(&self) -> PathModel {
        PathModel { absolute: self.absolute, segments: self.segments.deep_view() }
    }
}

impl DeepView for SysPath {
    type V = PathModel;

    open spec fn deep_view(&self) -> PathModel {
        self.view()
    }
}

impl Clone for SysPath {
    fn clone(&self) -> (r: Self)
        ensures
            r@ == self@,
    {
        let mut segments: Vec<String> = Vec::new();
        let mut i: usize = 0;
        while i < self.segments.len()
            invariant
                i <= self.segments.len(),
                segments@.len() == i,
                forall|k: int| 0 <= k < i ==> #[trigger] segments@[k]@ == self.segments@[k]@,
            decreases self.segments.len() - i,
        {
            segments.push(self.segments[i].clone());
            i = i + 1;
        }
        proof {
            assert forall|k: int|
                0 <= k < segments@.len() implies #[trigger] segments.deep_view()[k]
                == self.segments.deep_view()[k] by {
                assert(segments@[k]@ == self.segments@[k]@);
            }
            assert(segments.deep_view() =~= self.segments.deep_view());
        }
        SysPath { absolute: self.absolute, segments }
    }
}

impl SysPath {
    /// The path extended by one further segment.
    pub fn child(&self, name: &str) -> (r: SysPath)
        ensures
            r@.absolute == self@.absolute,
            r@.segments == self@.segments.push(name@),
    {
        let mut r = self.clone();
        r.segments.push(name.to_owned());
        proof {
            assert(r.segments.deep_view() =~= self@.segments.push(name@));
        }
        r
    }

    /// The path with its last segment replaced; the way a sibling of a file
    /// is addressed.
    pub fn with_file_name(&self, name: &str) -> (r: SysPath)
        requires
            self@.segments.len() > 0,
        ensures
            r@.absolute == self@.absolute,
            r@.segments == self@.segments.drop_last().push(name@),
    {
        let mut r = self.clone();
        let _ = r.segments.pop();
        r.segments.push(name.to_owned());
        proof {
            assert(r.segments.deep_view() =~= self@.segments.drop_last().push(name@));
        }
        r
    }

    /// This path expressed relative to `base`: `Some` exactly when `base`
    /// leads to the same root and its segments are a prefix of this path's.
    pub fn strip_prefix(&self, base: &SysPath) -> (r: Option<SysPath>)
        ensures
            match r {
                Some(rel) => {
                    &&& self@.absolute == base@.absolute
                    &&& base@.segments.is_prefix_of(self@.segments)
                    &&& rel@.absolute == false
                    &&& rel@.segments == self@.segments.skip(base@.segments.len() as int)
                },
                None => !(self@.absolute == base@.absolute && base@.segments.is_prefix_of(
                    self@.segments,
                )),
            },
    {
        if self.absolute != base.absolute || base.segments.len() > self.segments.len() {
            return None;
        }
        let mut i: usize = 0;
        while i < base.segments.len()
            invariant
                i <= base.segments.len() <= self.segments.len(),
                self@.absolute == base@.absolute,
                forall|j: int|
                    0 <= j < i ==> base@.segments[j] == self@.segments[j],
            decreases base.segments.len() - i,
        {
            if !string_eq(&base.segments[i], &self.segments[i]) {
                proof {
                    assert(!base@.segments.is_prefix_of(self@.segments)) by {
                        assert(base@.segments[i as int] != self@.segments[i as int]);
                    }
                }
                return None;
            }
            i = i + 1;
        }
        let mut rest: Vec<String> = Vec::new();
        let mut j: usize = base.segments.len();
        while j < self.segments.len()
            invariant
                base.segments.len() <= j <= self.segments.len(),
                rest@.len() == j - base.segments.len(),
                forall|k: int|
                    0 <= k < rest@.len() ==> #[trigger] rest@[k]@ == self.segments@[k
                        + base.segments@.len()]@,
            decreases self.segments.len() - j,
        {
            rest.push(self.segments[j].clone());
            j = j + 1;
        }
        proof {
            assert forall|k: int|
                0 <= k < rest@.len() implies #[trigger] rest.deep_view()[k]
                == self@.segments.skip(base@.segments.len() as int)[k] by {
                assert(rest@[k]@ == self.segments@[k + base.segments@.len()]@);
            }
            assert(base@.segments.is_prefix_of(self@.segments)) by {
                assert(base@.segments =~= self@.segments.subrange(
                    0,
                    base@.segments.len() as int,
                ));
            }
            assert(rest.deep_view() =~= self@.segments.skip(base@.segments.len() as int));
        }
        Some(SysPath { absolute: false, segments: rest })
    }
}

/// The result of joining a path onto a base: an absolute path replaces the
/// base, a relative one extends it.
pub open spec fn join_model(base: PathModel, other: PathModel) -> PathModel {
    if other.absolute {
        other
    } else {
        PathModel { absolute: base.absolute, segments: base.segments + other.segments }
    }
}

/// Whether two strings hold the same characters.
pub fn string_eq(a: &String, b: &String) -> (r: bool)
    ensures
        r == (a@ == b@),
{
    a.eq(b)
}

impl SysPath {
    /// Joins a path onto this one; an absolute path replaces it.
    pub fn join(&self, other: &SysPath) -> (r: SysPath)
        ensures
            r@ == join_model(self@, other@),
    {
        if other.absolute {
            return other.clone();
        }
        let mut r = self.clone();
        let mut i: usize = 0;
        while i < other.segments.len()
            invariant
                i <= other.segments@.len(),
                r.absolute == self@.absolute,
                r.segments.deep_view() == self@.segments + other@.segments.take(i as int),
            decreases other.segments@.len() - i,
        {
            let ghost pre = r.segments.deep_view();
            r.segments.push(other.segments[i].clone());
            proof {
                assert(r.segments.deep_view() =~= pre.push(other@.segments[i as int])) by {
                    assert forall|q: int|
                        0 <= q < r.segments@.len() implies #[trigger] r.segments.deep_view()[q]
                        == pre.push(other@.segments[i as int])[q] by {
                        if q < pre.len() {
                            assert(r.segments.deep_view()[q] == pre[q]);
                        }
                    }
                }
                assert(self@.segments + other@.segments.take(i as int + 1) =~= (self@.segments
                    + other@.segments.take(i as int)).push(other@.segments[i as int]));
            }
            i = i + 1;
        }
        proof {
            assert(other@.segments.take(other@.segments.len() as int) =~= other@.segments);
        }
        r
    }
}

/// One step of splitting on `/`: a separator closes the pending segment
/// (dropping it when empty), any other character extends it.
pub open spec fn split_push(acc: (Seq<Seq<char>>, Seq<char>), c: char) -> (Seq<Seq<char>>, Seq<
    char,
>) {
    if c == '/' {
        (
            if acc.1.len() == 0 {
                acc.0
            } else {
                acc.0.push(acc.1)
            },
            Seq::empty(),
        )
    } else {
        (acc.0, acc.1.push(c))
    }
}

/// Splitting a whole string on `/`: the closed segments and the pending one.
pub open spec fn split_fold(s: Seq<char>) -> (Seq<Seq<char>>, Seq<char>)
    decreases s.len(),
{
    if s.len() == 0 {
        (Seq::empty(), Seq::empty())
    } else {
        split_push(split_fold(s.drop_last()), s.last())
    }
}

/// The non-empty segments of a string split on `/`.
pub open spec fn slash_segments(s: Seq<char>) -> Seq<Seq<char>> {
    let acc = split_fold(s);
    if acc.1.len() == 0 {
        acc.0
    } else {
        acc.0.push(acc.1)
    }
}

/// The path a source string denotes: absolute when it starts with `/`, with
/// the non-empty `/`-separated pieces as segments.
pub open spec fn path_model_of(s: Seq<char>) -> PathModel {
    PathModel { absolute: s.len() > 0 && s[0] == '/', segments: slash_segments(s) }
}

/// Splits a string on `/`, dropping empty pieces.
pub fn split_slash(s: &str) -> (r: Vec<String>)
    ensures
        r.deep_view() == slash_segments(s@),
{
    let len = s.unicode_len();
    let mut done: Vec<String> = Vec::new();
    let mut cur = String::new();
    let mut i: usize = 0;
    while i < len
        invariant
            i <= len,
            len == s@.len(),
            done.deep_view() == split_fold(s@.take(i as int)).0,
            cur@ == split_fold(s@.take(i as int)).1,
        decreases len - i,
    {
        let ghost pre = split_fold(s@.take(i as int));
        proof {
            assert(s@.take(i as int + 1).drop_last() =~= s@.take(i as int));
            assert(s@.take(i as int + 1).last() == s@[i as int]);
        }
        let c = s.get_char(i);
        if c == '/' {
            if !cur.as_str().is_empty() {
                let ghost dv = done.deep_view();
                done.push(cur);
                proof {
                    assert(done.deep_view() =~= dv.push(pre.1)) by {
                        assert forall|k: int|
                            0 <= k < done@.len() implies #[trigger] done.deep_view()[k] == dv.push(
                            pre.1,
                        )[k] by {
                            if k < dv.len() {
                                assert(done.deep_view()[k] == dv[k]);
                            }
                        }
                    }
                }
                cur = String::new();
            }
        } else {
            let piece = s.substring_char(i, i + 1);
            cur.append(piece);
            proof {
                assert(cur@ =~= pre.1.push(s@[i as int]));
            }
        }
        i = i + 1;
    }
    proof {
        assert(s@.take(len as int) =~= s@);
    }
    if !cur.as_str().is_empty() {
        let ghost dv = done.deep_view();
        done.push(cur);
        proof {
            assert(done.deep_view() =~= dv.push(split_fold(s@).1)) by {
                assert forall|k: int|
                    0 <= k < done@.len() implies #[trigger] done.deep_view()[k] == dv.push(
                    split_fold(s@).1,
                )[k] by {
                    if k < dv.len() {
                        assert(done.deep_view()[k] == dv[k]);
                    }
                }
            }
        }
    }
    done
}

/// Reads a source string as a path.
pub fn path_from_str(s: &str) -> (r: SysPath)
    ensures
        r@ == path_model_of(s@),
{
    let len = s.unicode_len();
    let absolute = len > 0 && s.get_char(0) == '/';
    let segments = split_slash(s);
    SysPath { absolute, segments }
}

} // verus!
