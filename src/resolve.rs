use vstd::prelude::*;

use crate::error::{Error, ErrorView};
use crate::fs_path::{FsPath, is_name, names_view, parent_part, parsed_form, part_is_name};
use crate::io::{Probe, ask, probe_total, probed};

verus! {

/// The walk up from `path` went past depth `j`: the prefix of length `j` was
/// reported missing and ends in a name.
pub open spec fn passed<P: Fn(Probe, &FsPath) -> bool>(
    probe: &P,
    path: Seq<Seq<char>>,
    j: int,
) -> bool {
    probed(probe, Probe::Exists, path.take(j), false) && is_name(path[j - 1])
}

/// Resolving `path` ends at depth `d` with success: the prefix of length `d`
/// is the closest ancestor that was reported to exist (the empty path, where
/// the walk runs out), and every deeper prefix was passed.
pub open spec fn stops_at<P: Fn(Probe, &FsPath) -> bool>(
    probe: &P,
    path: Seq<Seq<char>>,
    d: int,
) -> bool {
    &&& 0 <= d <= path.len()
    &&& d > 0 ==> probed(probe, Probe::Exists, path.take(d), true)
    &&& forall|j: int| d < j <= path.len() ==> #[trigger] passed(probe, path, j)
}

/// Resolving `path` fails at depth `d`: the prefix of length `d` was reported
/// missing and has no file name, and every deeper prefix was passed.
pub open spec fn malformed_at<P: Fn(Probe, &FsPath) -> bool>(
    probe: &P,
    path: Seq<Seq<char>>,
    d: int,
) -> bool {
    &&& 0 < d <= path.len()
    &&& probed(probe, Probe::Exists, path.take(d), false)
    &&& !is_name(path[d - 1])
    &&& forall|j: int| d < j <= path.len() ==> #[trigger] passed(probe, path, j)
}

/// `probe` answers whether a path exists as `exists_at` says, whenever it is
/// asked.
pub open spec fn answers_exists<P: Fn(Probe, &FsPath) -> bool>(
    probe: &P,
    exists_at: spec_fn(Seq<Seq<char>>) -> bool,
) -> bool {
    forall|p: FsPath, a: bool| #[trigger] probe.ensures((Probe::Exists, &p), a) ==> a == exists_at(p@)
}

/// Where the file system holds `path`'s prefix of length `d` (or `d` is 0)
/// and none of the deeper prefixes, which all end in names, resolution can
/// only stop at `d`: the base is that prefix and the `path.len() - d` names
/// below it are pending. It cannot fail.
pub proof fn lemma_resolution_finds_deepest<P: Fn(Probe, &FsPath) -> bool>(
    probe: &P,
    exists_at: spec_fn(Seq<Seq<char>>) -> bool,
    path: Seq<Seq<char>>,
    d: int,
)
    requires
        answers_exists(probe, exists_at),
        0 <= d <= path.len(),
        d > 0 ==> exists_at(path.take(d)),
        forall|j: int| d < j <= path.len() ==> !exists_at(#[trigger] path.take(j)) && is_name(path[j - 1]),
    ensures
        forall|r: int| #[trigger] stops_at(probe, path, r) ==> r == d,
        forall|r: int| !#[trigger] malformed_at(probe, path, r),
{
    assert forall|r: int| #[trigger] stops_at(probe, path, r) implies r == d by {
        if r > d {
            let p = choose|p: FsPath| p@ == path.take(r) && #[trigger] probe.ensures((Probe::Exists, &p), true);
            assert(exists_at(path.take(r)));
        } else if r < d {
            assert(passed(probe, path, d));
            let p = choose|p: FsPath| p@ == path.take(d) && #[trigger] probe.ensures((Probe::Exists, &p), false);
        }
    }
    assert forall|r: int| !#[trigger] malformed_at(probe, path, r) by {
        if malformed_at(probe, path, r) {
            if r > d {
                assert(is_name(path[r - 1]));
            } else {
                if r < d {
                    assert(passed(probe, path, d));
                }
                let p = choose|p: FsPath| p@ == path.take(d) && #[trigger] probe.ensures((Probe::Exists, &p), false);
            }
        }
    }
}

/// For a path read by [`FsPath::parse`]: where the file system holds its
/// prefix of length `d` (or `d` is 0 and the path begins with a name) and
/// none of the deeper prefixes, and no missing component is `..`, resolution
/// can only stop at `d`: the base is that closest existing ancestor and the
/// `path.len() - d` names below it are pending, shallowest first. It cannot
/// fail.
pub proof fn lemma_parsed_resolution_finds_deepest<P: Fn(Probe, &FsPath) -> bool>(
    probe: &P,
    exists_at: spec_fn(Seq<Seq<char>>) -> bool,
    path: Seq<Seq<char>>,
    d: int,
)
    requires
        answers_exists(probe, exists_at),
        parsed_form(path),
        0 <= d <= path.len(),
        d > 0 ==> exists_at(path.take(d)),
        d == 0 && path.len() > 0 ==> is_name(path[0]),
        forall|j: int|
            d < j <= path.len() ==> !exists_at(#[trigger] path.take(j)) && path[j - 1]
                != parent_part(),
    ensures
        forall|r: int| #[trigger] stops_at(probe, path, r) ==> r == d,
        forall|r: int| !#[trigger] malformed_at(probe, path, r),
{
    assert forall|j: int| d < j <= path.len() implies !exists_at(#[trigger] path.take(j)) && is_name(
        path[j - 1],
    ) by {
        let prefix = path.take(j);
        assert(!exists_at(prefix) && path[j - 1] != parent_part());
        if j - 1 > 0 {
            assert(path[j - 1] != crate::fs_path::root_part());
        }
    }
    lemma_resolution_finds_deepest(probe, exists_at, path, d);
}

/// Splits `path` into its closest existing ancestor and the names below it,
/// shallowest first. The walk asks `probe` whether each prefix exists, from
/// `path` itself upwards, and stops at the first that does; the empty path
/// ends it. A missing prefix that does not end in a name (`..`, `.`, the root)
/// fails it with `MalformedPath` of that prefix.
pub fn closest_ancestor<P: Fn(Probe, &FsPath) -> bool>(path: &FsPath, probe: &P) -> (r: Result<
    (FsPath, Vec<String>),
    Error,
>)
    requires
        probe_total(probe),
    ensures
        match r {
            Ok((base, names)) => {
                &&& stops_at(probe, path@, base@.len() as int)
                &&& base@ == path@.take(base@.len() as int)
                &&& base@ + names_view(names@) == path@
            },
            Err(e) => exists|d: int|
                malformed_at(probe, path@, d) && e@ == ErrorView::MalformedPath(path@.take(d)),
        },
{
    let n = path.parts.len();
    let mut d: usize = n;
    while d > 0
        invariant
            d <= n == path@.len(),
            probe_total(probe),
            forall|j: int| d < j <= path@.len() ==> #[trigger] passed(probe, path@, j),
        decreases d,
    {
        let candidate = path.prefix(d);
        if ask(probe, Probe::Exists, &candidate) {
            let names = path.suffix(d);
            assert(candidate@ + names_view(names@) =~= path@);
            return Ok((candidate, names));
        }
        if !part_is_name(&path.parts[d - 1]) {
            assert(malformed_at(probe, path@, d as int));
            return Err(Error::MalformedPath(candidate));
        }
        assert(passed(probe, path@, d as int));
        d = d - 1;
    }
    let base = FsPath::new();
    let names = path.suffix(0);
    assert(base@ + names_view(names@) =~= path@);
    assert(base@ =~= path@.take(0));
    Ok((base, names))
}

} // verus!
