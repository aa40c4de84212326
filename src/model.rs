use vstd::prelude::*;

use crate::io::{FsActionView, Report};

use crate::error::Error;
use crate::fs_path::FsPath;
use crate::io::Probe;
use crate::scoped_path::{
    Entry, PathView, creation_log, creations, creations_between, current, pending_log,
    pending_prefix, persisted, removal_log, removals,
};

verus! {

/// A state of the file system: each entry that exists, mapped to whether it
/// is a directory.
pub type FsState = Map<Seq<Seq<char>>, bool>;

/// `q` lies strictly below `p`.
pub open spec fn below(q: Seq<Seq<char>>, p: Seq<Seq<char>>) -> bool {
    p.len() < q.len() && q.take(p.len() as int) == p
}

/// A directory exists at `p`.
pub open spec fn is_dir_in(fs: FsState, p: Seq<Seq<char>>) -> bool {
    fs.contains_key(p) && fs[p]
}

/// Nothing exists at or below `p`.
pub open spec fn absent(fs: FsState, p: Seq<Seq<char>>) -> bool {
    forall|q: Seq<Seq<char>>| #[trigger] fs.contains_key(q) ==> q != p && !below(q, p)
}

/// Making a directory at `p` succeeds: one is there already, or nothing is
/// and its parent is a directory.
pub open spec fn can_make(fs: FsState, p: Seq<Seq<char>>) -> bool {
    ||| is_dir_in(fs, p)
    ||| !fs.contains_key(p) && p.len() > 0 && is_dir_in(fs, p.drop_last())
}

/// The state after a successful making of the directory `p`.
pub open spec fn make_dir(fs: FsState, p: Seq<Seq<char>>) -> FsState {
    if fs.contains_key(p) {
        fs
    } else {
        fs.insert(p, true)
    }
}

/// Removing the directory `p` succeeds: it is a directory with nothing below.
pub open spec fn can_remove(fs: FsState, p: Seq<Seq<char>>) -> bool {
    &&& is_dir_in(fs, p)
    &&& forall|q: Seq<Seq<char>>| #[trigger] fs.contains_key(q) ==> !below(q, p)
}

/// Making the pending directories of `v` exist, from the `i`-th on, the way
/// [`crate::Path::ensure_exists`] does once its base exists: the state it
/// leaves and whether every step succeeded.
pub open spec fn create_from(fs: FsState, v: PathView, i: int) -> (FsState, bool)
    decreases v.subdirs.len() - i,
{
    if i >= v.subdirs.len() {
        (fs, true)
    } else {
        let p = pending_prefix(v, i + 1);
        if can_make(fs, p) {
            create_from(make_dir(fs, p), v, i + 1)
        } else {
            (fs, false)
        }
    }
}

/// Making all pending directories of `v` exist.
pub open spec fn create_pending(fs: FsState, v: PathView) -> (FsState, bool) {
    create_from(fs, v, 0)
}

/// Removing the pending directories of `v` the way [`crate::Path::remove`]
/// does: the deepest first, while removal succeeds. The state it leaves and
/// the names still pending.
pub open spec fn remove_pending(fs: FsState, v: PathView) -> (FsState, Seq<Seq<char>>)
    decreases v.subdirs.len(),
{
    if v.subdirs.len() == 0 {
        (fs, v.subdirs)
    } else if can_remove(fs, current(v)) {
        remove_pending(fs.remove(current(v)), PathView { subdirs: v.subdirs.drop_last(), ..v })
    } else {
        (fs, v.subdirs)
    }
}

/// `fs` with the first `k` pending directories of `v` added.
pub open spec fn with_chain(fs: FsState, v: PathView, k: int) -> FsState
    decreases k,
{
    if k <= 0 {
        fs
    } else {
        with_chain(fs, v, k - 1).insert(pending_prefix(v, k), true)
    }
}

/// `p` is one of the first `k` pending directories of `v`.
pub open spec fn in_chain(v: PathView, p: Seq<Seq<char>>, k: int) -> bool {
    let j = p.len() - v.base.len();
    1 <= j <= k && p == pending_prefix(v, j)
}

/// Making persistent twice leaves what making persistent once leaves.
pub proof fn lemma_make_persistent_idempotent(v: PathView)
    ensures
        persisted(persisted(v)) == persisted(v),
{
    assert(current(persisted(v)) =~= current(v));
}

/// Content that lies inside a pending directory and is not itself pending is
/// never removed: removal stops at or below the directory that holds it.
pub proof fn lemma_foreign_content_kept(fs: FsState, v: PathView, k: int, q: Seq<Seq<char>>)
    requires
        1 <= k <= v.subdirs.len(),
        fs.contains_key(q),
        below(q, pending_prefix(v, k)),
        !in_chain(v, q, v.subdirs.len() as int),
    ensures
        remove_pending(fs, v).0.contains_key(q),
        remove_pending(fs, v).1.len() >= k,
    decreases v.subdirs.len(),
{
    let n = v.subdirs.len() as int;
    let c = current(v);
    assert(c =~= pending_prefix(v, n));
    if can_remove(fs, c) {
        if k == n {
            assert(!below(q, c));
        } else {
            let w = PathView { subdirs: v.subdirs.drop_last(), ..v };
            assert(pending_prefix(w, k) =~= pending_prefix(v, k));
            assert(q != c) by {
                if q == c {
                    assert(in_chain(v, q, n));
                }
            }
            assert(!in_chain(w, q, n - 1)) by {
                let j = q.len() - v.base.len();
                if in_chain(w, q, n - 1) {
                    assert(pending_prefix(w, j) =~= pending_prefix(v, j));
                }
            }
            lemma_foreign_content_kept(fs.remove(c), w, k, q);
        }
    }
}

/// What `with_chain` holds: the entries of `fs`, and the first `k` pending
/// directories of `v` as directories.
pub proof fn lemma_with_chain(fs: FsState, v: PathView, k: int)
    requires
        0 <= k <= v.subdirs.len(),
    ensures
        forall|p: Seq<Seq<char>>|
            #[trigger] with_chain(fs, v, k).contains_key(p) <==> fs.contains_key(p) || in_chain(
                v,
                p,
                k,
            ),
        forall|p: Seq<Seq<char>>|
            #[trigger] with_chain(fs, v, k).contains_key(p) ==> with_chain(fs, v, k)[p] == if in_chain(
                v,
                p,
                k,
            ) {
                true
            } else {
                fs[p]
            },
    decreases k,
{
    if k > 0 {
        lemma_with_chain(fs, v, k - 1);
        let c = pending_prefix(v, k);
        let prev = with_chain(fs, v, k - 1);
        assert(with_chain(fs, v, k) == prev.insert(c, true));
        assert(c.len() == v.base.len() + k);
        assert forall|p: Seq<Seq<char>>|
            #[trigger] with_chain(fs, v, k).contains_key(p) <==> fs.contains_key(p) || in_chain(
                v,
                p,
                k,
            ) by {
            if p == c {
                assert(in_chain(v, p, k));
            } else {
                assert(in_chain(v, p, k) <==> in_chain(v, p, k - 1));
                assert(prev.contains_key(p) <==> fs.contains_key(p) || in_chain(v, p, k - 1));
            }
        }
        assert forall|p: Seq<Seq<char>>| #[trigger] with_chain(fs, v, k).contains_key(p) implies with_chain(fs, v, k)[p] == if in_chain(v, p, k) {
                true
            } else {
                fs[p]
            } by {
            if p == c {
                assert(in_chain(v, p, k));
            } else {
                assert(in_chain(v, p, k) <==> in_chain(v, p, k - 1));
                assert(prev.contains_key(p));
            }
        }
    }
}

/// Making the pending directories of `v` succeeds where its base is a
/// directory and no pending path holds anything but a directory, and adds
/// exactly those directories.
pub proof fn lemma_create_pending(fs: FsState, v: PathView)
    requires
        is_dir_in(fs, v.base),
        forall|k: int|
            1 <= k <= v.subdirs.len() && #[trigger] fs.contains_key(pending_prefix(v, k))
                ==> fs[pending_prefix(v, k)],
    ensures
        create_pending(fs, v) == (with_chain(fs, v, v.subdirs.len() as int), true),
{
    lemma_create_from(fs, v, 0);
}

proof fn lemma_create_from(fs: FsState, v: PathView, i: int)
    requires
        0 <= i <= v.subdirs.len(),
        is_dir_in(fs, v.base),
        forall|k: int|
            1 <= k <= v.subdirs.len() && #[trigger] fs.contains_key(pending_prefix(v, k))
                ==> fs[pending_prefix(v, k)],
    ensures
        create_from(with_chain(fs, v, i), v, i) == (with_chain(fs, v, v.subdirs.len() as int), true),
    decreases v.subdirs.len() - i,
{
    let n = v.subdirs.len() as int;
    if i < n {
        let s = with_chain(fs, v, i);
        let p = pending_prefix(v, i + 1);
        lemma_with_chain(fs, v, i);
        lemma_with_chain(fs, v, i + 1);
        assert(p.len() == v.base.len() + i + 1);
        assert(!in_chain(v, p, i));
        assert(p.drop_last() =~= pending_prefix(v, i));
        if i == 0 {
            assert(pending_prefix(v, 0) =~= v.base);
            assert(!in_chain(v, v.base, 0));
        } else {
            assert(in_chain(v, pending_prefix(v, i), i));
        }
        assert(in_chain(v, p, i + 1));
        assert(can_make(s, p));
        assert(make_dir(s, p) =~= with_chain(fs, v, i + 1));
        lemma_create_from(fs, v, i + 1);
    }
}

/// `v` with only its first `k` pending directories.
pub open spec fn truncated(v: PathView, k: int) -> PathView {
    PathView { subdirs: v.subdirs.take(k), ..v }
}

proof fn lemma_remove_chain(fs: FsState, v: PathView, k: int)
    requires
        0 <= k <= v.subdirs.len(),
        v.subdirs.len() > 0 ==> absent(fs, pending_prefix(v, 1)),
    ensures
        remove_pending(with_chain(fs, v, k), truncated(v, k)) == (fs, Seq::<Seq<char>>::empty()),
    decreases k,
{
    let t = truncated(v, k);
    let s = with_chain(fs, v, k);
    lemma_with_chain(fs, v, k);
    if k == 0 {
        assert(t.subdirs =~= Seq::<Seq<char>>::empty());
    } else {
        let c = pending_prefix(v, k);
        assert(current(t) =~= c);
        assert forall|q: Seq<Seq<char>>| #[trigger] s.contains_key(q) implies !below(q, c) by {
            if fs.contains_key(q) {
                assert(c.take(v.base.len() as int + 1) =~= pending_prefix(v, 1));
                if below(q, c) {
                    assert(q.take(v.base.len() as int + 1) =~= pending_prefix(v, 1));
                    assert(q == pending_prefix(v, 1) || below(q, pending_prefix(v, 1)));
                }
            }
        }
        assert(in_chain(v, c, k));
        assert(can_remove(s, c));
        let w = PathView { subdirs: t.subdirs.drop_last(), ..t };
        assert(w == truncated(v, k - 1)) by {
            assert(w.subdirs =~= v.subdirs.take(k - 1));
        }
        lemma_with_chain(fs, v, k - 1);
        assert(!fs.contains_key(c)) by {
            assert(c.take(v.base.len() as int + 1) =~= pending_prefix(v, 1));
            if k > 1 {
                assert(below(c, pending_prefix(v, 1)));
            } else {
                assert(c =~= pending_prefix(v, 1));
            }
        }
        assert(!in_chain(v, c, k - 1));
        assert(s.remove(c) =~= with_chain(fs, v, k - 1)) by {
            assert forall|p: Seq<Seq<char>>| in_chain(v, p, k) && p != c implies in_chain(v, p, k - 1) by {}
        }
        lemma_remove_chain(fs, v, k - 1);
    }
}

/// Initialising a path whose pending part does not exist yet and then
/// removing it leaves the file system exactly as it was.
pub proof fn lemma_round_trip(fs: FsState, v: PathView)
    requires
        is_dir_in(fs, v.base),
        v.subdirs.len() > 0 ==> absent(fs, pending_prefix(v, 1)),
    ensures
        create_pending(fs, v).1,
        remove_pending(create_pending(fs, v).0, v) == (fs, Seq::<Seq<char>>::empty()),
{
    let n = v.subdirs.len() as int;
    assert forall|k: int| 1 <= k <= n implies !#[trigger] fs.contains_key(pending_prefix(v, k)) by {
        let c = pending_prefix(v, k);
        assert(c.take(v.base.len() as int + 1) =~= pending_prefix(v, 1));
        if k > 1 {
            assert(below(c, pending_prefix(v, 1)));
        } else {
            assert(c =~= pending_prefix(v, 1));
        }
    }
    lemma_create_pending(fs, v);
    lemma_remove_chain(fs, v, n);
    assert(truncated(v, n) == v) by {
        assert(v.subdirs.take(n) =~= v.subdirs);
    }
}

/// Something in `fs` that is not a pending directory of `v` lies below its
/// `k`-th pending directory.
pub open spec fn foreign_below(fs: FsState, v: PathView, k: int) -> bool {
    exists|q: Seq<Seq<char>>|
        #[trigger] fs.contains_key(q) && below(q, pending_prefix(v, k)) && !in_chain(
            v,
            q,
            v.subdirs.len() as int,
        )
}

/// `fs` without the pending directories of `v` that are deeper than its
/// `k`-th.
pub open spec fn stripped(fs: FsState, v: PathView, k: int) -> FsState {
    fs.remove_keys(
        Set::new(
            |p: Seq<Seq<char>>| in_chain(v, p, v.subdirs.len() as int) && !in_chain(v, p, k),
        ),
    )
}

/// A pending path of `v` is its first pending directory or lies below it,
/// and so does whatever lies below a pending path.
pub proof fn lemma_under_first(v: PathView, j: int, q: Seq<Seq<char>>)
    requires
        1 <= j <= v.subdirs.len(),
        q == pending_prefix(v, j) || below(q, pending_prefix(v, j)),
    ensures
        q == pending_prefix(v, 1) || below(q, pending_prefix(v, 1)),
{
    let c = pending_prefix(v, j);
    let f = pending_prefix(v, 1);
    assert(c.take(v.base.len() as int + 1) =~= f);
    if below(q, c) {
        assert(q.take(v.base.len() as int + 1) =~= c.take(v.base.len() as int + 1));
    }
    if q == c && j > 1 {
        assert(below(q, f));
    }
    if q == c && j == 1 {
        assert(q =~= f);
    }
}

/// The pending directories of `v` without its deepest are those of `v`.
proof fn lemma_drop_deepest(v: PathView)
    requires
        v.subdirs.len() > 0,
    ensures
        ({
            let w = PathView { subdirs: v.subdirs.drop_last(), ..v };
            &&& forall|j: int| 0 <= j < v.subdirs.len() ==> #[trigger] pending_prefix(w, j) == pending_prefix(v, j)
            &&& forall|p: Seq<Seq<char>>, m: int| 0 <= m < v.subdirs.len() ==> (#[trigger] in_chain(w, p, m) <==> in_chain(v, p, m))
            &&& forall|p: Seq<Seq<char>>| #[trigger] in_chain(v, p, v.subdirs.len() as int) <==> in_chain(w, p, v.subdirs.len() - 1) || p == current(v)
        }),
{
    let n = v.subdirs.len() as int;
    let w = PathView { subdirs: v.subdirs.drop_last(), ..v };
    assert forall|j: int| 0 <= j < n implies #[trigger] pending_prefix(w, j) == pending_prefix(v, j) by {
        assert(w.subdirs.take(j) =~= v.subdirs.take(j));
    }
    assert(current(v) =~= pending_prefix(v, n));
    assert forall|p: Seq<Seq<char>>, m: int| 0 <= m < n implies (#[trigger] in_chain(w, p, m) <==> in_chain(v, p, m)) by {
        let j = p.len() - v.base.len();
        if 1 <= j <= m {
            assert(w.subdirs.take(j) =~= v.subdirs.take(j));
        }
    }
    assert forall|p: Seq<Seq<char>>| #[trigger] in_chain(v, p, n) <==> in_chain(w, p, n - 1) || p == current(v) by {
        let j = p.len() - v.base.len();
        if 1 <= j <= n - 1 {
            assert(w.subdirs.take(j) =~= v.subdirs.take(j));
        }
        if p == current(v) {
            assert(in_chain(v, p, n));
        }
    }
}

/// Removal takes away exactly the pending directories below the deepest one
/// that holds something else, and stops there.
pub proof fn lemma_removal_stops(fs: FsState, v: PathView, k: int)
    requires
        forall|j: int| 1 <= j <= v.subdirs.len() ==> #[trigger] is_dir_in(fs, pending_prefix(v, j)),
        0 <= k <= v.subdirs.len(),
        k > 0 ==> foreign_below(fs, v, k),
        forall|j: int| k < j <= v.subdirs.len() ==> !#[trigger] foreign_below(fs, v, j),
    ensures
        remove_pending(fs, v) == (stripped(fs, v, k), v.subdirs.take(k)),
    decreases v.subdirs.len(),
{
    let n = v.subdirs.len() as int;
    if n == 0 {
        assert(stripped(fs, v, k) =~= fs);
        assert(v.subdirs.take(k) =~= v.subdirs);
    } else {
        let c = current(v);
        assert(c =~= pending_prefix(v, n));
        assert(in_chain(v, c, n));
        if k == n {
            let q = choose|q: Seq<Seq<char>>|
                #[trigger] fs.contains_key(q) && below(q, pending_prefix(v, k)) && !in_chain(v, q, n);
            assert(!can_remove(fs, c));
            assert(stripped(fs, v, k) =~= fs);
            assert(v.subdirs.take(k) =~= v.subdirs);
        } else {
            assert(!foreign_below(fs, v, n));
            assert forall|q: Seq<Seq<char>>| #[trigger] fs.contains_key(q) implies !below(q, c) by {
                if below(q, c) {
                    assert(in_chain(v, q, n));
                }
            }
            assert(is_dir_in(fs, pending_prefix(v, n)));
            assert(can_remove(fs, c));
            let w = PathView { subdirs: v.subdirs.drop_last(), ..v };
            let fs2 = fs.remove(c);
            lemma_drop_deepest(v);
            assert forall|j: int| 1 <= j <= w.subdirs.len() implies #[trigger] is_dir_in(fs2, pending_prefix(w, j)) by {
                assert(pending_prefix(w, j) == pending_prefix(v, j));
                assert(is_dir_in(fs, pending_prefix(v, j)));
                assert(pending_prefix(v, j).len() == v.base.len() + j);
            }
            if k > 0 {
                let q = choose|q: Seq<Seq<char>>|
                    #[trigger] fs.contains_key(q) && below(q, pending_prefix(v, k)) && !in_chain(v, q, n);
                assert(q != c);
                assert(pending_prefix(w, k) == pending_prefix(v, k));
                assert(!in_chain(w, q, n - 1));
                assert(fs2.contains_key(q));
                assert(foreign_below(fs2, w, k));
            }
            assert forall|j: int| k < j <= w.subdirs.len() implies !#[trigger] foreign_below(fs2, w, j) by {
                assert(pending_prefix(w, j) == pending_prefix(v, j));
                if foreign_below(fs2, w, j) {
                    let q = choose|q: Seq<Seq<char>>|
                        #[trigger] fs2.contains_key(q) && below(q, pending_prefix(w, j)) && !in_chain(w, q, n - 1);
                    assert(!in_chain(v, q, n));
                    assert(fs.contains_key(q));
                    assert(foreign_below(fs, v, j));
                }
            }
            lemma_removal_stops(fs2, w, k);
            assert(stripped(fs2, w, k) =~= stripped(fs, v, k)) by {
                assert forall|p: Seq<Seq<char>>| #[trigger] in_chain(w, p, k) <==> in_chain(v, p, k) by {}
            }
            assert(w.subdirs.take(k) =~= v.subdirs.take(k));
        }
    }
}

/// What the request `a` does to the file system in state `fs`: the state
/// after it, and whether it succeeds. A request that fails changes nothing.
pub open spec fn step(fs: FsState, a: FsActionView) -> (FsState, bool) {
    match a {
        FsActionView::CreateDir(p) => if can_make(fs, p) {
            (make_dir(fs, p), true)
        } else {
            (fs, false)
        },
        FsActionView::RemoveDir(p) => if can_remove(fs, p) {
            (fs.remove(p), true)
        } else {
            (fs, false)
        },
        FsActionView::RemoveContents(p) => if is_dir_in(fs, p) {
            (fs.remove_keys(Set::new(|q: Seq<Seq<char>>| below(q, p))), true)
        } else {
            (fs, false)
        },
        FsActionView::WriteFile(p, _) => if p.len() > 0 && is_dir_in(fs, p.drop_last())
            && !is_dir_in(fs, p) {
            (fs.insert(p, false), true)
        } else {
            (fs, false)
        },
    }
}

/// Every report in `log` is what a file system that starts in state `fs`
/// would have given, request by request.
pub open spec fn faithful(fs: FsState, log: Seq<Entry>) -> bool
    decreases log.len(),
{
    log.len() == 0 || {
        &&& (log[0].1 is Done) == step(fs, log[0].0).1
        &&& faithful(step(fs, log[0].0).0, log.drop_first())
    }
}

/// The state that the requests of `log` leave, starting from `fs`.
pub open spec fn replay(fs: FsState, log: Seq<Entry>) -> FsState
    decreases log.len(),
{
    if log.len() == 0 {
        fs
    } else {
        replay(step(fs, log[0].0).0, log.drop_first())
    }
}

/// The requests that [`crate::Path::remove`] makes, where the file system
/// `fs` answers them, leave it as removal does in the model: `m` names stay
/// pending and exactly the pending directories below the `m`-th are gone.
pub proof fn lemma_remove_follows_model(fs: FsState, v: PathView, m: int, log: Seq<Entry>)
    requires
        0 <= m <= v.subdirs.len(),
        m == 0 ==> log == removals(v, 0),
        m > 0 ==> log == removals(v, m).push(
            (FsActionView::RemoveDir(pending_prefix(v, m)), log.last().1),
        ) && log.last().1 is Failed,
        faithful(fs, log),
    ensures
        remove_pending(fs, v) == (replay(fs, log), v.subdirs.take(m)),
        replay(fs, log) == stripped(fs, v, m),
    decreases v.subdirs.len(),
{
    let n = v.subdirs.len() as int;
    if n == 0 {
        assert(log.len() == 0);
        assert(stripped(fs, v, m) =~= fs);
        assert(v.subdirs.take(m) =~= v.subdirs);
    } else {
        let c = current(v);
        assert(c =~= pending_prefix(v, n));
        if m == n {
            assert(log.len() == 1);
            assert(log[0].0 == FsActionView::RemoveDir(c));
            assert(!can_remove(fs, c));
            assert(log.drop_first().len() == 0);
            assert(replay(fs, log.drop_first()) == fs);
            assert(replay(fs, log) == replay(fs, log.drop_first()));
            assert(stripped(fs, v, m) =~= fs);
            assert(v.subdirs.take(m) =~= v.subdirs);
        } else {
            assert(log[0] == (FsActionView::RemoveDir(c), Report::Done));
            assert(can_remove(fs, c));
            let w = PathView { subdirs: v.subdirs.drop_last(), ..v };
            let fs2 = fs.remove(c);
            lemma_drop_deepest(v);
            let rest = log.drop_first();
            assert(removals(w, m) =~= removals(v, m).drop_first()) by {
                assert forall|t: int| 0 <= t < n - 1 - m implies #[trigger] pending_prefix(w, n - 1 - t)
                    == pending_prefix(v, n - 1 - t) by {}
            }
            if m > 0 {
                assert(pending_prefix(w, m) == pending_prefix(v, m));
                assert(rest =~= removals(w, m).push(
                    (FsActionView::RemoveDir(pending_prefix(w, m)), rest.last().1),
                ));
            } else {
                assert(rest =~= removals(w, 0));
            }
            lemma_remove_follows_model(fs2, w, m, rest);
            assert(stripped(fs2, w, m) =~= stripped(fs, v, m)) by {
                assert forall|p: Seq<Seq<char>>| #[trigger] in_chain(w, p, m) <==> in_chain(v, p, m) by {}
            }
            assert(w.subdirs.take(m) =~= v.subdirs.take(m));
        }
    }
}

/// The requests that [`crate::Path::ensure_exists`] makes for the pending
/// directories of `v`, from the `i+1`-th to the `k`-th (and, where `k` is
/// not the last, the failed creation of the next), where the file system
/// `fs` answers them, leave it as making them does in the model.
pub proof fn lemma_create_follows_model(fs: FsState, v: PathView, i: int, k: int, log: Seq<Entry>)
    requires
        0 <= i <= k <= v.subdirs.len(),
        k == v.subdirs.len() ==> log == creations_between(v, i, k),
        k < v.subdirs.len() ==> log == creations_between(v, i, k).push(
            (FsActionView::CreateDir(pending_prefix(v, k + 1)), log.last().1),
        ) && log.last().1 is Failed,
        faithful(fs, log),
    ensures
        create_from(fs, v, i) == (replay(fs, log), k == v.subdirs.len()),
    decreases v.subdirs.len() - i,
{
    let n = v.subdirs.len() as int;
    if i < n {
        let p = pending_prefix(v, i + 1);
        if i < k {
            assert(log[0] == (FsActionView::CreateDir(p), Report::Done));
            assert(can_make(fs, p));
            let rest = log.drop_first();
            if k == n {
                assert(rest =~= creations_between(v, i + 1, k));
            } else {
                assert(rest =~= creations_between(v, i + 1, k).push(
                    (FsActionView::CreateDir(pending_prefix(v, k + 1)), rest.last().1),
                ));
            }
            assert(step(fs, log[0].0) == (make_dir(fs, p), true));
            assert(faithful(make_dir(fs, p), rest));
            assert(replay(fs, log) == replay(make_dir(fs, p), rest));
            lemma_create_follows_model(make_dir(fs, p), v, i + 1, k, rest);
        } else {
            assert(log.len() == 1);
            assert(log[0].0 == FsActionView::CreateDir(p));
            assert(!can_make(fs, p));
            assert(log.drop_first().len() == 0);
            assert(replay(fs, log.drop_first()) == fs);
            assert(replay(fs, log) == replay(fs, log.drop_first()));
        }
    } else {
        assert(log.len() == 0);
    }
}

/// Replaying two logs one after the other is replaying the first, then the
/// second from where it left; and both are faithful exactly when each is,
/// from where it starts.
pub proof fn lemma_replay_concat(fs: FsState, a: Seq<Entry>, b: Seq<Entry>)
    ensures
        replay(fs, a + b) == replay(replay(fs, a), b),
        faithful(fs, a + b) == (faithful(fs, a) && faithful(replay(fs, a), b)),
    decreases a.len(),
{
    if a.len() == 0 {
        assert(a + b =~= b);
    } else {
        assert((a + b).drop_first() =~= a.drop_first() + b);
        assert((a + b)[0] == a[0]);
        lemma_replay_concat(step(fs, a[0].0).0, a.drop_first(), b);
    }
}

/// The requests of a successful [`crate::Path::initialize`] on a base that
/// is a directory, where the file system `fs` answers them, leave it as
/// making the pending directories does in the model.
pub proof fn lemma_initialise_follows_model<P: Fn(Probe, &FsPath) -> bool>(
    probe: &P,
    fs: FsState,
    v: PathView,
    log: Seq<Entry>,
)
    requires
        is_dir_in(fs, v.base),
        creation_log(probe, v, log, Ok(())),
        faithful(fs, log),
    ensures
        create_pending(fs, v) == (replay(fs, log), true),
{
    let n = v.subdirs.len() as int;
    if log.len() > 0 && log[0].0 == FsActionView::CreateDir(v.base) {
        let rest = log.drop_first();
        assert(log[0].1 is Done);
        assert(step(fs, log[0].0).0 == fs);
        assert(rest == creations_between(v, 0, n));
        lemma_create_follows_model(fs, v, 0, n, rest);
    } else {
        assert(log == creations_between(v, 0, n));
        lemma_create_follows_model(fs, v, 0, n, log);
    }
}

/// A successful initialisation, where the file system answers every request
/// made, adds the pending directories of `v` and changes nothing else; where
/// they all exist already, as after an earlier initialisation, it changes
/// nothing at all.
pub proof fn lemma_initialise_adds_only_pending<P: Fn(Probe, &FsPath) -> bool>(
    probe: &P,
    fs: FsState,
    v: PathView,
    log: Seq<Entry>,
)
    requires
        is_dir_in(fs, v.base),
        creation_log(probe, v, log, Ok(())),
        faithful(fs, log),
    ensures
        replay(fs, log) == with_chain(fs, v, v.subdirs.len() as int),
        (forall|k: int| 1 <= k <= v.subdirs.len() ==> #[trigger] is_dir_in(fs, pending_prefix(v, k)))
            ==> replay(fs, log) == fs,
{
    let n = v.subdirs.len() as int;
    lemma_initialise_follows_model(probe, fs, v, log);
    assert forall|k: int|
        1 <= k <= n && #[trigger] fs.contains_key(pending_prefix(v, k)) implies fs[pending_prefix(v, k)] by {
        if !fs[pending_prefix(v, k)] {
            lemma_create_blocked(fs, v, 0, k);
        }
    }
    lemma_create_pending(fs, v);
    if forall|k: int| 1 <= k <= n ==> #[trigger] is_dir_in(fs, pending_prefix(v, k)) {
        lemma_with_chain(fs, v, n);
        assert(with_chain(fs, v, n) =~= fs) by {
            assert forall|p: Seq<Seq<char>>| #[trigger] in_chain(v, p, n) implies fs.contains_key(p) && fs[p] by {
                let j = p.len() - v.base.len();
                assert(is_dir_in(fs, pending_prefix(v, j)));
            }
        }
    }
}

/// Making the pending directories of `v` from the `i`-th on fails where a
/// later pending path holds a file and nothing made before it removes that.
proof fn lemma_create_blocked(fs: FsState, v: PathView, i: int, k: int)
    requires
        0 <= i < k <= v.subdirs.len(),
        fs.contains_key(pending_prefix(v, k)),
        !fs[pending_prefix(v, k)],
    ensures
        !create_from(fs, v, i).1,
    decreases v.subdirs.len() - i,
{
    let p = pending_prefix(v, i + 1);
    if can_make(fs, p) {
        if i + 1 < k {
            assert(p.len() < pending_prefix(v, k).len());
            lemma_create_blocked(make_dir(fs, p), v, i + 1, k);
        } else {
            assert(p == pending_prefix(v, k));
        }
    }
}

/// Initialising a path whose pending part does not exist yet and then
/// releasing it, where the file system answers every request made, leaves
/// the file system exactly as it was, with nothing left pending.
pub proof fn lemma_initialise_then_release<P: Fn(Probe, &FsPath) -> bool>(
    probe: &P,
    fs: FsState,
    v: PathView,
    w: PathView,
    init: Seq<Entry>,
    release: Seq<Entry>,
    r: Result<(), Error>,
)
    requires
        is_dir_in(fs, v.base),
        v.subdirs.len() > 0 ==> absent(fs, pending_prefix(v, 1)),
        creation_log(probe, v, init, Ok(())),
        removal_log(v, w, release, r),
        faithful(fs, init + release),
    ensures
        replay(fs, init + release) == fs,
        w.subdirs.len() == 0,
        r is Ok,
{
    lemma_replay_concat(fs, init, release);
    lemma_initialise_follows_model(probe, fs, v, init);
    lemma_round_trip(fs, v);
    let m = w.subdirs.len() as int;
    lemma_remove_follows_model(replay(fs, init), v, m, release);
    assert(v.subdirs.take(m).len() == m);
}

/// Releasing a path, where the file system answers every request made,
/// never removes content that lies inside one of its pending directories
/// and is not itself pending: that content stays as it was, and the
/// directory holding it stays pending.
pub proof fn lemma_release_keeps_foreign_content(
    fs: FsState,
    v: PathView,
    w: PathView,
    release: Seq<Entry>,
    r: Result<(), Error>,
    k: int,
    q: Seq<Seq<char>>,
)
    requires
        removal_log(v, w, release, r),
        faithful(fs, release),
        1 <= k <= v.subdirs.len(),
        fs.contains_key(q),
        below(q, pending_prefix(v, k)),
        !in_chain(v, q, v.subdirs.len() as int),
    ensures
        replay(fs, release).contains_key(q),
        replay(fs, release)[q] == fs[q],
        w.subdirs.len() >= k,
{
    let m = w.subdirs.len() as int;
    lemma_remove_follows_model(fs, v, m, release);
    lemma_foreign_content_kept(fs, v, k, q);
    assert(v.subdirs.take(m).len() == m);
}

/// A handle for `base` with the pending names `shared` and then `leaf`.
pub open spec fn branch(base: Seq<Seq<char>>, shared: Seq<Seq<char>>, leaf: Seq<char>) -> PathView {
    PathView { base, subdirs: shared.push(leaf), error: None }
}

/// Two handles whose pending directories share the ancestors `shared` and
/// end in different leaves: releasing the first removes its leaf only, as
/// the shared ancestors still hold the other leaf; releasing the second then
/// removes everything both created, down to the base that existed before.
pub proof fn lemma_shared_ancestors(
    fs: FsState,
    base: Seq<Seq<char>>,
    shared: Seq<Seq<char>>,
    a: Seq<char>,
    b: Seq<char>,
)
    requires
        a != b,
        is_dir_in(fs, base),
        absent(fs, pending_prefix(branch(base, shared, a), 1)),
        absent(fs, pending_prefix(branch(base, shared, b), 1)),
    ensures
        ({
            let v1 = branch(base, shared, a);
            let v2 = branch(base, shared, b);
            let first = create_pending(fs, v1);
            let second = create_pending(first.0, v2);
            let released = remove_pending(second.0, v1);
            &&& first.1
            &&& second.1
            &&& released.1 == shared
            &&& released.0 == second.0.remove(current(v1))
            &&& is_dir_in(released.0, current(v2))
            &&& is_dir_in(released.0, base)
            &&& remove_pending(released.0, v2) == (fs, Seq::<Seq<char>>::empty())
        }),
{
    let v1 = branch(base, shared, a);
    let v2 = branch(base, shared, b);
    let m = shared.len() as int;
    let n = m + 1;
    let c1 = current(v1);
    let c2 = current(v2);
    assert(c1 =~= pending_prefix(v1, n));
    assert(c2 =~= pending_prefix(v2, n));
    assert(c1 != c2) by {
        assert(c1[c1.len() - 1] == a);
        assert(c2[c2.len() - 1] == b);
    }
    assert forall|j: int| 0 <= j <= m implies #[trigger] pending_prefix(v1, j) == pending_prefix(v2, j) by {
        assert(v1.subdirs.take(j) =~= v2.subdirs.take(j));
    }
    // Nothing of either chain exists yet.
    assert forall|j: int| 1 <= j <= n implies !#[trigger] fs.contains_key(pending_prefix(v1, j)) by {
        lemma_under_first(v1, j, pending_prefix(v1, j));
    }
    assert forall|j: int| 1 <= j <= n implies !#[trigger] fs.contains_key(pending_prefix(v2, j)) by {
        lemma_under_first(v2, j, pending_prefix(v2, j));
    }
    // Creation.
    lemma_create_pending(fs, v1);
    let s1 = with_chain(fs, v1, n);
    lemma_with_chain(fs, v1, n);
    assert(!in_chain(v1, base, n));
    assert(s1.contains_key(base));
    assert(is_dir_in(s1, base));
    assert forall|k: int| 1 <= k <= n && #[trigger] s1.contains_key(pending_prefix(v2, k)) implies s1[pending_prefix(v2, k)] by {
        if k <= m {
            assert(in_chain(v1, pending_prefix(v1, k), n));
        } else {
            assert(!in_chain(v1, c2, n));
        }
    }
    lemma_create_pending(s1, v2);
    let s2 = with_chain(s1, v2, n);
    lemma_with_chain(s1, v2, n);
    // Every pending directory of both handles is a directory in `s2`.
    assert forall|j: int| 1 <= j <= n implies #[trigger] is_dir_in(s2, pending_prefix(v1, j)) by {
        assert(in_chain(v1, pending_prefix(v1, j), n));
    }
    assert forall|j: int| 1 <= j <= n implies #[trigger] is_dir_in(s2, pending_prefix(v2, j)) by {
        assert(in_chain(v2, pending_prefix(v2, j), n));
    }
    // Releasing the first handle stops at the shared ancestors.
    if m > 0 {
        assert(below(c2, pending_prefix(v1, m))) by {
            assert(c2.take(pending_prefix(v1, m).len() as int) =~= pending_prefix(v2, m));
        }
        assert(!in_chain(v1, c2, n));
        assert(s2.contains_key(c2));
        assert(foreign_below(s2, v1, m));
    }
    assert(!foreign_below(s2, v1, n)) by {
        if foreign_below(s2, v1, n) {
            let q = choose|q: Seq<Seq<char>>|
                #[trigger] s2.contains_key(q) && below(q, pending_prefix(v1, n)) && !in_chain(v1, q, n);
            if fs.contains_key(q) {
                lemma_under_first(v1, n, q);
            } else if in_chain(v2, q, n) {
                assert(q.len() <= c1.len());
            }
        }
    }
    lemma_removal_stops(s2, v1, m);
    let s3 = s2.remove(c1);
    assert(!in_chain(v2, base, n));
    assert(s2.contains_key(base));
    assert(base.len() < c1.len());
    assert(is_dir_in(s3, base));
    assert(stripped(s2, v1, m) =~= s3) by {
        assert forall|p: Seq<Seq<char>>| in_chain(v1, p, n) && !in_chain(v1, p, m) <==> p == c1 by {
            if p == c1 {
                assert(in_chain(v1, p, n));
            }
        }
    }
    assert(v1.subdirs.take(m) =~= shared);
    // Releasing the second handle removes everything that was created.
    assert forall|j: int| 1 <= j <= n implies #[trigger] is_dir_in(s3, pending_prefix(v2, j)) by {
        assert(is_dir_in(s2, pending_prefix(v2, j)));
        if j <= m {
            assert(pending_prefix(v2, j).len() < c1.len());
        }
    }
    assert forall|j: int| 0 < j <= n implies !#[trigger] foreign_below(s3, v2, j) by {
        if foreign_below(s3, v2, j) {
            let q = choose|q: Seq<Seq<char>>|
                #[trigger] s3.contains_key(q) && below(q, pending_prefix(v2, j)) && !in_chain(v2, q, n);
            if fs.contains_key(q) {
                lemma_under_first(v2, j, q);
            } else if in_chain(v1, q, n) {
                let i = q.len() - base.len();
                assert(q != c1);
                assert(i <= m);
                assert(in_chain(v2, q, n));
            }
        }
    }
    lemma_removal_stops(s3, v2, 0);
    assert(stripped(s3, v2, 0) =~= fs) by {
        assert forall|p: Seq<Seq<char>>| #[trigger] fs.contains_key(p) implies !in_chain(v1, p, n) && !in_chain(v2, p, n) by {
            if in_chain(v1, p, n) {
                let i = p.len() - base.len();
                assert(!fs.contains_key(pending_prefix(v1, i)));
            }
            if in_chain(v2, p, n) {
                let i = p.len() - base.len();
                assert(!fs.contains_key(pending_prefix(v2, i)));
            }
        }
        assert forall|p: Seq<Seq<char>>| in_chain(v1, p, n) && p != c1 implies in_chain(v2, p, n) by {
            let i = p.len() - base.len();
            assert(i <= m);
        }
    }
    assert(v2.subdirs.take(0) =~= Seq::<Seq<char>>::empty());
}

/// Two handles whose pending directories share the ancestors `shared` and
/// end in different leaves, both initialised and then released in turn,
/// where the file system answers every request made: releasing the first
/// removes its leaf only and leaves `shared` pending, the other leaf still
/// there; releasing the second removes everything that was created, down to
/// the base, which stays.
pub proof fn lemma_release_shared<P: Fn(Probe, &FsPath) -> bool>(
    probe: &P,
    fs: FsState,
    base: Seq<Seq<char>>,
    shared: Seq<Seq<char>>,
    a: Seq<char>,
    b: Seq<char>,
    init1: Seq<Entry>,
    init2: Seq<Entry>,
    w1: PathView,
    release1: Seq<Entry>,
    r1: Result<(), Error>,
    w2: PathView,
    release2: Seq<Entry>,
    r2: Result<(), Error>,
)
    requires
        a != b,
        is_dir_in(fs, base),
        absent(fs, pending_prefix(branch(base, shared, a), 1)),
        absent(fs, pending_prefix(branch(base, shared, b), 1)),
        creation_log(probe, branch(base, shared, a), init1, Ok(())),
        creation_log(probe, branch(base, shared, b), init2, Ok(())),
        removal_log(branch(base, shared, a), w1, release1, r1),
        removal_log(branch(base, shared, b), w2, release2, r2),
        faithful(fs, init1 + init2 + release1 + release2),
    ensures
        ({
            let made = replay(fs, init1 + init2);
            let between = replay(made, release1);
            &&& w1.subdirs == shared
            &&& between == made.remove(current(branch(base, shared, a)))
            &&& is_dir_in(between, current(branch(base, shared, b)))
            &&& is_dir_in(between, base)
            &&& w2.subdirs.len() == 0
            &&& replay(between, release2) == fs
        }),
{
    let v1 = branch(base, shared, a);
    let v2 = branch(base, shared, b);
    lemma_replay_concat(fs, init1 + init2 + release1, release2);
    lemma_replay_concat(fs, init1 + init2, release1);
    lemma_replay_concat(fs, init1, init2);
    lemma_shared_ancestors(fs, base, shared, a, b);
    lemma_initialise_follows_model(probe, fs, v1, init1);
    let s1 = replay(fs, init1);
    assert forall|j: int| 1 <= j <= v1.subdirs.len() implies !#[trigger] fs.contains_key(pending_prefix(v1, j)) by {
        lemma_under_first(v1, j, pending_prefix(v1, j));
    }
    lemma_create_pending(fs, v1);
    lemma_with_chain(fs, v1, v1.subdirs.len() as int);
    assert(!in_chain(v1, base, v1.subdirs.len() as int));
    assert(s1.contains_key(base));
    lemma_initialise_follows_model(probe, s1, v2, init2);
    let made = replay(s1, init2);
    let m1 = w1.subdirs.len() as int;
    lemma_remove_follows_model(made, v1, m1, release1);
    assert(v1.subdirs.take(m1).len() == m1);
    let between = replay(made, release1);
    assert(base.len() < current(v1).len());
    let m2 = w2.subdirs.len() as int;
    lemma_remove_follows_model(between, v2, m2, release2);
    assert(v2.subdirs.take(m2).len() == m2);
}

} // verus!
