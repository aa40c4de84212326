use vstd::prelude::*;

use crate::error::{Error, ErrorView};
use crate::fs_path::{FsPath, names_view};
use crate::io::{FsAction, FsActionView, FsActor, Probe, Report, ask, probe_total, probed};
use crate::resolve::{closest_ancestor, malformed_at, stops_at};

verus! {

/// A path split into a base that existed when it was resolved and the names
/// of the directories below it that did not: those pending directories are
/// the ones that [`Path::initialize`] creates and [`Path::remove`] removes.
#[derive(Debug, PartialEq, Eq)]
pub struct Path {
    /// The part of the path that is never removed.
    pub base_path: FsPath,
    /// The pending directories below `base_path`, shallowest first.
    pub subdirs: Vec<String>,
    /// Why the path could not be resolved, if it could not.
    pub error: Option<Error>,
}

/// The value a [`Path`] stands for.
pub struct PathView {
    pub base: Seq<Seq<char>>,
    pub subdirs: Seq<Seq<char>>,
    pub error: Option<ErrorView>,
}

impl View for Path {
    type V = PathView;

    open spec fn view(&self) -> PathView {
        PathView {
            base: self.base_path@,
            subdirs: names_view(self.subdirs@),
            error: match self.error {
                Some(e) => Some(e@),
                None => None,
            },
        }
    }
}

/// The full path: the base with every pending directory below it.
pub open spec fn current(v: PathView) -> Seq<Seq<char>> {
    v.base + v.subdirs
}

/// The base with the first `k` pending directories below it.
pub open spec fn pending_prefix(v: PathView, k: int) -> Seq<Seq<char>> {
    v.base + v.subdirs.take(k)
}

/// `v` with its pending directories folded into the base.
pub open spec fn persisted(v: PathView) -> PathView {
    PathView { base: current(v), subdirs: Seq::empty(), error: v.error }
}

/// `v` is what resolving `path` gives when `probe` answers: where the walk
/// succeeds, the closest existing ancestor as base and the names below it
/// pending; where it fails, nothing but the error.
pub open spec fn resolved<P: Fn(Probe, &FsPath) -> bool>(
    probe: &P,
    path: Seq<Seq<char>>,
    v: PathView,
) -> bool {
    match v.error {
        None => {
            &&& stops_at(probe, path, v.base.len() as int)
            &&& v.base == path.take(v.base.len() as int)
            &&& current(v) == path
        },
        Some(e) => {
            &&& v.base.len() == 0
            &&& v.subdirs.len() == 0
            &&& exists|d: int| malformed_at(probe, path, d) && e == ErrorView::MalformedPath(path.take(d))
        },
    }
}

/// `w` is `v` extended by the directory `name`: folded into the base where
/// `probe` reports that the extended path exists, pending otherwise.
pub open spec fn extended<P: Fn(Probe, &FsPath) -> bool>(
    probe: &P,
    v: PathView,
    name: Seq<char>,
    w: PathView,
) -> bool {
    let target = current(v).push(name);
    ||| probed(probe, Probe::Exists, target, true) && w == (PathView {
        base: target,
        subdirs: Seq::empty(),
        error: v.error,
    })
    ||| probed(probe, Probe::Exists, target, false) && w == (PathView {
        base: v.base,
        subdirs: v.subdirs.push(name),
        error: v.error,
    })
}

/// One request made of the file system, with what it reported.
pub type Entry = (FsActionView, Report);

/// `after` is `before` with more entries at its end.
pub open spec fn extends(before: Seq<Entry>, after: Seq<Entry>) -> bool {
    before.len() <= after.len() && after.take(before.len() as int) == before
}

/// The entries that `after` holds beyond `before`.
pub open spec fn appended(before: Seq<Entry>, after: Seq<Entry>) -> Seq<Entry> {
    after.skip(before.len() as int)
}

/// `rep` is what the result `r` of one request says: done exactly when `r`
/// is `Ok`, and a failure for the reason an `IoError` holds.
pub open spec fn reported_as(rep: Report, r: Result<(), Error>) -> bool {
    match r {
        Ok(_) => rep == Report::Done,
        Err(e) => e matches Error::IoError(m) && rep == Report::Failed(m@),
    }
}

/// Creating the `i+1`-th to `k`-th pending directories of `v`, shallowest
/// first, each reported done.
pub open spec fn creations_between(v: PathView, i: int, k: int) -> Seq<Entry> {
    Seq::new(
        (k - i) as nat,
        |t: int| (FsActionView::CreateDir(pending_prefix(v, i + t + 1)), Report::Done),
    )
}

/// Creating the first `k` pending directories of `v`, each reported done.
pub open spec fn creations(v: PathView, k: int) -> Seq<Entry> {
    creations_between(v, 0, k)
}

/// Removing the pending directories of `v` deeper than the `m`-th, deepest
/// first, each reported done.
pub open spec fn removals(v: PathView, m: int) -> Seq<Entry> {
    Seq::new(
        (v.subdirs.len() - m) as nat,
        |t: int| (FsActionView::RemoveDir(pending_prefix(v, v.subdirs.len() - t)), Report::Done),
    )
}

/// `log` holds the requests that create the pending directories of `v`,
/// shallowest first, up to the first that fails, and `r` is the matching
/// result: `Ok` after all of them, or `DirectoryCreationError` of the one that
/// failed.
pub open spec fn pending_log(v: PathView, log: Seq<Entry>, r: Result<(), Error>) -> bool {
    match r {
        Ok(_) => log == creations(v, v.subdirs.len() as int),
        Err(e) => {
            let k = log.len() as int;
            &&& 1 <= k <= v.subdirs.len()
            &&& log.drop_last() == creations(v, k - 1)
            &&& log.last().0 == FsActionView::CreateDir(pending_prefix(v, k))
            &&& log.last().1 is Failed
            &&& e@ == ErrorView::DirectoryCreationError(pending_prefix(v, k))
        },
    }
}

/// `log` holds exactly the requests that making `v` exist makes, and `r` is
/// the matching result: the base is created first where `probe` reported it
/// missing (a failure there is `DirectoryCreationError` of the base), then
/// the pending directories as [`pending_log`] says.
pub open spec fn creation_log<P: Fn(Probe, &FsPath) -> bool>(
    probe: &P,
    v: PathView,
    log: Seq<Entry>,
    r: Result<(), Error>,
) -> bool {
    if log.len() > 0 && log[0].0 == FsActionView::CreateDir(v.base) {
        &&& probed(probe, Probe::Exists, v.base, false)
        &&& match log[0].1 {
            Report::Done => pending_log(v, log.drop_first(), r),
            Report::Failed(_) => {
                &&& log.len() == 1
                &&& r matches Err(e) && e@ == ErrorView::DirectoryCreationError(v.base)
            },
        }
    } else {
        probed(probe, Probe::Exists, v.base, true) && pending_log(v, log, r)
    }
}

/// `log` holds exactly the requests that initialising `v` makes, and `r` is
/// the matching result: nothing where the path was not resolved (the result
/// is its error); otherwise the requests of [`creation_log`], and after they
/// all succeeded, `PathIsNotADirectory` where `probe` reports that the full
/// path is not a directory.
pub open spec fn init_log<P: Fn(Probe, &FsPath) -> bool>(
    probe: &P,
    v: PathView,
    log: Seq<Entry>,
    r: Result<(), Error>,
) -> bool {
    match v.error {
        Some(ev) => log.len() == 0 && (r matches Err(e) && e@ == ev),
        None => {
            ||| r is Err && creation_log(probe, v, log, r)
            ||| creation_log(probe, v, log, Ok(())) && match r {
                Ok(_) => probed(probe, Probe::IsDir, current(v), true),
                Err(e) => probed(probe, Probe::IsDir, current(v), false) && e@
                    == ErrorView::PathIsNotADirectory(current(v)),
            }
        },
    }
}

/// `log` holds exactly the requests that emptying the directory `cur` makes,
/// and `r` is the matching result: nothing is requested where `probe`
/// reports `cur` missing or not a directory (the result says which);
/// otherwise one request to remove its contents.
pub open spec fn contents_log<P: Fn(Probe, &FsPath) -> bool>(
    probe: &P,
    cur: Seq<Seq<char>>,
    log: Seq<Entry>,
    r: Result<(), Error>,
) -> bool {
    ||| probed(probe, Probe::Exists, cur, false) && log.len() == 0 && (r matches Err(e) && e@
        == ErrorView::PathDoesNotExist(cur))
    ||| probed(probe, Probe::Exists, cur, true) && probed(probe, Probe::IsDir, cur, false)
        && log.len() == 0 && (r matches Err(e) && e@ == ErrorView::PathIsNotADirectory(cur))
    ||| {
        &&& probed(probe, Probe::Exists, cur, true)
        &&& probed(probe, Probe::IsDir, cur, true)
        &&& log.len() == 1
        &&& log[0].0 == FsActionView::RemoveContents(cur)
        &&& reported_as(log[0].1, r)
    }
}

/// `log` holds exactly the requests that releasing `v` makes, leaving `w`:
/// the pending directories below the one `w` keeps last are removed deepest
/// first, each reported done; where any stay pending, one more request, for
/// the deepest that stays, reported failed with the reason `r` holds.
pub open spec fn removal_log(v: PathView, w: PathView, log: Seq<Entry>, r: Result<(), Error>) -> bool {
    let m = w.subdirs.len() as int;
    &&& w.base == v.base
    &&& w.error == v.error
    &&& m <= v.subdirs.len()
    &&& w.subdirs == v.subdirs.take(m)
    &&& if m == 0 {
        log == removals(v, 0) && r is Ok
    } else {
        &&& log == removals(v, m).push(
            (FsActionView::RemoveDir(pending_prefix(v, m)), log.last().1),
        )
        &&& log.last().1 is Failed
        &&& reported_as(log.last().1, r)
    }
}

impl Path {
    /// A path whose whole extent is the base: nothing of it is pending.
    pub fn new_persistent(path: &FsPath) -> (r: Path)
        ensures
            r@ == (PathView { base: path@, subdirs: Seq::empty(), error: None }),
    {
        let r = Path { base_path: path.clone(), subdirs: Vec::new(), error: None };
        assert(r@.subdirs =~= Seq::<Seq<char>>::empty());
        r
    }

    /// Resolves `path`: the base is its closest ancestor that `probe`
    /// reports to exist, and the names below it are pending. When `path`
    /// cannot be resolved, base and pending names are empty and the error is
    /// kept.
    pub fn new<P: Fn(Probe, &FsPath) -> bool>(path: &FsPath, probe: &P) -> (r: Path)
        requires
            probe_total(probe),
        ensures
            resolved(probe, path@, r@),
    {
        match closest_ancestor(path, probe) {
            Ok((base_path, subdirs)) => Path { base_path, subdirs, error: None },
            Err(e) => {
                let r = Path { base_path: FsPath::new(), subdirs: Vec::new(), error: Some(e) };
                assert(r@.subdirs.len() == 0);
                r
            },
        }
    }

    /// This path with its pending directories folded into the base.
    pub fn keep(self) -> (r: Path)
        ensures
            r@ == persisted(self@),
    {
        let mut r = self;
        r.make_persistent();
        r
    }

    /// This path extended by `subdir`, as [`Path::add_subdir`] extends it.
    pub fn with_subdir<P: Fn(Probe, &FsPath) -> bool>(self, subdir: &str, probe: &P) -> (r: Path)
        requires
            probe_total(probe),
        ensures
            extended(probe, self@, subdir@, r@),
    {
        let mut r = self;
        r.add_subdir(subdir, probe);
        r
    }

    /// Folds the pending directories into the base, so that nothing of the
    /// path is removed any more.
    pub fn make_persistent(&mut self)
        ensures
            final(self)@ == persisted(old(self)@),
    {
        self.base_path = self.to_path_buf();
        self.subdirs.clear();
        assert(self@.subdirs =~= Seq::<Seq<char>>::empty());
    }

    /// Extends the path by the directory `subdir`. Where `probe` reports
    /// that the extended path exists, it is not ours to remove: it becomes the
    /// base and nothing is pending. Otherwise `subdir` is one more pending
    /// directory.
    pub fn add_subdir<P: Fn(Probe, &FsPath) -> bool>(&mut self, subdir: &str, probe: &P)
        requires
            probe_total(probe),
        ensures
            extended(probe, old(self)@, subdir@, final(self)@),
    {
        let name = String::from_str(subdir);
        let target = self.to_path_buf().child(&name);
        if ask(probe, Probe::Exists, &target) {
            self.base_path = target;
            self.subdirs.clear();
            assert(self@.subdirs =~= Seq::<Seq<char>>::empty());
        } else {
            self.subdirs.push(name);
            assert(self@.subdirs =~= old(self)@.subdirs.push(subdir@));
        }
    }

    /// Removes the pending directories bottom-up: the deepest first, each
    /// only when empty, stopping at the first that cannot be removed. A
    /// removed directory is no longer pending. Fails with the reason the file
    /// system gave when it stops before all are removed. No other request is
    /// made.
    pub fn remove<A: Fn(&FsAction) -> Result<(), String>>(&mut self, fs: &mut FsActor<A>) -> (r:
        Result<(), Error>)
        requires
            old(fs).ready(),
        ensures
            final(fs).ready(),
            final(fs).action() == old(fs).action(),
            extends(old(fs).history(), final(fs).history()),
            removal_log(
                old(self)@,
                final(self)@,
                appended(old(fs).history(), final(fs).history()),
                r,
            ),
    {
        let ghost v = self@;
        let ghost h0 = fs.history();
        let ghost n = v.subdirs.len() as int;
        assert(removals(v, n) =~= Seq::<Entry>::empty());
        assert(v.subdirs.take(n) =~= v.subdirs);
        while self.subdirs.len() > 0
            invariant
                fs.ready(),
                fs.action() == old(fs).action(),
                h0 == old(fs).history(),
                v == old(self)@,
                n == v.subdirs.len(),
                self@.base == v.base,
                self@.error == v.error,
                self@.subdirs.len() <= n,
                self@.subdirs == v.subdirs.take(self@.subdirs.len() as int),
                fs.history() == h0 + removals(v, self@.subdirs.len() as int),
            decreases self@.subdirs.len(),
        {
            let ghost k = self@.subdirs.len() as int;
            let p = self.to_path_buf();
            assert(current(self@) =~= pending_prefix(v, k));
            match fs.perform(FsAction::RemoveDir(p)) {
                Ok(()) => {
                    self.subdirs.pop();
                    assert(self@.subdirs =~= v.subdirs.take(k - 1));
                    assert(removals(v, k - 1) =~= removals(v, k).push(
                        (FsActionView::RemoveDir(pending_prefix(v, k)), Report::Done),
                    ));
                },
                Err(m) => {
                    let r = Err(Error::IoError(m));
                    proof {
                        let log = appended(h0, fs.history());
                        assert(log =~= removals(v, k).push(
                            (FsActionView::RemoveDir(pending_prefix(v, k)), Report::Failed(m@)),
                        ));
                        assert(fs.history().take(h0.len() as int) =~= h0);
                    }
                    return r;
                },
            }
        }
        proof {
            assert(appended(h0, fs.history()) =~= removals(v, 0));
            assert(fs.history().take(h0.len() as int) =~= h0);
        }
        Ok(())
    }

    /// Makes the full path exist: creates the base where `probe` reports it
    /// missing, then each pending directory, shallowest first. Stops at the
    /// first creation that fails, with `DirectoryCreationError` of its path;
    /// what was created before stays. No other request is made.
    pub fn ensure_exists<P: Fn(Probe, &FsPath) -> bool, A: Fn(&FsAction) -> Result<(), String>>(
        &self,
        probe: &P,
        fs: &mut FsActor<A>,
    ) -> (r: Result<(), Error>)
        requires
            probe_total(probe),
            old(fs).ready(),
        ensures
            final(fs).ready(),
            final(fs).action() == old(fs).action(),
            extends(old(fs).history(), final(fs).history()),
            creation_log(probe, self@, appended(old(fs).history(), final(fs).history()), r),
    {
        let ghost v = self@;
        let ghost h0 = fs.history();
        let base = &self.base_path;
        let mut made_base = false;
        if !ask(probe, Probe::Exists, base) {
            match fs.perform(FsAction::CreateDir(base.clone())) {
                Ok(()) => {
                    made_base = true;
                },
                Err(m) => {
                    let r = Err(Error::DirectoryCreationError(base.clone()));
                    proof {
                        let log = appended(h0, fs.history());
                        assert(log =~= seq![(FsActionView::CreateDir(v.base), Report::Failed(m@))]);
                        assert(fs.history().take(h0.len() as int) =~= h0);
                    }
                    return r;
                },
            }
        }
        let ghost h1 = fs.history();
        assert(made_base ==> h1 == h0.push((FsActionView::CreateDir(v.base), Report::Done)));
        assert(!made_base ==> h1 == h0);
        let n = self.subdirs.len();
        let mut current = base.clone();
        let mut i: usize = 0;
        assert(v.subdirs.take(0) =~= Seq::<Seq<char>>::empty());
        assert(creations(v, 0) =~= Seq::<Entry>::empty());
        while i < n
            invariant
                i <= n == v.subdirs.len(),
                v == self@,
                fs.ready(),
                fs.action() == old(fs).action(),
                h0 == old(fs).history(),
                made_base ==> h1 == h0.push((FsActionView::CreateDir(v.base), Report::Done)),
                !made_base ==> h1 == h0,
                made_base ==> probed(probe, Probe::Exists, v.base, false),
                !made_base ==> probed(probe, Probe::Exists, v.base, true),
                current@ == pending_prefix(v, i as int),
                fs.history() == h1 + creations(v, i as int),
            decreases n - i,
        {
            current = current.child(&self.subdirs[i]);
            assert(current@ =~= pending_prefix(v, i + 1));
            match fs.perform(FsAction::CreateDir(current.clone())) {
                Ok(()) => {
                    assert(creations(v, i + 1) =~= creations(v, i as int).push(
                        (FsActionView::CreateDir(pending_prefix(v, i + 1)), Report::Done),
                    ));
                },
                Err(m) => {
                    let r = Err(Error::DirectoryCreationError(current));
                    proof {
                        let log = appended(h0, fs.history());
                        let tail0 = creations(v, i as int).push(
                            (FsActionView::CreateDir(pending_prefix(v, i + 1)), Report::Failed(m@)),
                        );
                        let tail = tail0;
                        assert(fs.history() =~= h1 + tail);
                        assert(tail.drop_last() =~= creations(v, i as int));
                        if made_base {
                            assert(log =~= seq![(FsActionView::CreateDir(v.base), Report::Done)] + tail);
                            assert(log.drop_first() =~= tail);
                        } else {
                            assert(log =~= tail);
                            if log.len() > 0 && log[0].0 == FsActionView::CreateDir(v.base) {
                                assert(pending_prefix(v, 1).len() == v.base.len() + 1);
                            }
                        }
                        assert(fs.history().take(h0.len() as int) =~= h0);
                    }
                    return r;
                },
            }
            i = i + 1;
        }
        proof {
            let log = appended(h0, fs.history());
            assert(fs.history().take(h0.len() as int) =~= h0);
            if made_base {
                assert(log =~= seq![(FsActionView::CreateDir(v.base), Report::Done)] + creations(v, n as int));
                assert(log.drop_first() =~= creations(v, n as int));
            } else {
                assert(log =~= creations(v, n as int));
                if log.len() > 0 && log[0].0 == FsActionView::CreateDir(v.base) {
                    assert(pending_prefix(v, 1).len() == v.base.len() + 1);
                }
            }
        }
        Ok(())
    }

    /// Prepares the path for use: fails with the resolution error if there
    /// was one, asking nothing of the file system; otherwise makes the full
    /// path exist as [`Path::ensure_exists`] does, then fails with
    /// `PathIsNotADirectory` where `probe` reports that the full path is not
    /// a directory.
    pub fn initialize<P: Fn(Probe, &FsPath) -> bool, A: Fn(&FsAction) -> Result<(), String>>(
        &self,
        probe: &P,
        fs: &mut FsActor<A>,
    ) -> (r: Result<(), Error>)
        requires
            probe_total(probe),
            old(fs).ready(),
        ensures
            final(fs).ready(),
            final(fs).action() == old(fs).action(),
            extends(old(fs).history(), final(fs).history()),
            init_log(probe, self@, appended(old(fs).history(), final(fs).history()), r),
    {
        if let Some(e) = &self.error {
            let r = Err(e.clone());
            proof {
                assert(appended(fs.history(), fs.history()) =~= Seq::<Entry>::empty());
                assert(fs.history().take(fs.history().len() as int) =~= fs.history());
            }
            return r;
        }
        match self.ensure_exists(probe, fs) {
            Ok(()) => {},
            Err(e) => return Err(e),
        }
        self.verify_is_directory(probe)
    }

    /// Fails with `PathDoesNotExist` where `probe` reports that the full path
    /// does not exist.
    pub fn verify_exists<P: Fn(Probe, &FsPath) -> bool>(&self, probe: &P) -> (r: Result<(), Error>)
        requires
            probe_total(probe),
        ensures
            probed(probe, Probe::Exists, current(self@), r is Ok),
            r matches Err(e) ==> e@ == ErrorView::PathDoesNotExist(current(self@)),
    {
        let path = self.to_path_buf();
        if !ask(probe, Probe::Exists, &path) {
            return Err(Error::PathDoesNotExist(path));
        }
        Ok(())
    }

    /// Fails with `PathIsNotADirectory` where `probe` reports that the full
    /// path is not a directory.
    pub fn verify_is_directory<P: Fn(Probe, &FsPath) -> bool>(&self, probe: &P) -> (r: Result<
        (),
        Error,
    >)
        requires
            probe_total(probe),
        ensures
            probed(probe, Probe::IsDir, current(self@), r is Ok),
            r matches Err(e) ==> e@ == ErrorView::PathIsNotADirectory(current(self@)),
    {
        let path = self.to_path_buf();
        if !ask(probe, Probe::IsDir, &path) {
            return Err(Error::PathIsNotADirectory(path));
        }
        Ok(())
    }

    /// Removes everything inside the directory at the full path. Fails with
    /// `PathDoesNotExist` or `PathIsNotADirectory` where `probe` reports so,
    /// asking nothing of the file system then, and with the reason the file
    /// system gives where the removal fails. No other request is made.
    pub fn remove_contents<P: Fn(Probe, &FsPath) -> bool, A: Fn(&FsAction) -> Result<(), String>>(
        &self,
        probe: &P,
        fs: &mut FsActor<A>,
    ) -> (r: Result<(), Error>)
        requires
            probe_total(probe),
            old(fs).ready(),
        ensures
            final(fs).ready(),
            final(fs).action() == old(fs).action(),
            extends(old(fs).history(), final(fs).history()),
            contents_log(probe, current(self@), appended(old(fs).history(), final(fs).history()), r),
    {
        let ghost h0 = fs.history();
        proof {
            assert(appended(h0, h0) =~= Seq::<Entry>::empty());
            assert(h0.take(h0.len() as int) =~= h0);
        }
        match self.verify_exists(probe) {
            Ok(()) => {},
            Err(e) => return Err(e),
        }
        match self.verify_is_directory(probe) {
            Ok(()) => {},
            Err(e) => return Err(e),
        }
        let r = match fs.perform(FsAction::RemoveContents(self.to_path_buf())) {
            Ok(()) => Ok(()),
            Err(m) => Err(Error::IoError(m)),
        };
        proof {
            assert(appended(h0, fs.history()) =~= seq![(
                FsActionView::RemoveContents(current(self@)),
                fs.history().last().1,
            )]);
            assert(fs.history().take(h0.len() as int) =~= h0);
        }
        r
    }

    /// The full path: the base with every pending directory below it.
    pub fn to_path_buf(&self) -> (r: FsPath)
        ensures
            r@ == current(self@),
    {
        self.base_path.descend(&self.subdirs)
    }

    /// Whether `probe` reports that the full path exists.
    pub fn path_exists<P: Fn(Probe, &FsPath) -> bool>(&self, probe: &P) -> (r: bool)
        requires
            probe_total(probe),
        ensures
            probed(probe, Probe::Exists, current(self@), r),
    {
        ask(probe, Probe::Exists, &self.to_path_buf())
    }

    /// Whether `probe` reports that the full path is a directory.
    pub fn is_dir<P: Fn(Probe, &FsPath) -> bool>(&self, probe: &P) -> (r: bool)
        requires
            probe_total(probe),
        ensures
            probed(probe, Probe::IsDir, current(self@), r),
    {
        ask(probe, Probe::IsDir, &self.to_path_buf())
    }

    /// Whether `probe` reports that the full path is a file.
    pub fn is_file<P: Fn(Probe, &FsPath) -> bool>(&self, probe: &P) -> (r: bool)
        requires
            probe_total(probe),
        ensures
            probed(probe, Probe::IsFile, current(self@), r),
    {
        ask(probe, Probe::IsFile, &self.to_path_buf())
    }

    /// Whether nothing of the path is pending.
    pub fn is_persistent(&self) -> (r: bool)
        ensures
            r == (self@.subdirs.len() == 0),
    {
        self.subdirs.len() == 0
    }
}

} // verus!
