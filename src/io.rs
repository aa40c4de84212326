use vstd::prelude::*;

use crate::fs_path::FsPath;

verus! {

/// A question about the file system.
#[derive(Clone, Copy, Debug, PartialEq, Eq)]
pub enum Probe {
    /// Whether an entry exists at the path.
    Exists,
    /// Whether a directory exists at the path.
    IsDir,
    /// Whether a regular file exists at the path.
    IsFile,
}

/// A change to the file system.
#[derive(Debug, PartialEq, Eq)]
pub enum FsAction {
    /// Make a directory exist at the path, creating its missing ancestors; a
    /// directory that is there already counts as success.
    CreateDir(FsPath),
    /// Remove the directory at the path, which must be empty.
    RemoveDir(FsPath),
    /// Remove every entry inside the directory at the path.
    RemoveContents(FsPath),
    /// Write the bytes to the file at the path, replacing what it held.
    WriteFile(FsPath, Vec<u8>),
}

/// The value an [`FsAction`] stands for.
pub enum FsActionView {
    CreateDir(Seq<Seq<char>>),
    RemoveDir(Seq<Seq<char>>),
    RemoveContents(Seq<Seq<char>>),
    WriteFile(Seq<Seq<char>>, Seq<u8>),
}

impl View for FsAction {
    type V = FsActionView;

    open spec fn view(&self) -> FsActionView {
        match self {
            FsAction::CreateDir(p) => FsActionView::CreateDir(p@),
            FsAction::RemoveDir(p) => FsActionView::RemoveDir(p@),
            FsAction::RemoveContents(p) => FsActionView::RemoveContents(p@),
            FsAction::WriteFile(p, c) => FsActionView::WriteFile(p@, c@),
        }
    }
}

/// `probe` may be asked anything.
pub open spec fn probe_total<P: Fn(Probe, &FsPath) -> bool>(probe: &P) -> bool {
    forall|k: Probe, p: FsPath| #[trigger] probe.requires((k, &p))
}

/// `probe`, asked `kind` about `path`, answered `answer`.
pub open spec fn probed<P: Fn(Probe, &FsPath) -> bool>(
    probe: &P,
    kind: Probe,
    path: Seq<Seq<char>>,
    answer: bool,
) -> bool {
    exists|p: FsPath| p@ == path && #[trigger] probe.ensures((kind, &p), answer)
}

/// What a file system reported for one request.
pub enum Report {
    /// The request was carried out.
    Done,
    /// The request failed, for the reason given.
    Failed(Seq<char>),
}

/// The report that `r` stands for.
pub open spec fn report_of(r: Result<(), String>) -> Report {
    match r {
        Ok(_) => Report::Done,
        Err(m) => Report::Failed(m@),
    }
}

/// `act`, asked a request that `entry` records, could have given the report
/// recorded there.
pub open spec fn answerable<A: Fn(&FsAction) -> Result<(), String>>(
    act: A,
    entry: (FsActionView, Report),
) -> bool {
    exists|a: FsAction, r: Result<(), String>|
        a@ == entry.0 && report_of(r) == entry.1 && #[trigger] call_ensures(act, (&a,), r)
}

/// The way through which this library changes the file system: the caller's
/// action function, and a record of every request made through it, with what
/// was reported. Nothing but [`FsActor::perform`] adds to the record.
pub struct FsActor<A: Fn(&FsAction) -> Result<(), String>> {
    act: A,
    record: Ghost<Seq<(FsActionView, Report)>>,
}

impl<A: Fn(&FsAction) -> Result<(), String>> FsActor<A> {
    /// Every request made so far, in order, with its report.
    pub closed spec fn history(&self) -> Seq<(FsActionView, Report)> {
        self.record@
    }

    /// The action function.
    pub closed spec fn action(&self) -> A {
        self.act
    }

    /// The action function may be asked to perform anything.
    pub closed spec fn ready(&self) -> bool {
        &&& forall|a: FsAction| #[trigger] self.act.requires((&a,))
        &&& forall|i: int|
            0 <= i < self.record@.len() ==> #[trigger] answerable(self.act, self.record@[i])
    }

    /// Every report in the record is one the action function could give.
    pub proof fn lemma_history_answerable(&self)
        requires
            self.ready(),
        ensures
            forall|i: int|
                0 <= i < self.history().len() ==> #[trigger] answerable(
                    self.action(),
                    self.history()[i],
                ),
    {
    }

    /// An actor for `act`, with nothing requested yet.
    pub fn new(act: A) -> (r: FsActor<A>)
        requires
            forall|a: FsAction| #[trigger] act.requires((&a,)),
        ensures
            r.ready(),
            r.action() == act,
            r.history() == Seq::<(FsActionView, Report)>::empty(),
    {
        let r = FsActor { act, record: Ghost(Seq::empty()) };
        assert(r.record@.len() == 0);
        r
    }

    /// Asks the action function to perform `action`, and records it.
    pub fn perform(&mut self, action: FsAction) -> (r: Result<(), String>)
        requires
            old(self).ready(),
        ensures
            final(self).ready(),
            final(self).action() == old(self).action(),
            call_ensures(old(self).action(), (&action,), r),
            final(self).history() == old(self).history().push((action@, report_of(r))),
    {
        let r = (self.act)(&action);
        assert(answerable(self.act, (action@, report_of(r))));
        self.record = Ghost(self.record@.push((action@, report_of(r))));
        r
    }
}

/// Asks `probe` whether `kind` holds of `path`.
pub(crate) fn ask<P: Fn(Probe, &FsPath) -> bool>(probe: &P, kind: Probe, path: &FsPath) -> (r: bool)
    requires
        probe_total(probe),
    ensures
        probed(probe, kind, path@, r),
{
    let r = probe(kind, path);
    assert(probe.ensures((kind, path), r));
    r
}

} // verus!
