use vstd::prelude::*;
use vstd::slice::slice_to_vec;
use vstd::utf8::encode_utf8;

use crate::error::{Error, ErrorView};
use crate::fs_path::{FsPath, absolute, joined, with_extension_spec};
use crate::io::{FsAction, FsActionView, FsActor, Probe, probe_total, probed};
use crate::util::assert_relative_path;
use crate::scoped_path::{
    Entry, Path, PathView, appended, contents_log, current, extended, extends, init_log,
    persisted, removal_log, reported_as, resolved,
};

verus! {

/// A directory handle: a [`Path`] and what [`Directory::initialize`] does
/// besides making it exist.
#[derive(Debug, PartialEq, Eq)]
pub struct Directory {
    path: Path,
    clean_on_init: bool,
    gitignore_on_init: bool,
}

/// The value a [`Directory`] stands for.
pub struct DirectoryView {
    pub path: PathView,
    /// Whether initialising removes what the directory holds.
    pub clean_on_init: bool,
    /// Whether initialising writes a `.gitignore` that ignores everything.
    pub gitignore_on_init: bool,
}

impl View for Directory {
    type V = DirectoryView;

    closed spec fn view(&self) -> DirectoryView {
        DirectoryView {
            path: self.path@,
            clean_on_init: self.clean_on_init,
            gitignore_on_init: self.gitignore_on_init,
        }
    }
}

/// A handle with the default options: neither cleaning nor `.gitignore`.
pub open spec fn plain(path: PathView) -> DirectoryView {
    DirectoryView { path, clean_on_init: false, gitignore_on_init: false }
}

/// The name of the file that keeps version control out of a directory.
pub open spec fn gitignore_name() -> Seq<char> {
    seq!['.', 'g', 'i', 't', 'i', 'g', 'n', 'o', 'r', 'e']
}

/// What that file holds: `*` and a newline.
pub open spec fn gitignore_bytes() -> Seq<u8> {
    seq![42u8, 10u8]
}

/// `log` holds exactly the requests that writing `content` to the file
/// `rel` below `dir` makes, and `r` is the matching result: an absolute `rel`
/// is refused with `PathIsAbsolute` and nothing is requested; otherwise one
/// write of the joined path, reported as `r` says.
pub open spec fn write_log(
    dir: Seq<Seq<char>>,
    rel: Seq<Seq<char>>,
    content: Seq<u8>,
    log: Seq<Entry>,
    r: Result<(), Error>,
) -> bool {
    if absolute(rel) {
        log.len() == 0 && (r matches Err(e) && e@ == ErrorView::PathIsAbsolute(rel))
    } else {
        &&& log.len() == 1
        &&& log[0].0 == FsActionView::WriteFile(joined(dir, rel), content)
        &&& reported_as(log[0].1, r)
    }
}

/// The request that writes the `.gitignore` of the directory `cur`.
pub open spec fn gitignore_request(cur: Seq<Seq<char>>) -> FsActionView {
    FsActionView::WriteFile(cur.push(gitignore_name()), gitignore_bytes())
}

/// `log` holds exactly the requests that initialising `d` makes, and `r` is
/// the matching result: those of initialising its path (see [`init_log`]);
/// after they succeed, emptying it where it is set to clean (see
/// [`contents_log`]); after that succeeds, writing the `.gitignore` where it
/// is set to.
pub open spec fn directory_init_log<P: Fn(Probe, &FsPath) -> bool>(
    probe: &P,
    d: DirectoryView,
    log: Seq<Entry>,
    r: Result<(), Error>,
) -> bool {
    let cur = current(d.path);
    let n = log.len() as int;
    let c: int = if d.clean_on_init { 1 } else { 0 };
    let g: int = if d.gitignore_on_init { 1 } else { 0 };
    ||| r is Err && init_log(probe, d.path, log, r)
    ||| {
        &&& d.clean_on_init
        &&& r is Err
        &&& init_log(probe, d.path, log, Ok(()))
        &&& contents_log(probe, cur, Seq::empty(), r)
    }
    ||| {
        &&& d.clean_on_init
        &&& r is Err
        &&& n >= 1
        &&& init_log(probe, d.path, log.drop_last(), Ok(()))
        &&& contents_log(probe, cur, seq![log.last()], r)
    }
    ||| {
        &&& n >= c + g
        &&& init_log(probe, d.path, log.take(n - c - g), Ok(()))
        &&& d.clean_on_init ==> contents_log(probe, cur, seq![log[n - 1 - g]], Ok(()))
        &&& d.gitignore_on_init ==> log.last().0 == gitignore_request(cur) && reported_as(
            log.last().1,
            r,
        )
        &&& !d.gitignore_on_init ==> r is Ok
    }
}

/// The path of `subdir` inside the directory `area` of the manifest
/// directory `manifest`.
pub open spec fn under_manifest(
    manifest: Seq<Seq<char>>,
    area: Seq<char>,
    subdir: Seq<Seq<char>>,
) -> Seq<Seq<char>> {
    joined(manifest, joined(seq![area], subdir))
}

/// The one-component path `name`, where `name` is not the root.
fn area_path(name: &str) -> (r: FsPath)
    requires
        name@ != seq!['/'],
    ensures
        r@ == seq![name@],
        !absolute(r@),
{
    let mut parts: Vec<String> = Vec::new();
    parts.push(String::from_str(name));
    let r = FsPath { parts };
    assert(r@ =~= seq![name@]);
    r
}

impl Directory {
    /// A handle for `subdir` inside the directory `area` of the manifest
    /// directory.
    fn cargo_area_subdir<P: Fn(Probe, &FsPath) -> bool>(
        manifest_dir: &FsPath,
        area: &str,
        subdir: &FsPath,
        probe: &P,
    ) -> (r: Directory)
        requires
            probe_total(probe),
            !absolute(subdir@),
            area@ != seq!['/'],
        ensures
            r@ == plain(r@.path),
            resolved(probe, under_manifest(manifest_dir@, area@, subdir@), r@.path),
    {
        let inside = area_path(area).join(subdir);
        assert(!absolute(inside@));
        Directory::cargo_manifest_subdir(manifest_dir, &inside, probe)
    }

    /// A handle for `subdir` inside the `examples` directory of the manifest
    /// directory `manifest_dir`.
    pub fn cargo_examples_subdir<P: Fn(Probe, &FsPath) -> bool>(
        manifest_dir: &FsPath,
        subdir: &FsPath,
        probe: &P,
    ) -> (r: Directory)
        requires
            probe_total(probe),
            !absolute(subdir@),
        ensures
            r@ == plain(r@.path),
            resolved(probe, under_manifest(manifest_dir@, "examples"@, subdir@), r@.path),
    {
        proof {
            reveal_strlit("examples");
            assert("examples"@.len() == 8);
        }
        Directory::cargo_area_subdir(manifest_dir, "examples", subdir, probe)
    }

    /// A handle for `subdir` inside the `tests` directory of the manifest
    /// directory `manifest_dir`.
    pub fn cargo_tests_subdir<P: Fn(Probe, &FsPath) -> bool>(
        manifest_dir: &FsPath,
        subdir: &FsPath,
        probe: &P,
    ) -> (r: Directory)
        requires
            probe_total(probe),
            !absolute(subdir@),
        ensures
            r@ == plain(r@.path),
            resolved(probe, under_manifest(manifest_dir@, "tests"@, subdir@), r@.path),
    {
        proof {
            reveal_strlit("tests");
            assert("tests"@.len() == 5);
        }
        Directory::cargo_area_subdir(manifest_dir, "tests", subdir, probe)
    }

    /// A handle for `subdir` inside the `target` directory of the manifest
    /// directory `manifest_dir`.
    pub fn cargo_target_subdir<P: Fn(Probe, &FsPath) -> bool>(
        manifest_dir: &FsPath,
        subdir: &FsPath,
        probe: &P,
    ) -> (r: Directory)
        requires
            probe_total(probe),
            !absolute(subdir@),
        ensures
            r@ == plain(r@.path),
            resolved(probe, under_manifest(manifest_dir@, "target"@, subdir@), r@.path),
    {
        proof {
            reveal_strlit("target");
            assert("target"@.len() == 6);
        }
        Directory::cargo_area_subdir(manifest_dir, "target", subdir, probe)
    }

    /// A handle for `path`, resolved against what `probe` reports: see
    /// [`Path::new`].
    pub fn new<P: Fn(Probe, &FsPath) -> bool>(path: &FsPath, probe: &P) -> (r: Directory)
        requires
            probe_total(probe),
        ensures
            r@ == plain(r@.path),
            resolved(probe, path@, r@.path),
    {
        Directory { path: Path::new(path, probe), clean_on_init: false, gitignore_on_init: false }
    }

    /// A handle for `path` of which nothing is ever removed.
    pub fn new_persistent(path: &FsPath) -> (r: Directory)
        ensures
            r@ == plain(PathView { base: path@, subdirs: Seq::empty(), error: None }),
    {
        Directory {
            path: Path::new_persistent(path),
            clean_on_init: false,
            gitignore_on_init: false,
        }
    }

    /// This handle extended by the directory `subdir`: see [`Path::add_subdir`].
    pub fn new_subdir<P: Fn(Probe, &FsPath) -> bool>(self, subdir: &str, probe: &P) -> (r: Directory)
        requires
            probe_total(probe),
        ensures
            extended(probe, self@.path, subdir@, r@.path),
            r@.clean_on_init == self@.clean_on_init,
            r@.gitignore_on_init == self@.gitignore_on_init,
    {
        let mut r = self;
        r.path.add_subdir(subdir, probe);
        r
    }

    /// This handle made persistent: nothing of it is removed any more.
    pub fn keep(self) -> (r: Directory)
        ensures
            r@ == (DirectoryView { path: persisted(self@.path), ..self@ }),
    {
        let mut r = self;
        r.path.make_persistent();
        r
    }

    /// This handle set to remove what the directory holds when initialised.
    pub fn clean(self) -> (r: Directory)
        ensures
            r@ == (DirectoryView { clean_on_init: true, ..self@ }),
    {
        let mut r = self;
        r.clean_on_init = true;
        r
    }

    /// This handle set to write a `.gitignore` that ignores everything when
    /// initialised.
    pub fn with_gitignore(self) -> (r: Directory)
        ensures
            r@ == (DirectoryView { gitignore_on_init: true, ..self@ }),
    {
        let mut r = self;
        r.gitignore_on_init = true;
        r
    }

    /// The full path of the directory.
    pub fn path(&self) -> (r: FsPath)
        ensures
            r@ == current(self@.path),
    {
        self.path.to_path_buf()
    }

    /// Whether `probe` reports that the directory's path exists.
    pub fn path_exists<P: Fn(Probe, &FsPath) -> bool>(&self, probe: &P) -> (r: bool)
        requires
            probe_total(probe),
        ensures
            probed(probe, Probe::Exists, current(self@.path), r),
    {
        self.path.path_exists(probe)
    }

    /// Whether `probe` reports that the directory's path is a directory.
    pub fn is_dir<P: Fn(Probe, &FsPath) -> bool>(&self, probe: &P) -> (r: bool)
        requires
            probe_total(probe),
        ensures
            probed(probe, Probe::IsDir, current(self@.path), r),
    {
        self.path.is_dir(probe)
    }

    /// Whether `probe` reports that the directory's path is a file.
    pub fn is_file<P: Fn(Probe, &FsPath) -> bool>(&self, probe: &P) -> (r: bool)
        requires
            probe_total(probe),
        ensures
            probed(probe, Probe::IsFile, current(self@.path), r),
    {
        self.path.is_file(probe)
    }

    /// Whether nothing of the directory is removed when it is released.
    pub fn is_persistent(&self) -> (r: bool)
        ensures
            r == (self@.path.subdirs.len() == 0),
    {
        self.path.is_persistent()
    }

    /// Makes the directory ready: initialises its path (see
    /// [`Path::initialize`]), then empties it where the handle is set to
    /// clean, then writes the `.gitignore` where it is set to. Stops at the
    /// first step that fails. No other request is made.
    pub fn initialize<P: Fn(Probe, &FsPath) -> bool, A: Fn(&FsAction) -> Result<(), String>>(
        &self,
        probe: &P,
        fs: &mut FsActor<A>,
    ) -> (r: Result<(), Error>)
        requires
            probe_total(probe),
            old(fs).ready(),
        ensures
            final(fs).ready(),
            final(fs).action() == old(fs).action(),
            extends(old(fs).history(), final(fs).history()),
            directory_init_log(probe, self@, appended(old(fs).history(), final(fs).history()), r),
    {
        let ghost d = self@;
        let ghost cur = current(d.path);
        let ghost h0 = fs.history();
        match self.path.initialize(probe, fs) {
            Ok(()) => {},
            Err(e) => {
                let r = Err(e);
                assert(directory_init_log(probe, d, appended(h0, fs.history()), r));
                return r;
            },
        }
        let ghost h1 = fs.history();
        let ghost init = appended(h0, h1);
        assert(h1 =~= h0 + init);
        if self.clean_on_init {
            match self.path.remove_contents(probe, fs) {
                Ok(()) => {},
                Err(e) => {
                    let r = Err(e);
                    proof {
                        let h2 = fs.history();
                        let tail = appended(h1, h2);
                        assert(h2 =~= h1 + tail);
                        let log = appended(h0, h2);
                        assert(log =~= init + tail);
                        assert(h2.take(h0.len() as int) =~= h0);
                        if tail.len() == 0 {
                            assert(log =~= init);
                            assert(tail =~= Seq::<Entry>::empty());
                        } else {
                            assert(log.drop_last() =~= init);
                            assert(tail =~= seq![log.last()]);
                        }
                    }
                    return r;
                },
            }
        }
        let ghost h2 = fs.history();
        let ghost cleaned = appended(h1, h2);
        assert(h2 =~= h1 + cleaned);
        assert(self.clean_on_init ==> cleaned.len() == 1);
        assert(!self.clean_on_init ==> cleaned.len() == 0);
        let r = if self.gitignore_on_init {
            self.write_gitignore(fs)
        } else {
            Ok(())
        };
        proof {
            let h3 = fs.history();
            let written = appended(h2, h3);
            assert(h3 =~= h2 + written);
            let log = appended(h0, h3);
            assert(log =~= init + cleaned + written);
            assert(h3.take(h0.len() as int) =~= h0);
            let c: int = if d.clean_on_init { 1 } else { 0 };
            let g: int = if d.gitignore_on_init { 1 } else { 0 };
            assert(written.len() == g);
            assert(log.take(log.len() - c - g) =~= init);
            if d.clean_on_init {
                assert(seq![log[log.len() - 1 - g]] =~= cleaned);
            }
            if d.gitignore_on_init {
                assert(log.last() == written[0]);
            }
            if r is Err {
                assert(d.gitignore_on_init);
            }
        }
        r
    }

    /// Releases the directory: removes its pending directories bottom-up,
    /// each only while empty (see [`Path::remove`]). No other request is made.
    pub fn remove<A: Fn(&FsAction) -> Result<(), String>>(&mut self, fs: &mut FsActor<A>) -> (r:
        Result<(), Error>)
        requires
            old(fs).ready(),
        ensures
            final(fs).ready(),
            final(fs).action() == old(fs).action(),
            extends(old(fs).history(), final(fs).history()),
            removal_log(
                old(self)@.path,
                final(self)@.path,
                appended(old(fs).history(), final(fs).history()),
                r,
            ),
            final(self)@.clean_on_init == old(self)@.clean_on_init,
            final(self)@.gitignore_on_init == old(self)@.gitignore_on_init,
    {
        self.path.remove(fs)
    }

    /// Writes `content` to the file `relative_path` inside the directory.
    /// No other request is made.
    pub fn write_bytes<A: Fn(&FsAction) -> Result<(), String>>(
        &self,
        relative_path: &FsPath,
        content: &[u8],
        fs: &mut FsActor<A>,
    ) -> (r: Result<(), Error>)
        requires
            old(fs).ready(),
        ensures
            final(fs).ready(),
            final(fs).action() == old(fs).action(),
            extends(old(fs).history(), final(fs).history()),
            write_log(
                current(self@.path),
                relative_path@,
                content@,
                appended(old(fs).history(), final(fs).history()),
                r,
            ),
    {
        let ghost h0 = fs.history();
        proof {
            assert(appended(h0, h0) =~= Seq::<Entry>::empty());
            assert(h0.take(h0.len() as int) =~= h0);
        }
        match assert_relative_path(relative_path) {
            Ok(()) => {},
            Err(e) => return Err(e),
        }
        let target = self.path.to_path_buf().join(relative_path);
        let r = match fs.perform(FsAction::WriteFile(target, slice_to_vec(content))) {
            Ok(()) => Ok(()),
            Err(m) => Err(Error::IoError(m)),
        };
        proof {
            let log = appended(h0, fs.history());
            assert(log =~= seq![fs.history().last()]);
            assert(fs.history().take(h0.len() as int) =~= h0);
        }
        r
    }

    /// Writes `content`, encoded as UTF-8, to the file `relative_path` inside
    /// the directory. No other request is made.
    pub fn write_string<A: Fn(&FsAction) -> Result<(), String>>(
        &self,
        relative_path: &FsPath,
        content: &str,
        fs: &mut FsActor<A>,
    ) -> (r: Result<(), Error>)
        requires
            old(fs).ready(),
        ensures
            final(fs).ready(),
            final(fs).action() == old(fs).action(),
            extends(old(fs).history(), final(fs).history()),
            write_log(
                current(self@.path),
                relative_path@,
                encode_utf8(content@),
                appended(old(fs).history(), final(fs).history()),
                r,
            ),
    {
        self.write_bytes(relative_path, content.as_bytes(), fs)
    }

    /// Writes a serialised value to the file `relative_path` inside the
    /// directory, its extension replaced by `extension`. `serialized` is the
    /// outcome of serialising the value: a failure there is reported as
    /// `SerializationError` with its reason, and nothing is requested.
    pub fn write_structured<A: Fn(&FsAction) -> Result<(), String>>(
        &self,
        relative_path: &FsPath,
        extension: &str,
        serialized: Result<String, String>,
        fs: &mut FsActor<A>,
    ) -> (r: Result<(), Error>)
        requires
            old(fs).ready(),
            !extension@.contains('/'),
        ensures
            final(fs).ready(),
            final(fs).action() == old(fs).action(),
            extends(old(fs).history(), final(fs).history()),
            match serialized {
                Err(m) => {
                    &&& appended(old(fs).history(), final(fs).history()).len() == 0
                    &&& r matches Err(e) && e@ == ErrorView::SerializationError(m@)
                },
                Ok(text) => write_log(
                    current(self@.path),
                    with_extension_spec(relative_path@, extension@),
                    encode_utf8(text@),
                    appended(old(fs).history(), final(fs).history()),
                    r,
                ),
            },
    {
        match serialized {
            Err(m) => {
                proof {
                    assert(fs.history().take(fs.history().len() as int) =~= fs.history());
                }
                Err(Error::SerializationError(m))
            },
            Ok(text) => {
                let named = relative_path.with_extension(extension);
                self.write_string(&named, text.as_str(), fs)
            },
        }
    }

    /// Writes a `.gitignore` holding `*` and a newline, which keeps the
    /// directory's contents out of version control. No other request is
    /// made.
    pub fn write_gitignore<A: Fn(&FsAction) -> Result<(), String>>(
        &self,
        fs: &mut FsActor<A>,
    ) -> (r: Result<(), Error>)
        requires
            old(fs).ready(),
        ensures
            final(fs).ready(),
            final(fs).action() == old(fs).action(),
            extends(old(fs).history(), final(fs).history()),
            ({
                let log = appended(old(fs).history(), final(fs).history());
                &&& log.len() == 1
                &&& log[0].0 == gitignore_request(current(self@.path))
                &&& reported_as(log[0].1, r)
            }),
    {
        let mut parts: Vec<String> = Vec::new();
        parts.push(String::from_str(".gitignore"));
        let name = FsPath { parts };
        let content: Vec<u8> = vec![42u8, 10u8];
        proof {
            reveal_strlit(".gitignore");
            assert(".gitignore"@ =~= gitignore_name());
            assert(name@ =~= seq![gitignore_name()]);
            assert(content@ =~= gitignore_bytes());
            assert(gitignore_name().len() == 10);
            assert(!absolute(name@));
            let cur = current(self@.path);
            assert(joined(cur, name@) =~= cur.push(gitignore_name()));
        }
        self.write_bytes(&name, content.as_slice(), fs)
    }

    /// A handle for `subdir` below the manifest directory `manifest_dir`.
    pub fn cargo_manifest_subdir<P: Fn(Probe, &FsPath) -> bool>(
        manifest_dir: &FsPath,
        subdir: &FsPath,
        probe: &P,
    ) -> (r: Directory)
        requires
            probe_total(probe),
            !absolute(subdir@),
        ensures
            r@ == plain(r@.path),
            resolved(probe, joined(manifest_dir@, subdir@), r@.path),
    {
        Directory::new(&manifest_dir.join(subdir), probe)
    }
}

} // verus!
