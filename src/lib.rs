//! Scoped working directories.
//!
//! A [`Directory`] names a target directory. When it is resolved, the part of
//! the target that already exists is split from the part that does not; only
//! the part that did not exist is created on initialisation and removed again,
//! bottom-up and only while empty, when the handle is released.
//!
//! The library performs no file-system access of its own: every query and
//! every change goes through a probe and an action function that the caller
//! hands in, and the contracts state what holds for whatever those report.
//! The module `model` states, over a model of the file system, what the
//! creation and removal protocols then do to it.

mod directory;
mod error;
mod fs_path;
mod io;
mod model;
mod resolve;
mod scoped_path;
mod util;

pub use directory::{
    Directory, DirectoryView, directory_init_log, gitignore_bytes, gitignore_name,
    gitignore_request, plain, under_manifest, write_log,
};
pub use error::{Error, ErrorView, message_of};
pub use fs_path::{
    FsPath, absolute, current_part, extension_replaced, file_stem, is_name, joined, last_dot,
    names_view, parsed_form, plain_name,
    parent_part, path_components, root_part, text_of, with_extension_spec,
};
pub use io::{
    FsAction, FsActionView, FsActor, Probe, Report, answerable, probe_total, probed, report_of,
};
pub use model::{
    FsState, absent, below, branch, can_make, can_remove, create_from, create_pending,
    foreign_below, in_chain, is_dir_in, lemma_create_pending, lemma_foreign_content_kept,
    lemma_make_persistent_idempotent, lemma_removal_stops, lemma_round_trip,
    lemma_shared_ancestors, lemma_under_first, lemma_with_chain, make_dir, remove_pending,
    step, faithful, replay, lemma_remove_follows_model, lemma_create_follows_model,
    lemma_replay_concat, lemma_initialise_follows_model, lemma_initialise_adds_only_pending, lemma_initialise_then_release,
    lemma_release_keeps_foreign_content, lemma_release_shared, stripped, truncated, with_chain,
};
pub use resolve::{
    answers_exists, closest_ancestor, lemma_parsed_resolution_finds_deepest,
    lemma_resolution_finds_deepest, malformed_at, passed,
    stops_at,
};
pub use scoped_path::{
    Entry, Path, PathView, appended, contents_log, creation_log, creations, creations_between,
    current, extended, extends, init_log, pending_log, pending_prefix, persisted, removal_log,
    removals, reported_as, resolved,
};
pub use util::assert_relative_path;
