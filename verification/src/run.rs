//! One run of `compress`, from the key file to the archive file, as a machine
//! that a driver feeds. The machine asks for one thing at a time; the driver
//! does it and reports what came of it. The order is fixed: the key is loaded
//! before the tree is walked, the tree is walked before any file is read, and
//! the archive is handed out for writing only when every file has been read
//! and packed. The first failure ends the run, and then nothing is to be
//! written.

use vstd::prelude::*;
use vstd::slice::slice_to_vec;
use crate::archive::views;
use crate::archive::EntryView;
use crate::archive::FileEntry;
use crate::cipher::NONCE_LEN;
use crate::cipher::TAG_LEN;
use crate::collect::collect;
use crate::collect::path_views;
use crate::collect::regular_files;
use crate::collect::walk_failed;
use crate::collect::WalkItem;
use crate::error::PakError;
use crate::key::load;
use crate::key::loaded;
use crate::key::Key;
use crate::pipeline::archive_name;
use crate::pipeline::archive_name_of;
use crate::pipeline::pack;
use crate::pipeline::frame_of;
use crate::pipeline::pack_failure;
use crate::pipeline::packed;
use crate::pipeline::unpacked;

verus! {

/// What the driver reports. A report may hold the text of the key file, so it
/// cannot be printed.
pub enum Event {
    /// What the key file holds, or `None` where there is no key file.
    KeyFile(Option<Vec<u8>>),
    /// Whether the root is a directory, and what the walk below it met.
    Walked { root_is_dir: bool, items: Vec<WalkItem> },
    /// The content of the file that was asked for, or `None` where it could not
    /// be read.
    FileRead(Option<Vec<u8>>),
}

/// What the machine asks of the driver.
#[derive(Debug, Clone, PartialEq, Eq)]
pub enum Action {
    /// Read the key file and report `Event::KeyFile`.
    ReadKeyFile,
    /// Walk the tree below the root and report `Event::Walked`.
    WalkTree,
    /// Read the file at this path and report `Event::FileRead`.
    ReadFile(Vec<u8>),
    /// Write the sealed archive to the file of this name. The run is over.
    WriteArchive { name: Vec<u8>, sealed: Vec<u8> },
    /// Tell the user of the failure, and write nothing. The run is over.
    Report(PakError),
    /// The run was over before.
    Nothing,
}

/// Where a run stands.
pub enum StageView {
    /// The key file has been asked for.
    AwaitKey,
    /// The key is loaded; the walk has been asked for.
    AwaitWalk { key: Seq<u8> },
    /// The files to pack are `paths`; as many as there are `entries` have been
    /// read, and the next one has been asked for.
    AwaitFile { key: Seq<u8>, paths: Seq<Seq<u8>>, entries: Seq<EntryView> },
    /// The run is over.
    Done,
}

/// What a run stands for.
pub struct RunView {
    pub root: Seq<u8>,
    pub stage: StageView,
}

impl RunView {
    /// While files are read, at least one is left to read, and the entries so
    /// far are the files at the first of the paths, in order. Every run is
    /// well-formed.
    pub open spec fn well_formed(self) -> bool {
        match self.stage {
            StageView::AwaitFile { key, paths, entries } => {
                &&& entries.len() < paths.len()
                &&& forall|i: int| 0 <= i < entries.len() ==> (#[trigger] entries[i]).path == paths[i]
            },
            _ => true,
        }
    }
}

/// The end of a run that has read all its files, `es`. Files that cannot be
/// packed are reported with the failure that `pack_failure` owes them, and with
/// no other. Of files that can, the archive to write is named after the root
/// and is the sealed archive of exactly these files; or no nonce could be
/// drawn, and that is reported.
pub open spec fn finishes(key: Seq<u8>, root: Seq<u8>, es: Seq<EntryView>, action: Action) -> bool {
    match pack_failure(es) {
        Some(failure) => action == Action::Report(failure),
        None => match action {
            Action::WriteArchive { name, sealed } => {
                &&& name@ == archive_name_of(root)
                &&& exists|nonce: Seq<u8>|
                    nonce.len() == NONCE_LEN && #[trigger] packed(key, nonce, es) == Ok::<
                        Seq<u8>,
                        PakError,
                    >(sealed@)
                &&& sealed.len() == frame_of(es)->0.len() + NONCE_LEN + TAG_LEN
                &&& unpacked(key, sealed@) == Ok::<Seq<EntryView>, PakError>(es)
            },
            Action::Report(e) => e == PakError::RandomSourceError,
            _ => false,
        },
    }
}

/// Where a run goes once `entries` have been read: it asks for the next of the
/// `paths`, or, where none is left, it ends as `finishes` says.
pub open spec fn reads_on(
    key: Seq<u8>,
    root: Seq<u8>,
    paths: Seq<Seq<u8>>,
    entries: Seq<EntryView>,
    after: StageView,
    action: Action,
) -> bool {
    if entries.len() == paths.len() {
        after is Done && finishes(key, root, entries, action)
    } else {
        &&& after == StageView::AwaitFile { key, paths, entries }
        &&& action matches Action::ReadFile(p)
        &&& p@ == paths[entries.len() as int]
    }
}

/// One step of a run: where it stands after `event` was reported at `before`,
/// and what it asks for next. An event that was not asked for changes nothing,
/// and what was asked for is asked for again.
pub open spec fn steps(before: RunView, event: Event, after: RunView, action: Action) -> bool {
    &&& after.root == before.root
    &&& match before.stage {
        StageView::AwaitKey => match event {
            Event::KeyFile(file) => match loaded(
                match file {
                    Some(text) => Some(text@),
                    None => None,
                },
            ) {
                Ok(key) => after.stage == StageView::AwaitWalk { key } && action is WalkTree,
                Err(e) => after.stage is Done && action == Action::Report(e),
            },
            _ => after.stage == before.stage && action is ReadKeyFile,
        },
        StageView::AwaitWalk { key } => match event {
            Event::Walked { root_is_dir, items } => if !root_is_dir {
                after.stage is Done && action == Action::Report(PakError::RootNotFound)
            } else if walk_failed(items@) {
                &&& after.stage is Done
                &&& action matches Action::Report(PakError::DirectoryAccessError(p))
                &&& p@ == before.root
            } else {
                reads_on(
                    key,
                    before.root,
                    regular_files(items@),
                    Seq::empty(),
                    after.stage,
                    action,
                )
            },
            _ => after.stage == before.stage && action is WalkTree,
        },
        StageView::AwaitFile { key, paths, entries } => match event {
            Event::FileRead(content) => match content {
                Some(bytes) => reads_on(
                    key,
                    before.root,
                    paths,
                    entries.push(
                        EntryView { path: paths[entries.len() as int], content: bytes@ },
                    ),
                    after.stage,
                    action,
                ),
                None => {
                    &&& after.stage is Done
                    &&& action matches Action::Report(PakError::FileReadError(p))
                    &&& p@ == paths[entries.len() as int]
                },
            },
            _ => {
                &&& after.stage == before.stage
                &&& action matches Action::ReadFile(p)
                &&& p@ == paths[entries.len() as int]
            },
        },
        StageView::Done => after.stage is Done && action is Nothing,
    }
}

enum Stage {
    AwaitKey,
    AwaitWalk { key: Key },
    AwaitFile { key: Key, paths: Vec<Vec<u8>>, entries: Vec<FileEntry> },
    Done,
}

/// One run of `compress` on a root.
pub struct Run {
    root: Vec<u8>,
    stage: Stage,
}

impl View for Run {
    type V = RunView;

    closed spec fn view(&self) -> RunView {
        RunView {
            root: self.root@,
            stage: match self.stage {
                Stage::AwaitKey => StageView::AwaitKey,
                Stage::AwaitWalk { key } => StageView::AwaitWalk { key: key@ },
                Stage::AwaitFile { key, paths, entries } => StageView::AwaitFile {
                    key: key@,
                    paths: path_views(paths@),
                    entries: views(entries@),
                },
                Stage::Done => StageView::Done,
            },
        }
    }
}

impl Run {
    #[verifier::type_invariant]
    spec fn well_formed(&self) -> bool {
        self@.well_formed()
    }

    /// Begins a run on `root`: the first thing asked for is the key file.
    pub fn start(root: Vec<u8>) -> (out: (Run, Action))
        ensures
            out.0@ == (RunView { root: root@, stage: StageView::AwaitKey }),
            out.0@.well_formed(),
            out.1 is ReadKeyFile,
    {
        (Run { root, stage: Stage::AwaitKey }, Action::ReadKeyFile)
    }

    /// Whether the run is over.
    pub fn is_done(&self) -> (done: bool)
        ensures
            done == (self@.stage is Done),
    {
        match &self.stage {
            Stage::Done => true,
            _ => false,
        }
    }

    /// Ends a run that has read all its files: packs them and hands out the
    /// archive to write, or the failure to report.
    fn finish(root: Vec<u8>, key: Key, entries: Vec<FileEntry>) -> (out: (Run, Action))
        ensures
            out.0@ == (RunView { root: root@, stage: StageView::Done }),
            finishes(key@, root@, views(entries@), out.1),
    {
        let action = match pack(&key, entries.as_slice()) {
            Ok(sealed) => Action::WriteArchive { name: archive_name(root.as_slice()), sealed },
            Err(e) => Action::Report(e),
        };
        (Run { root, stage: Stage::Done }, action)
    }

    /// Goes on to the next file, or ends the run where none is left.
    fn read_on(root: Vec<u8>, key: Key, paths: Vec<Vec<u8>>, entries: Vec<FileEntry>) -> (out: (
        Run,
        Action,
    ))
        requires
            entries.len() <= paths.len(),
            forall|i: int|
                0 <= i < entries.len() ==> (#[trigger] views(entries@)[i]).path == path_views(
                    paths@,
                )[i],
        ensures
            out.0@.root == root@,
            out.0@.well_formed(),
            reads_on(
                key@,
                root@,
                path_views(paths@),
                views(entries@),
                out.0@.stage,
                out.1,
            ),
    {
        if entries.len() == paths.len() {
            Run::finish(root, key, entries)
        } else {
            let next = slice_to_vec(paths[entries.len()].as_slice());
            (Run { root, stage: Stage::AwaitFile { key, paths, entries } }, Action::ReadFile(next))
        }
    }

    /// Takes one report of the driver and says what to do next.
    pub fn step(self, event: Event) -> (out: (Run, Action))
        ensures
            self@.well_formed(),
            steps(self@, event, out.0@, out.1),
            out.0@.well_formed(),
    {
        proof {
            use_type_invariant(&self);
        }
        let Run { root, stage } = self;
        match stage {
            Stage::AwaitKey => match event {
                Event::KeyFile(file) => {
                    let r = match &file {
                        Some(text) => load(Some(text.as_slice())),
                        None => load(None),
                    };
                    match r {
                        Ok(key) => (Run { root, stage: Stage::AwaitWalk { key } }, Action::WalkTree),
                        Err(e) => (Run { root, stage: Stage::Done }, Action::Report(e)),
                    }
                },
                _ => (Run { root, stage: Stage::AwaitKey }, Action::ReadKeyFile),
            },
            Stage::AwaitWalk { key } => match event {
                Event::Walked { root_is_dir, items } => {
                    match collect(root.as_slice(), root_is_dir, items.as_slice()) {
                        Ok(paths) => {
                            let entries: Vec<FileEntry> = Vec::new();
                            proof {
                                assert(views(entries@) =~= Seq::empty());
                            }
                            Run::read_on(root, key, paths, entries)
                        },
                        Err(e) => (Run { root, stage: Stage::Done }, Action::Report(e)),
                    }
                },
                _ => (Run { root, stage: Stage::AwaitWalk { key } }, Action::WalkTree),
            },
            Stage::AwaitFile { key, paths, entries } => match event {
                Event::FileRead(content) => {
                    let path = slice_to_vec(paths[entries.len()].as_slice());
                    match content {
                        Some(bytes) => {
                            let mut entries = entries;
                            let ghost before = entries@;
                            let entry = FileEntry { path, content: bytes };
                            entries.push(entry);
                            proof {
                                assert(views(entries@) =~= views(before).push(entry@));
                                assert(path_views(paths@)[before.len() as int] == entry.path@);
                                assert forall|i: int| 0 <= i < entries.len() implies (
                                #[trigger] views(entries@)[i]).path == path_views(paths@)[i] by {
                                    if i < before.len() {
                                        assert(views(entries@)[i] == views(before)[i]);
                                    }
                                }
                            }
                            Run::read_on(root, key, paths, entries)
                        },
                        None => (
                            Run { root, stage: Stage::Done },
                            Action::Report(PakError::FileReadError(path)),
                        ),
                    }
                },
                _ => {
                    let next = slice_to_vec(paths[entries.len()].as_slice());
                    (
                        Run { root, stage: Stage::AwaitFile { key, paths, entries } },
                        Action::ReadFile(next),
                    )
                },
            },
            Stage::Done => (Run { root, stage: Stage::Done }, Action::Nothing),
        }
    }
}

} // verus!
