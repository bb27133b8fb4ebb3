//! Gathering the files of a submission from a repository.
//!
//! The walk asks for one step on the disk at a time and is told how it went. It reads
//! `src/ops.rs` and then every plain file below `src/device/`, a directory at a time.
//! No symbolic link is followed, neither one that stands in the place of `src/device` nor
//! one below it: the server refuses them, and a link could lead out of the repository.

use vstd::prelude::*;

use crate::failure::{told_alike, Failure, FailureView};
use crate::sources::{
    is_path_sort, lemma_same_files, read_upload, unreadable, uploads, Upload, UploadView,
    ALLOWED_DIR, ALLOWED_FILE, MAX_FILES,
};
use crate::text::{
    decimal, decimal_digits, joined, lemma_same_words, lemma_same_words_two, lemma_texts_push,
    same_words, text_of, texts,
};

verus! {

/// What the walk asks for.
#[derive(Debug)]
pub enum Next {
    /// Read `src/ops.rs`.
    ReadOps,
    /// Look what kind of thing `src/device` is, without following a link.
    ProbeDevice,
    /// Open the directory in hand: first the device directory, then an entry.
    OpenDirectory,
    /// Take the next entry of the innermost open directory.
    NextEntry,
    /// Look what kind of thing the entry in hand is, without following a link.
    Inspect,
    /// Read the entry in hand.
    ReadFile,
    /// Nothing: all files are gathered.
    Done,
    /// Nothing: the walk has failed.
    Fail(Failure),
}

/// What a look at an entry, without following a link, says of it.
#[derive(Clone, Copy, Debug)]
pub struct Kind {
    pub is_symlink: bool,
    pub is_dir: bool,
    pub is_file: bool,
}

/// How a step on the disk went. `display` is the full path that the step was about.
#[derive(Debug)]
pub enum Event {
    /// The content of a file, or why it could not be read.
    Content { display: String, content: Result<Vec<u8>, String> },
    /// The kind of what the repository at `root` has for a device directory, by a look that
    /// does not follow a link; nothing if there is nothing to look at.
    Device { root: String, found: Option<Kind> },
    /// The directory is open, or why it could not be opened.
    Opened { display: String, outcome: Result<(), String> },
    /// The name of the next entry, or that there is none, or why it could not be read.
    Entry { display: String, entry: Result<Option<String>, String> },
    /// The kind of an entry, or why it could not be inspected.
    Inspected { display: String, kind: Result<Kind, String> },
}

/// A walk: the names of the open directories from the repository inwards, the name of
/// the entry in hand, the files read so far, and what comes next.
#[derive(Debug)]
pub struct Walk {
    pub dirs: Vec<String>,
    pub entry: String,
    pub files: Vec<Upload>,
    pub next: Next,
}

/// What a [`Next`] asks for.
pub enum NextView {
    ReadOps,
    ProbeDevice,
    OpenDirectory,
    NextEntry,
    Inspect,
    ReadFile,
    Done,
    Fail(FailureView),
}

/// What an [`Event`] says.
pub enum EventView {
    Content { display: Seq<char>, content: Result<Seq<u8>, Seq<char>> },
    Device { root: Seq<char>, found: Option<Kind> },
    Opened { display: Seq<char>, outcome: Result<(), Seq<char>> },
    Entry { display: Seq<char>, entry: Result<Option<Seq<char>>, Seq<char>> },
    Inspected { display: Seq<char>, kind: Result<Kind, Seq<char>> },
}

/// The state of a [`Walk`].
#[verifier::ext_equal]
pub struct WalkView {
    pub dirs: Seq<Seq<char>>,
    pub entry: Seq<char>,
    pub files: Seq<UploadView>,
    pub next: NextView,
}

impl View for Next {
    type V = NextView;

    open spec fn view(&self) -> NextView {
        match *self {
            Next::ReadOps => NextView::ReadOps,
            Next::ProbeDevice => NextView::ProbeDevice,
            Next::OpenDirectory => NextView::OpenDirectory,
            Next::NextEntry => NextView::NextEntry,
            Next::Inspect => NextView::Inspect,
            Next::ReadFile => NextView::ReadFile,
            Next::Done => NextView::Done,
            Next::Fail(failure) => NextView::Fail(failure@),
        }
    }
}

impl View for Event {
    type V = EventView;

    open spec fn view(&self) -> EventView {
        match *self {
            Event::Content { display, content } => EventView::Content {
                display: display@,
                content: match content {
                    Ok(bytes) => Ok(bytes@),
                    Err(reason) => Err(reason@),
                },
            },
            Event::Device { root, found } => EventView::Device { root: root@, found },
            Event::Opened { display, outcome } => EventView::Opened {
                display: display@,
                outcome: match outcome {
                    Ok(()) => Ok(()),
                    Err(reason) => Err(reason@),
                },
            },
            Event::Entry { display, entry } => EventView::Entry {
                display: display@,
                entry: match entry {
                    Ok(name) => Ok(text_of(name)),
                    Err(reason) => Err(reason@),
                },
            },
            Event::Inspected { display, kind } => EventView::Inspected {
                display: display@,
                kind: match kind {
                    Ok(k) => Ok(k),
                    Err(reason) => Err(reason@),
                },
            },
        }
    }
}

impl View for Walk {
    type V = WalkView;

    open spec fn view(&self) -> WalkView {
        WalkView {
            dirs: texts(self.dirs@),
            entry: self.entry@,
            files: uploads(self.files@),
            next: self.next@,
        }
    }
}

/// The repository at `root` has no device directory.
pub open spec fn no_device(root: Seq<char>) -> FailureView {
    FailureView::usage(
        ALLOWED_DIR@ + "/ is missing from "@ + root
            + ". Submit from an unmodified baseline layout."@,
    )
}

/// There is something, and it is a directory and not a link to one.
pub open spec fn is_directory(found: Option<Kind>) -> bool {
    found matches Some(k) && !k.is_symlink && k.is_dir
}

/// The entry could not be inspected.
pub open spec fn uninspectable(display: Seq<char>, reason: Seq<char>) -> FailureView {
    FailureView::usage("Cannot inspect "@ + display + ": "@ + reason)
}

/// The walk has met more files than a submission may have.
pub open spec fn more_than_allowed() -> FailureView {
    FailureView::usage(
        "More than "@ + decimal_digits(MAX_FILES as nat) + " files under "@ + ALLOWED_DIR@
            + "/. Check what is in there."@,
    )
}

/// The walk before its first step.
pub open spec fn walk_start() -> WalkView {
    WalkView {
        dirs: seq!["src"@],
        entry: "ops.rs"@,
        files: Seq::empty(),
        next: NextView::ReadOps,
    }
}

/// The path below the repository of the entry in hand.
pub open spec fn entry_path(w: WalkView) -> Seq<char> {
    joined(w.dirs.push(w.entry), "/"@)
}

/// The walk with the content of the entry in hand among its files.
pub open spec fn with_content(w: WalkView, bytes: Seq<u8>) -> WalkView {
    WalkView { files: w.files.push(UploadView { path: entry_path(w), bytes }), ..w }
}

/// The walk after a failure.
pub open spec fn failed(w: WalkView, failure: FailureView) -> WalkView {
    WalkView { next: NextView::Fail(failure), ..w }
}

/// The open directories once the innermost one is done.
pub open spec fn outer(dirs: Seq<Seq<char>>) -> Seq<Seq<char>> {
    if dirs.len() == 0 {
        dirs
    } else {
        dirs.drop_last()
    }
}

/// What follows a look at an entry.
pub open spec fn next_for(kind: Kind) -> NextView {
    if kind.is_symlink {
        NextView::NextEntry
    } else if kind.is_dir {
        NextView::OpenDirectory
    } else if kind.is_file {
        NextView::ReadFile
    } else {
        NextView::NextEntry
    }
}

/// The walk after the step that it asked for went as the event says. An event that
/// answers something else than what the walk asks for changes nothing.
pub open spec fn walk_step(w: WalkView, e: EventView) -> WalkView {
    match (w.next, e) {
        (NextView::ReadOps, EventView::Content { display, content }) => match content {
            Ok(bytes) => WalkView {
                entry: "device"@,
                next: NextView::ProbeDevice,
                ..with_content(w, bytes)
            },
            Err(reason) => failed(w, unreadable(display, reason)),
        },
        (NextView::ProbeDevice, EventView::Device { root, found }) => if is_directory(found) {
            WalkView { next: NextView::OpenDirectory, ..w }
        } else {
            failed(w, no_device(root))
        },
        (NextView::OpenDirectory, EventView::Opened { display, outcome }) => match outcome {
            Ok(()) => WalkView { dirs: w.dirs.push(w.entry), next: NextView::NextEntry, ..w },
            Err(reason) => failed(w, unreadable(display, reason)),
        },
        (NextView::NextEntry, EventView::Entry { display, entry }) => match entry {
            Ok(Some(name)) => WalkView { entry: name, next: NextView::Inspect, ..w },
            Ok(None) => WalkView {
                dirs: outer(w.dirs),
                next: if w.dirs.len() > 2 {
                    NextView::NextEntry
                } else {
                    NextView::Done
                },
                ..w
            },
            Err(reason) => failed(w, unreadable(display, reason)),
        },
        (NextView::Inspect, EventView::Inspected { display, kind }) => match kind {
            Ok(k) => WalkView { next: next_for(k), ..w },
            Err(reason) => failed(w, uninspectable(display, reason)),
        },
        (NextView::ReadFile, EventView::Content { display, content }) => match content {
            Ok(bytes) => if w.files.len() + 1 > MAX_FILES {
                failed(with_content(w, bytes), more_than_allowed())
            } else {
                WalkView { next: NextView::NextEntry, ..with_content(w, bytes) }
            },
            Err(reason) => failed(w, unreadable(display, reason)),
        },
        _ => w,
    }
}

/// What the user is told at a step: that a symbolic link is passed over.
pub open spec fn walk_notice(w: WalkView, e: EventView) -> Option<Seq<char>> {
    match (w.next, e) {
        (NextView::Inspect, EventView::Inspected { display, kind: Ok(k) }) => if k.is_symlink {
            Some("skipping symlink "@ + display)
        } else {
            None
        },
        _ => None,
    }
}

/// The walk after the given events, from the state `w`.
pub open spec fn walk_run(w: WalkView, events: Seq<EventView>) -> WalkView
    decreases events.len(),
{
    if events.len() == 0 {
        w
    } else {
        walk_step(walk_run(w, events.drop_last()), events.last())
    }
}

/// The walk after the given events, from its start.
pub open spec fn walk_after(events: Seq<EventView>) -> WalkView {
    walk_run(walk_start(), events)
}

proof fn lemma_uploads_push(files: Seq<Upload>, f: Upload)
    ensures
        uploads(files.push(f)) == uploads(files).push(f@),
{
    assert(uploads(files.push(f)) =~= uploads(files).push(f@));
}

fn cannot_read(display: &str, reason: &str) -> (r: Failure)
    ensures
        r@ == unreadable(display@, reason@),
{
    Failure::usage(
        "Cannot read ".to_owned().concat(display).concat(": ").concat(reason),
    )
}

impl Walk {
    /// A walk before its first step.
    pub fn start() -> (r: Walk)
        ensures
            r@ == walk_start(),
    {
        let mut dirs: Vec<String> = Vec::new();
        dirs.push("src".to_owned());
        let w = Walk { dirs, entry: "ops.rs".to_owned(), files: Vec::new(), next: Next::ReadOps };
        assert(w@.dirs =~= walk_start().dirs);
        assert(w@.files =~= walk_start().files);
        w
    }

    /// The walk with the entry in hand among its files, or the failure to read it.
    fn take_content(self, display: String, content: Result<Vec<u8>, String>, then: Next) -> (r:
        Walk)
        ensures
            r@ == match content {
                Ok(bytes) => WalkView { next: then@, ..with_content(self@, bytes@) },
                Err(reason) => failed(self@, unreadable(display@, reason@)),
            },
    {
        let mut dirs: Vec<String> = self.dirs;
        let mut files: Vec<Upload> = self.files;
        let entry: String = self.entry;
        let ghost before = dirs@;
        dirs.push(entry.clone());
        proof {
            lemma_texts_push(before, entry);
        }
        let read: Result<Upload, Failure> = read_upload(Some(&dirs), display.as_str(), content);
        dirs.pop();
        assert(dirs@ == before);
        match read {
            Ok(upload) => {
                proof {
                    lemma_uploads_push(files@, upload);
                }
                files.push(upload);
                Walk { dirs, entry, files, next: then }
            },
            Err(failure) => Walk { dirs, entry, files, next: Next::Fail(failure) },
        }
    }

    /// The walk after the step that it asked for went as the event says, and what the
    /// user is told of it.
    pub fn step(self, event: Event) -> (r: (Walk, Option<String>))
        ensures
            r.0@ == walk_step(self@, event@),
            text_of(r.1) == walk_notice(self@, event@),
    {
        let ghost w = self@;
        match (&self.next, event) {
            (Next::ReadOps, Event::Content { display, content }) => {
                let mut walk: Walk = self.take_content(display, content, Next::ProbeDevice);
                match walk.next {
                    Next::ProbeDevice => {
                        walk.entry = "device".to_owned();
                    },
                    _ => {},
                }
                (walk, None)
            },
            (Next::ProbeDevice, Event::Device { root, found }) => {
                let is_dir: bool = match found {
                    Some(k) => !k.is_symlink && k.is_dir,
                    None => false,
                };
                let next: Next = if is_dir {
                    Next::OpenDirectory
                } else {
                    Next::Fail(
                        Failure::usage(
                            ALLOWED_DIR.to_owned().concat("/ is missing from ").concat(
                                root.as_str(),
                            ).concat(". Submit from an unmodified baseline layout."),
                        ),
                    )
                };
                (Walk { next, ..self }, None)
            },
            (Next::OpenDirectory, Event::Opened { display, outcome }) => {
                match outcome {
                    Ok(()) => {
                        let mut dirs: Vec<String> = self.dirs;
                        proof {
                            lemma_texts_push(dirs@, self.entry);
                        }
                        dirs.push(self.entry.clone());
                        (
                            Walk {
                                dirs,
                                entry: self.entry,
                                files: self.files,
                                next: Next::NextEntry,
                            },
                            None,
                        )
                    },
                    Err(reason) => {
                        let failure: Failure = cannot_read(display.as_str(), reason.as_str());
                        (Walk { next: Next::Fail(failure), ..self }, None)
                    },
                }
            },
            (Next::NextEntry, Event::Entry { display, entry }) => {
                match entry {
                    Ok(Some(name)) => (Walk { entry: name, next: Next::Inspect, ..self }, None),
                    Ok(None) => {
                        let mut dirs: Vec<String> = self.dirs;
                        let next: Next = if dirs.len() > 2 {
                            Next::NextEntry
                        } else {
                            Next::Done
                        };
                        dirs.pop();
                        assert(texts(dirs@) =~= outer(w.dirs));
                        (Walk { dirs, entry: self.entry, files: self.files, next }, None)
                    },
                    Err(reason) => {
                        let failure: Failure = cannot_read(display.as_str(), reason.as_str());
                        (Walk { next: Next::Fail(failure), ..self }, None)
                    },
                }
            },
            (Next::Inspect, Event::Inspected { display, kind }) => {
                match kind {
                    Ok(k) => {
                        if k.is_symlink {
                            let notice: String = "skipping symlink ".to_owned().concat(
                                display.as_str(),
                            );
                            (Walk { next: Next::NextEntry, ..self }, Some(notice))
                        } else {
                            let next: Next = if k.is_dir {
                                Next::OpenDirectory
                            } else if k.is_file {
                                Next::ReadFile
                            } else {
                                Next::NextEntry
                            };
                            (Walk { next, ..self }, None)
                        }
                    },
                    Err(reason) => {
                        let failure: Failure = Failure::usage(
                            "Cannot inspect ".to_owned().concat(display.as_str()).concat(
                                ": ",
                            ).concat(reason.as_str()),
                        );
                        (Walk { next: Next::Fail(failure), ..self }, None)
                    },
                }
            },
            (Next::ReadFile, Event::Content { display, content }) => {
                let then: Next = if self.files.len() >= MAX_FILES {
                    let limit: String = decimal(MAX_FILES as u128);
                    Next::Fail(
                        Failure::usage(
                            "More than ".to_owned().concat(limit.as_str()).concat(
                                " files under ",
                            ).concat(ALLOWED_DIR).concat("/. Check what is in there."),
                        ),
                    )
                } else {
                    Next::NextEntry
                };
                (self.take_content(display, content, then), None)
            },
            _ => (self, None),
        }
    }
}

/// The path is that of a file that may be submitted.
pub open spec fn submittable(path: Seq<char>) -> bool {
    path == ALLOWED_FILE@ || (ALLOWED_DIR@ + "/"@).is_prefix_of(path)
}

/// What holds of a walk at every step.
pub open spec fn walk_valid(w: WalkView) -> bool {
    &&& w.dirs.len() >= 1
    &&& w.dirs[0] == "src"@
    &&& w.dirs.len() >= 2 ==> w.dirs[1] == "device"@
    &&& match w.next {
        NextView::ReadOps => w.dirs.len() == 1 && w.entry == "ops.rs"@ && w.files.len() == 0,
        NextView::ProbeDevice => w.dirs.len() == 1 && w.entry == "device"@ && w.files.len() == 1,
        NextView::OpenDirectory => w.dirs.len() == 1 ==> w.entry == "device"@,
        NextView::NextEntry | NextView::Inspect | NextView::ReadFile => w.dirs.len() >= 2,
        NextView::Done | NextView::Fail(_) => true,
    }
    &&& match w.next {
        NextView::ReadOps | NextView::Fail(_) => true,
        _ => 1 <= w.files.len() <= MAX_FILES,
    }
    &&& w.files.len() > 0 ==> w.files[0].path == ALLOWED_FILE@
    &&& forall|i: int| 0 <= i < w.files.len() ==> submittable(#[trigger] w.files[i].path)
}

proof fn lemma_ops_path()
    ensures
        joined(seq!["src"@].push("ops.rs"@), "/"@) == ALLOWED_FILE@,
{
    reveal_strlit("src");
    reveal_strlit("ops.rs");
    reveal_strlit("/");
    reveal_strlit("src/ops.rs");
    let parts = seq!["src"@].push("ops.rs"@);
    assert(parts.drop_last() == seq!["src"@]);
    reveal_with_fuel(joined, 2);
    assert(joined(parts, "/"@) =~= ALLOWED_FILE@);
}

/// A path that leads through `src` and `device` to something below lies in the
/// device directory.
proof fn lemma_device_path(parts: Seq<Seq<char>>)
    requires
        parts.len() >= 3,
        parts[0] == "src"@,
        parts[1] == "device"@,
    ensures
        (ALLOWED_DIR@ + "/"@).is_prefix_of(joined(parts, "/"@)),
    decreases parts.len(),
{
    let prefix = ALLOWED_DIR@ + "/"@;
    if parts.len() == 3 {
        reveal_strlit("src");
        reveal_strlit("device");
        reveal_strlit("/");
        reveal_strlit("src/device");
        let two = parts.drop_last();
        let one = two.drop_last();
        assert(joined(one, "/"@) == "src"@);
        assert(joined(two, "/"@) =~= ALLOWED_DIR@);
        assert(joined(parts, "/"@) == prefix + parts.last());
        assert(joined(parts, "/"@).subrange(0, prefix.len() as int) =~= prefix);
    } else {
        let shorter = joined(parts.drop_last(), "/"@);
        lemma_device_path(parts.drop_last());
        assert(joined(parts, "/"@) == shorter + "/"@ + parts.last());
        assert(joined(parts, "/"@).subrange(0, prefix.len() as int) =~= shorter.subrange(
            0,
            prefix.len() as int,
        ));
    }
}

/// Each step of a walk keeps what holds of it.
pub proof fn lemma_step_valid(w: WalkView, e: EventView)
    requires
        walk_valid(w),
    ensures
        walk_valid(walk_step(w, e)),
{
    let parts = w.dirs.push(w.entry);
    match (w.next, e) {
        (NextView::ReadOps, EventView::Content { display, content }) => {
            assert(parts =~= seq!["src"@].push("ops.rs"@));
            lemma_ops_path();
        },
        (NextView::ReadFile, EventView::Content { display, content }) => {
            lemma_device_path(parts);
        },
        _ => {},
    }
}

/// Whatever the disk answers, a walk is valid after every step.
pub proof fn lemma_walk_valid(events: Seq<EventView>)
    ensures
        walk_valid(walk_after(events)),
    decreases events.len(),
{
    if events.len() > 0 {
        lemma_walk_valid(events.drop_last());
        lemma_step_valid(walk_after(events.drop_last()), events.last());
    }
}

/// Whatever the disk holds, only `src/ops.rs` and files below `src/device/` are
/// gathered, and a walk that is done has gathered `src/ops.rs`.
pub proof fn law_only_submittable_files(events: Seq<EventView>)
    ensures
        forall|i: int|
            0 <= i < walk_after(events).files.len() ==> submittable(
                #[trigger] walk_after(events).files[i].path,
            ),
        walk_after(events).next is Done ==> {
            &&& walk_after(events).files.len() > 0
            &&& walk_after(events).files[0].path == ALLOWED_FILE@
        },
{
    lemma_walk_valid(events);
}

/// A walk that has not failed holds no more files than a submission may have.
pub proof fn law_walk_is_bounded(events: Seq<EventView>)
    ensures
        walk_after(events).next !is Fail ==> walk_after(events).files.len() <= MAX_FILES,
{
    lemma_walk_valid(events);
}

/// A symbolic link is neither opened nor read: the walk passes on to the next entry
/// with the files that it had, and says so, whatever else the look at the link says.
pub proof fn law_symlinks_are_not_followed(w: WalkView, display: Seq<char>, kind: Kind)
    requires
        w.next is Inspect,
        kind.is_symlink,
    ensures
        ({
            let e = EventView::Inspected { display, kind: Ok(kind) };
            &&& walk_step(w, e) == (WalkView { next: NextView::NextEntry, ..w })
            &&& walk_notice(w, e) == Some("skipping symlink "@ + display)
        }),
{
}

/// Everything that was read is kept: no later step drops a file, and the content of a
/// plain file is added under its own path.
pub proof fn law_read_files_are_kept(w: WalkView, e: EventView)
    ensures
        w.files.is_prefix_of(walk_step(w, e).files),
        w.next is ReadFile && (e matches EventView::Content { content: Ok(bytes), .. })
            ==> walk_step(w, e).files == w.files.push(
            UploadView { path: entry_path(w), bytes: e->content->Ok_0 },
        ),
{
    let files = walk_step(w, e).files;
    assert(files.subrange(0, w.files.len() as int) =~= w.files);
}

/// A walk that is done or has failed asks for nothing more and stays as it is.
pub proof fn law_finished_walk_stays(w: WalkView, e: EventView)
    requires
        w.next is Done || w.next is Fail,
    ensures
        walk_step(w, e) == w,
{
}

/// What a directory holds, entry by entry.
pub enum Listing {
    End,
    File { name: Seq<char>, bytes: Seq<u8>, rest: Box<Listing> },
    Directory { name: Seq<char>, inside: Box<Listing>, rest: Box<Listing> },
    Symlink { name: Seq<char>, rest: Box<Listing> },
    Other { name: Seq<char>, rest: Box<Listing> },
}

/// The plain files of a directory and of those in it, each under its own path; `dirs`
/// are the names that lead to the directory.
pub open spec fn listed_files(dirs: Seq<Seq<char>>, listing: Listing) -> Seq<UploadView>
    decreases listing,
{
    match listing {
        Listing::End => Seq::empty(),
        Listing::File { name, bytes, rest } => seq![
            UploadView { path: joined(dirs.push(name), "/"@), bytes },
        ] + listed_files(dirs, *rest),
        Listing::Directory { name, inside, rest } => listed_files(dirs.push(name), *inside)
            + listed_files(dirs, *rest),
        Listing::Symlink { name, rest } => listed_files(dirs, *rest),
        Listing::Other { name, rest } => listed_files(dirs, *rest),
    }
}

/// That the next entry has the given name and is of the given kind.
pub open spec fn entry_events(name: Seq<char>, kind: Kind) -> Seq<EventView> {
    seq![
        EventView::Entry { display: Seq::empty(), entry: Ok(Some(name)) },
        EventView::Inspected { display: Seq::empty(), kind: Ok(kind) },
    ]
}

/// What a disk answers that holds the listing in an open directory and fails nowhere, with
/// the paths that it displays left out.
pub open spec fn listing_events(listing: Listing) -> Seq<EventView>
    decreases listing,
{
    match listing {
        Listing::End => seq![EventView::Entry { display: Seq::empty(), entry: Ok(None) }],
        Listing::File { name, bytes, rest } => entry_events(
            name,
            Kind { is_symlink: false, is_dir: false, is_file: true },
        ).push(EventView::Content { display: Seq::empty(), content: Ok(bytes) }) + listing_events(
            *rest,
        ),
        Listing::Directory { name, inside, rest } => entry_events(
            name,
            Kind { is_symlink: false, is_dir: true, is_file: false },
        ).push(EventView::Opened { display: Seq::empty(), outcome: Ok(()) }) + listing_events(
            *inside,
        ) + listing_events(*rest),
        Listing::Symlink { name, rest } => entry_events(
            name,
            Kind { is_symlink: true, is_dir: false, is_file: false },
        ) + listing_events(*rest),
        Listing::Other { name, rest } => entry_events(
            name,
            Kind { is_symlink: false, is_dir: false, is_file: false },
        ) + listing_events(*rest),
    }
}

/// What a disk answers that holds a repository with the given `src/ops.rs` and the given
/// device directory and fails nowhere, with the paths that it displays left out.
pub open spec fn repository_events(ops: Seq<u8>, device: Listing) -> Seq<EventView> {
    seq![
        EventView::Content { display: Seq::empty(), content: Ok(ops) },
        EventView::Device {
            root: Seq::empty(),
            found: Some(Kind { is_symlink: false, is_dir: true, is_file: false }),
        },
        EventView::Opened { display: Seq::empty(), outcome: Ok(()) },
    ] + listing_events(device)
}

proof fn lemma_run_concat(w: WalkView, a: Seq<EventView>, b: Seq<EventView>)
    ensures
        walk_run(w, a + b) == walk_run(walk_run(w, a), b),
    decreases b.len(),
{
    if b.len() == 0 {
        assert(a + b == a);
    } else {
        assert((a + b).drop_last() == a + b.drop_last());
        lemma_run_concat(w, a, b.drop_last());
    }
}

proof fn lemma_run_two(w: WalkView, x: EventView, y: EventView)
    ensures
        walk_run(w, seq![x, y]) == walk_step(walk_step(w, x), y),
{
    reveal_with_fuel(walk_run, 3);
    assert(seq![x, y].drop_last() == seq![x]);
    assert(seq![x].drop_last() == Seq::<EventView>::empty());
}

/// An entry is taken and looked at, and the walk goes on as its kind says.
proof fn lemma_entry_run(w: WalkView, name: Seq<char>, kind: Kind)
    requires
        w.next is NextEntry,
    ensures
        walk_run(w, entry_events(name, kind)) == (WalkView {
            entry: name,
            next: next_for(kind),
            ..w
        }),
{
    let x = EventView::Entry { display: Seq::empty(), entry: Ok(Some(name)) };
    let y = EventView::Inspected { display: Seq::empty(), kind: Ok(kind) };
    lemma_run_two(w, x, y);
}

/// One more event behind the others.
proof fn lemma_run_push(w: WalkView, events: Seq<EventView>, e: EventView)
    ensures
        walk_run(w, events.push(e)) == walk_step(walk_run(w, events), e),
{
    assert(events.push(e).drop_last() == events);
}

proof fn lemma_failed_run_stays(w: WalkView, events: Seq<EventView>)
    requires
        w.next is Fail,
    ensures
        walk_run(w, events) == w,
    decreases events.len(),
{
    if events.len() > 0 {
        lemma_failed_run_stays(w, events.drop_last());
    }
}

/// A link in the place of the device directory is refused, also one to a directory, as is
/// anything else that is no directory: the walk fails, and whatever comes later it gathers
/// nothing more.
pub proof fn law_linked_device_is_refused(
    w: WalkView,
    root: Seq<char>,
    found: Option<Kind>,
    later: Seq<EventView>,
)
    requires
        w.next is ProbeDevice,
        found matches Some(k) ==> k.is_symlink || !k.is_dir,
    ensures
        walk_run(walk_step(w, EventView::Device { root, found }), later) == failed(
            w,
            no_device(root),
        ),
{
    lemma_failed_run_stays(failed(w, no_device(root)), later);
}

/// Event `i` is the answer that let the walk into the device directory: that there is a
/// directory, and not a link to one.
pub open spec fn lets_in(events: Seq<EventView>, i: int) -> bool {
    &&& 0 <= i < events.len()
    &&& walk_after(events.take(i)).next is ProbeDevice
    &&& events[i] matches EventView::Device { found, .. } && is_directory(found)
}

/// Nothing is gathered through a link at the device directory: a walk that has gathered
/// more than `src/ops.rs`, or is done, was told that the device directory is no link.
pub proof fn law_device_is_no_link(events: Seq<EventView>)
    ensures
        walk_after(events).files.len() > 1 || walk_after(events).next is Done ==> exists|i: int|
            lets_in(events, i),
        match walk_after(events).next {
            NextView::ReadOps | NextView::ProbeDevice | NextView::Fail(_) => true,
            _ => exists|i: int| lets_in(events, i),
        },
    decreases events.len(),
{
    if events.len() > 0 {
        let before = events.drop_last();
        let n = before.len() as int;
        law_device_is_no_link(before);
        lemma_walk_valid(before);
        assert(events.take(n) =~= before);
        if exists|i: int| lets_in(before, i) {
            let i = choose|i: int| lets_in(before, i);
            assert(events.take(i) =~= before.take(i));
            assert(lets_in(events, i));
        } else if walk_after(before).next is ProbeDevice && walk_after(events).next
            is OpenDirectory {
            assert(lets_in(events, n));
        }
    }
}

/// From an open directory to its end: the files of the listing are added in their order
/// and the directory is left, or the walk fails because there are too many.
#[verifier::spinoff_prover]
#[verifier::rlimit(30)]
proof fn lemma_listing_run(w: WalkView, listing: Listing)
    requires
        w.next is NextEntry,
        w.dirs.len() >= 2,
        w.files.len() <= MAX_FILES,
    ensures
        ({
            let end = walk_run(w, listing_events(listing));
            let found = listed_files(w.dirs, listing);
            if w.files.len() + found.len() <= MAX_FILES {
                &&& end.files == w.files + found
                &&& end.dirs == w.dirs.drop_last()
                &&& end.next == if w.dirs.len() > 2 {
                    NextView::NextEntry
                } else {
                    NextView::Done
                }
            } else {
                end.next == NextView::Fail(more_than_allowed())
            }
        }),
    decreases listing,
{
    let found = listed_files(w.dirs, listing);
    match listing {
        Listing::End => {
            reveal_with_fuel(walk_run, 2);
            let e = EventView::Entry { display: Seq::empty(), entry: Ok(None) };
            assert(seq![e].drop_last() == Seq::<EventView>::empty());
            assert(w.files + found == w.files);
        },
        Listing::File { name, bytes, rest } => {
            let kind = Kind { is_symlink: false, is_dir: false, is_file: true };
            let last = EventView::Content { display: Seq::empty(), content: Ok(bytes) };
            let head = entry_events(name, kind);
            lemma_entry_run(w, name, kind);
            lemma_run_push(w, head, last);
            lemma_run_concat(w, head.push(last), listing_events(*rest));
            let w1 = walk_run(w, head.push(last));
            assert(w1.dirs == w.dirs);
            assert(w1.files == w.files.push(
                UploadView { path: joined(w.dirs.push(name), "/"@), bytes },
            ));
            if w1.next is Fail {
                lemma_failed_run_stays(w1, listing_events(*rest));
            } else {
                lemma_listing_run(w1, *rest);
                assert(w1.files + listed_files(w.dirs, *rest) =~= w.files + found);
            }
        },
        Listing::Directory { name, inside, rest } => {
            let kind = Kind { is_symlink: false, is_dir: true, is_file: false };
            let last = EventView::Opened { display: Seq::empty(), outcome: Ok(()) };
            let head = entry_events(name, kind);
            let within = listing_events(*inside);
            lemma_entry_run(w, name, kind);
            lemma_run_push(w, head, last);
            lemma_run_concat(w, head.push(last), within);
            lemma_run_concat(w, head.push(last) + within, listing_events(*rest));
            let w1 = walk_run(w, head.push(last));
            assert(w1.dirs == w.dirs.push(name));
            assert(w1.files == w.files);
            lemma_listing_run(w1, *inside);
            let w2 = walk_run(w1, within);
            if w2.next is Fail {
                lemma_failed_run_stays(w2, listing_events(*rest));
            } else {
                assert(w2.dirs =~= w.dirs);
                lemma_listing_run(w2, *rest);
                assert(w2.files + listed_files(w.dirs, *rest) =~= w.files + found);
            }
        },
        Listing::Symlink { name, rest } => {
            let kind = Kind { is_symlink: true, is_dir: false, is_file: false };
            lemma_entry_run(w, name, kind);
            lemma_run_concat(w, entry_events(name, kind), listing_events(*rest));
            lemma_listing_run(walk_run(w, entry_events(name, kind)), *rest);
        },
        Listing::Other { name, rest } => {
            let kind = Kind { is_symlink: false, is_dir: false, is_file: false };
            lemma_entry_run(w, name, kind);
            lemma_run_concat(w, entry_events(name, kind), listing_events(*rest));
            lemma_listing_run(walk_run(w, entry_events(name, kind)), *rest);
        },
    }
}

/// The two events are the same good answer; only the paths that they display may differ.
pub open spec fn same_answer(a: EventView, b: EventView) -> bool {
    match (a, b) {
        (
            EventView::Content { content: Ok(x), .. },
            EventView::Content { content: Ok(y), .. },
        ) => x == y,
        (
            EventView::Device { found: Some(x), .. },
            EventView::Device { found: Some(y), .. },
        ) => !x.is_symlink && x.is_dir && !y.is_symlink && y.is_dir,
        (EventView::Opened { outcome, .. }, EventView::Opened { outcome: other, .. }) => outcome
            is Ok && other is Ok,
        (EventView::Entry { entry: Ok(x), .. }, EventView::Entry { entry: Ok(y), .. }) => x == y,
        (EventView::Inspected { kind: Ok(x), .. }, EventView::Inspected { kind: Ok(y), .. }) => x
            == y,
        _ => false,
    }
}

/// The two runs of events are the same good answers, one after the other; only the paths
/// that they display may differ.
pub open spec fn alike(a: Seq<EventView>, b: Seq<EventView>) -> bool {
    &&& a.len() == b.len()
    &&& forall|i: int| 0 <= i < a.len() ==> same_answer(#[trigger] a[i], b[i])
}

/// Good answers lead to the same whatever paths are displayed.
proof fn lemma_alike_run(w: WalkView, a: Seq<EventView>, b: Seq<EventView>)
    requires
        alike(a, b),
    ensures
        walk_run(w, a) == walk_run(w, b),
    decreases a.len(),
{
    if a.len() > 0 {
        let (front, other) = (a.drop_last(), b.drop_last());
        assert forall|i: int| 0 <= i < front.len() implies same_answer(
            #[trigger] front[i],
            other[i],
        ) by {
            assert(same_answer(a[i], b[i]));
        }
        lemma_alike_run(w, front, other);
        assert(same_answer(a[a.len() - 1], b[b.len() - 1]));
    }
}

/// From a repository on a disk that fails nowhere, whatever paths it displays, the walk
/// gathers `src/ops.rs` and every plain file below `src/device/`, each once, under its own
/// path and with its own content, and nothing else; unless those are too many, and then it
/// fails for that.
pub proof fn law_walk_gathers_everything(events: Seq<EventView>, ops: Seq<u8>, device: Listing)
    requires
        alike(events, repository_events(ops, device)),
    ensures
        ({
            let end = walk_after(events);
            let below = listed_files(seq!["src"@, "device"@], device);
            if 1 + below.len() <= MAX_FILES {
                &&& end.next is Done
                &&& end.files == seq![UploadView { path: ALLOWED_FILE@, bytes: ops }] + below
            } else {
                end.next == NextView::Fail(more_than_allowed())
            }
        }),
{
    lemma_alike_run(walk_start(), events, repository_events(ops, device));
    let w = walk_start();
    let last = EventView::Opened { display: Seq::empty(), outcome: Ok(()) };
    let x = EventView::Content { display: Seq::empty(), content: Ok(ops) };
    let kind = Kind { is_symlink: false, is_dir: true, is_file: false };
    let y = EventView::Device { root: Seq::empty(), found: Some(kind) };
    let head = seq![x, y, last];
    assert(head == seq![x, y].push(last));
    lemma_run_two(w, x, y);
    lemma_run_push(w, seq![x, y], last);
    lemma_run_concat(w, head, listing_events(device));
    lemma_ops_path();
    let w1 = walk_run(w, head);
    assert(w1.dirs =~= seq!["src"@, "device"@]);
    assert(w1.files =~= seq![UploadView { path: ALLOWED_FILE@, bytes: ops }]);
    lemma_listing_run(w1, device);
}

/// What is accepted after a walk, in the order in which it is sent, are files that may be
/// submitted, `src/ops.rs` among them; and that there are too many is never the reason for
/// which the files of a finished walk are turned down.
pub proof fn law_accepted_files_are_submittable(
    events: Seq<EventView>,
    files: Seq<Upload>,
    sorted: Seq<Upload>,
)
    requires
        walk_after(events).next is Done,
        uploads(files) == walk_after(events).files,
        is_path_sort(files, sorted),
    ensures
        files.len() <= MAX_FILES,
        forall|i: int| 0 <= i < sorted.len() ==> submittable((#[trigger] sorted[i]).path@),
        exists|i: int| 0 <= i < sorted.len() && (#[trigger] sorted[i]).path@ == ALLOWED_FILE@,
{
    let w = walk_after(events);
    lemma_walk_valid(events);
    assert(files.len() == w.files.len());
    assert forall|i: int| 0 <= i < sorted.len() implies submittable(
        (#[trigger] sorted[i]).path@,
    ) by {
        lemma_same_files(files, sorted, sorted[i]);
        assert(sorted.contains(sorted[i]));
        let k = choose|k: int| 0 <= k < files.len() && files[k] == sorted[i];
        assert(uploads(files)[k] == files[k]@);
        assert(submittable(w.files[k].path));
    }
    lemma_same_files(files, sorted, files[0]);
    assert(files.contains(files[0]));
    assert(uploads(files)[0] == files[0]@);
    let i = choose|i: int| 0 <= i < sorted.len() && sorted[i] == files[0];
    assert(sorted[i].path@ == ALLOWED_FILE@);
}

/// A step that goes wrong ends the walk with what went wrong and with the files that it
/// had; and an event that answers something else than what was asked for changes nothing.
pub proof fn law_failed_steps_end_the_walk(w: WalkView, display: Seq<char>, reason: Seq<char>)
    ensures
        ({
            let read = walk_step(w, EventView::Content { display, content: Err(reason) });
            let open = walk_step(w, EventView::Opened { display, outcome: Err(reason) });
            let list = walk_step(w, EventView::Entry { display, entry: Err(reason) });
            let look = walk_step(w, EventView::Inspected { display, kind: Err(reason) });
            let gone = walk_step(w, EventView::Device { root: display, found: None });
            &&& if w.next is ReadOps || w.next is ReadFile {
                read.next == NextView::Fail(unreadable(display, reason)) && read.files == w.files
            } else {
                read == w
            }
            &&& if w.next is OpenDirectory {
                open.next == NextView::Fail(unreadable(display, reason)) && open.files == w.files
            } else {
                open == w
            }
            &&& if w.next is NextEntry {
                list.next == NextView::Fail(unreadable(display, reason)) && list.files == w.files
            } else {
                list == w
            }
            &&& if w.next is Inspect {
                look.next == NextView::Fail(uninspectable(display, reason)) && look.files
                    == w.files
            } else {
                look == w
            }
            &&& if w.next is ProbeDevice {
                gone.next == NextView::Fail(no_device(display)) && gone.files == w.files
            } else {
                gone == w
            }
        }),
{
}

/// A good answer to something else than what was asked for changes nothing.
pub proof fn law_walk_ignores_other_events(w: WalkView, e: EventView)
    requires
        match e {
            EventView::Content { .. } => !(w.next is ReadOps || w.next is ReadFile),
            EventView::Device { .. } => !(w.next is ProbeDevice),
            EventView::Opened { .. } => !(w.next is OpenDirectory),
            EventView::Entry { .. } => !(w.next is NextEntry),
            EventView::Inspected { .. } => !(w.next is Inspect),
        },
    ensures
        walk_step(w, e) == w,
        walk_notice(w, e) is None,
{
}

/// What is said of a path holds all of it, and all of the reason where there is one, between
/// the same words. The user is told of links alone, and of each of them.
pub proof fn law_walk_tells_paths(
    w: WalkView,
    e: EventView,
    x: (Seq<char>, Seq<char>),
    y: (Seq<char>, Seq<char>),
    kind: Kind,
)
    ensures
        told_alike(no_device(x.0), seq![x.0], no_device(y.0), seq![y.0]),
        told_alike(
            uninspectable(x.0, x.1),
            seq![x.0, x.1],
            uninspectable(y.0, y.1),
            seq![y.0, y.1],
        ),
        walk_notice(w, e) is Some <==> w.next is Inspect && (e matches EventView::Inspected {
            kind: Ok(k),
            ..
        } && k.is_symlink),
        w.next is Inspect && kind.is_symlink ==> same_words(
            walk_notice(w, EventView::Inspected { display: x.0, kind: Ok(kind) })->0,
            seq![x.0],
            walk_notice(w, EventView::Inspected { display: y.0, kind: Ok(kind) })->0,
            seq![y.0],
        ),
{
    let no = Seq::<char>::empty();
    let a = ALLOWED_DIR@ + "/ is missing from "@;
    let b = ". Submit from an unmodified baseline layout."@;
    lemma_same_words(a, b, x.0, y.0);
    lemma_same_words_two("Cannot inspect "@, ": "@, no, x, y);
    assert(uninspectable(x.0, x.1).message =~= "Cannot inspect "@ + x.0 + ": "@ + x.1 + no);
    assert(uninspectable(y.0, y.1).message =~= "Cannot inspect "@ + y.0 + ": "@ + y.1 + no);
    let c = "skipping symlink "@;
    lemma_same_words(c, no, x.0, y.0);
    assert(c + x.0 + no =~= c + x.0);
    assert(c + y.0 + no =~= c + y.0);
}

/// What is seen of events, steps and the walk is what they hold.
pub proof fn law_walk_views(
    display: String,
    text: String,
    bytes: Vec<u8>,
    found: Option<Kind>,
    kind: Kind,
    failure: Failure,
    walk: Walk,
)
    ensures
        (Event::Content { display, content: Ok(bytes) })@ == (EventView::Content {
            display: display@,
            content: Ok(bytes@),
        }),
        (Event::Content { display, content: Err(text) })@ == (EventView::Content {
            display: display@,
            content: Err(text@),
        }),
        (Event::Device { root: display, found })@ == (EventView::Device { root: display@, found }),
        (Event::Opened { display, outcome: Ok(()) })@ == (EventView::Opened {
            display: display@,
            outcome: Ok(()),
        }),
        (Event::Opened { display, outcome: Err(text) })@ == (EventView::Opened {
            display: display@,
            outcome: Err(text@),
        }),
        (Event::Entry { display, entry: Ok(Some(text)) })@ == (EventView::Entry {
            display: display@,
            entry: Ok(Some(text@)),
        }),
        (Event::Entry { display, entry: Ok(None) })@ == (EventView::Entry {
            display: display@,
            entry: Ok(None),
        }),
        (Event::Entry { display, entry: Err(text) })@ == (EventView::Entry {
            display: display@,
            entry: Err(text@),
        }),
        (Event::Inspected { display, kind: Ok(kind) })@ == (EventView::Inspected {
            display: display@,
            kind: Ok(kind),
        }),
        (Event::Inspected { display, kind: Err(text) })@ == (EventView::Inspected {
            display: display@,
            kind: Err(text@),
        }),
        Next::ReadOps@ is ReadOps,
        Next::ProbeDevice@ is ProbeDevice,
        Next::OpenDirectory@ is OpenDirectory,
        Next::NextEntry@ is NextEntry,
        Next::Inspect@ is Inspect,
        Next::ReadFile@ is ReadFile,
        Next::Done@ is Done,
        Next::Fail(failure)@ == NextView::Fail(failure@),
        walk@.dirs == texts(walk.dirs@) && walk@.entry == walk.entry@,
        walk@.files == uploads(walk.files@) && walk@.next == walk.next@,
{
}

} // verus!
