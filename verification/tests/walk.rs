use moa_submitter::failure::{Failure, EXIT_USAGE};
use moa_submitter::sources::{collect_sources, MAX_FILES};
use moa_submitter::walk::{Event, Kind, Next, Walk};

const FILE: Kind = Kind { is_symlink: false, is_dir: false, is_file: true };
const DIR: Kind = Kind { is_symlink: false, is_dir: true, is_file: false };
const LINK: Kind = Kind { is_symlink: true, is_dir: false, is_file: false };
const SOCKET: Kind = Kind { is_symlink: false, is_dir: false, is_file: false };

fn content(bytes: &[u8]) -> Event {
    Event::Content { display: "/r/f".to_string(), content: Ok(bytes.to_vec()) }
}

fn unreadable() -> Event {
    Event::Content { display: "/r/f".to_string(), content: Err("denied".to_string()) }
}

fn device(found: Option<Kind>) -> Event {
    Event::Device { root: "/r".to_string(), found }
}

fn opened() -> Event {
    Event::Opened { display: "/r/d".to_string(), outcome: Ok(()) }
}

fn entry(name: &str) -> Event {
    Event::Entry { display: "/r/d".to_string(), entry: Ok(Some(name.to_string())) }
}

fn end() -> Event {
    Event::Entry { display: "/r/d".to_string(), entry: Ok(None) }
}

fn kind(kind: Kind) -> Event {
    Event::Inspected { display: "/r/d/e".to_string(), kind: Ok(kind) }
}

fn run(events: Vec<Event>) -> (Walk, Vec<String>) {
    let mut walk = Walk::start();
    let mut notices = Vec::new();
    for event in events {
        let (next, notice) = walk.step(event);
        walk = next;
        notices.extend(notice);
    }
    (walk, notices)
}

fn failed(events: Vec<Event>) -> Failure {
    match run(events).0.next {
        Next::Fail(failure) => {
            assert_eq!(failure.code, EXIT_USAGE);
            failure
        }
        other => panic!("{other:?}"),
    }
}

#[test]
fn a_walk_gathers_ops_and_all_that_is_below_device() {
    let (walk, notices) = run(vec![
        content(b"ops"),
        device(Some(DIR)),
        opened(),
        entry("b.rs"),
        kind(FILE),
        content(b"b"),
        entry("sub"),
        kind(DIR),
        opened(),
        entry("deep"),
        kind(DIR),
        opened(),
        entry("c.rs"),
        kind(FILE),
        content(b"c"),
        end(),
        end(),
        entry("link"),
        kind(LINK),
        entry("socket"),
        kind(SOCKET),
        entry("a.rs"),
        kind(FILE),
        content(b"a"),
        end(),
    ]);
    assert!(matches!(walk.next, Next::Done));
    let found: Vec<(&str, &[u8])> =
        walk.files.iter().map(|f| (f.path.as_str(), f.bytes.as_slice())).collect();
    assert_eq!(
        found,
        vec![
            ("src/ops.rs", b"ops".as_slice()),
            ("src/device/b.rs", b"b".as_slice()),
            ("src/device/sub/deep/c.rs", b"c".as_slice()),
            ("src/device/a.rs", b"a".as_slice()),
        ]
    );
    assert_eq!(notices, vec!["skipping symlink /r/d/e"]);
    let sorted = collect_sources(walk.files).unwrap();
    assert_eq!(sorted[0].path, "src/device/a.rs");
    assert_eq!(sorted[3].path, "src/ops.rs");
}

#[test]
fn a_link_to_a_directory_or_a_file_is_passed_over() {
    for also in [
        Kind { is_symlink: true, is_dir: true, is_file: false },
        Kind { is_symlink: true, is_dir: false, is_file: true },
    ] {
        let (walk, notices) =
            run(vec![content(b"o"), device(Some(DIR)), opened(), entry("l"), kind(also)]);
        assert!(matches!(walk.next, Next::NextEntry));
        assert_eq!(walk.files.len(), 1);
        assert_eq!(notices.len(), 1);
    }
}

#[test]
fn the_walk_asks_for_one_thing_after_another() {
    let (walk, _) = run(vec![]);
    assert!(matches!(walk.next, Next::ReadOps));
    let (walk, _) = walk.step(content(b"o"));
    assert!(matches!(walk.next, Next::ProbeDevice));
    let (walk, _) = walk.step(device(Some(DIR)));
    assert!(matches!(walk.next, Next::OpenDirectory));
    let (walk, _) = walk.step(opened());
    assert!(matches!(walk.next, Next::NextEntry));
    let (walk, _) = walk.step(entry("x"));
    assert!(matches!(walk.next, Next::Inspect));
    let (walk, _) = walk.step(content(b"no"));
    assert!(matches!(walk.next, Next::Inspect));
    let (walk, _) = walk.step(kind(FILE));
    assert!(matches!(walk.next, Next::ReadFile));
}

#[test]
fn a_repository_without_its_parts_is_refused() {
    assert_eq!(failed(vec![unreadable()]).message, "Cannot read /r/f: denied");
    for none in [None, Some(FILE), Some(SOCKET)] {
        assert_eq!(
            failed(vec![content(b"o"), device(none)]).message,
            "src/device/ is missing from /r. Submit from an unmodified baseline layout."
        );
    }
}

#[test]
fn a_link_in_the_place_of_the_device_directory_is_refused() {
    let to_directory = Kind { is_symlink: true, is_dir: true, is_file: false };
    for link in [LINK, to_directory] {
        let events = || {
            vec![content(b"o"), device(Some(link)), opened(), entry("f"), kind(FILE), content(b"x")]
        };
        assert_eq!(
            failed(events()).message,
            "src/device/ is missing from /r. Submit from an unmodified baseline layout."
        );
        let (walk, notices) = run(events());
        assert_eq!(walk.files.len(), 1);
        assert_eq!(walk.files[0].path, "src/ops.rs");
        assert!(notices.is_empty());
    }
}

#[test]
fn a_disk_that_fails_ends_the_walk() {
    let shut = Event::Opened { display: "/r/d".to_string(), outcome: Err("shut".to_string()) };
    assert_eq!(
        failed(vec![content(b"o"), device(Some(DIR)), shut]).message,
        "Cannot read /r/d: shut"
    );
    let lost = Event::Entry { display: "/r/d".to_string(), entry: Err("lost".to_string()) };
    assert_eq!(
        failed(vec![content(b"o"), device(Some(DIR)), opened(), lost]).message,
        "Cannot read /r/d: lost"
    );
    let gone = Event::Inspected { display: "/r/d/e".to_string(), kind: Err("gone".to_string()) };
    assert_eq!(
        failed(vec![content(b"o"), device(Some(DIR)), opened(), entry("e"), gone]).message,
        "Cannot inspect /r/d/e: gone"
    );
    assert_eq!(
        failed(vec![content(b"o"), device(Some(DIR)), opened(), entry("e"), kind(FILE), unreadable()])
            .message,
        "Cannot read /r/f: denied"
    );
}

#[test]
fn the_walk_stops_at_too_many_files() {
    let mut events = vec![content(b"o"), device(Some(DIR)), opened()];
    for i in 1..MAX_FILES {
        events.push(entry(&format!("{i}")));
        events.push(kind(FILE));
        events.push(content(b"x"));
    }
    let (walk, _) = run(events);
    assert!(matches!(walk.next, Next::NextEntry));
    assert_eq!(walk.files.len(), 1000);
    let (walk, _) = walk.step(entry("more"));
    let (walk, _) = walk.step(kind(FILE));
    let (walk, _) = walk.step(content(b"x"));
    match walk.next {
        Next::Fail(failure) => assert_eq!(
            failure.message,
            "More than 1000 files under src/device/. Check what is in there."
        ),
        other => panic!("{other:?}"),
    }
}
