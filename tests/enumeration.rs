use known_folders::query::{Enumeration, Event, Failure, NamedPath, Step};
use known_folders::report::{render_table, sort_by_name};

/// A simulated registry entry: the outcome of decoding its name, and of
/// resolving its path.
type Entry<'a> = (Result<&'a str, &'a str>, Result<&'a str, &'a str>);

/// Acquisitions and releases seen by the simulated service, per resource kind:
/// session, id set, metadata, path string.
#[derive(Default, Debug, PartialEq)]
struct Ledger {
    acquired: [u32; 4],
    released: [u32; 4],
}

fn drive(open_ok: bool, entries: &[Entry]) -> (Enumeration, Ledger) {
    let mut walk = Enumeration::new();
    let mut ledger = Ledger::default();
    let mut turns = 0;
    while !walk.is_done() {
        turns += 1;
        assert!(turns < 1000, "the walk does not end");
        let index = walk.entry_index() as usize;
        let event = match walk.step() {
            Step::OpenSession => {
                if open_ok {
                    ledger.acquired[0] += 1;
                    Event::Succeeded
                } else {
                    Event::Failed("session refused".to_string())
                }
            }
            Step::ListIds => {
                ledger.acquired[1] += 1;
                Event::Listed(entries.len() as u32)
            }
            Step::GetMetadata => {
                ledger.acquired[2] += 1;
                Event::Succeeded
            }
            Step::DecodeName => match entries[index].0 {
                Ok(name) => Event::Decoded(name.to_string()),
                Err(m) => Event::Failed(m.to_string()),
            },
            Step::ReleaseMetadata => {
                ledger.released[2] += 1;
                Event::Succeeded
            }
            Step::GetPath => match entries[index].1 {
                Ok(_) => {
                    ledger.acquired[3] += 1;
                    Event::Succeeded
                }
                Err(m) => Event::Failed(m.to_string()),
            },
            Step::DecodePath => match entries[index].1 {
                Ok(p) if p.is_empty() => Event::Failed("ill-formed path".to_string()),
                Ok(p) => Event::Decoded(p.to_string()),
                Err(_) => unreachable!(),
            },
            Step::ReleasePath => {
                ledger.released[3] += 1;
                Event::Succeeded
            }
            Step::ReleaseIds => {
                ledger.released[1] += 1;
                Event::Succeeded
            }
            Step::CloseSession => {
                ledger.released[0] += 1;
                Event::Succeeded
            }
            Step::Done => unreachable!(),
        };
        walk.advance(event);
    }
    (walk, ledger)
}

/// What the program prints for a walk, and its exit code.
fn output(walk: Enumeration) -> (Vec<String>, i32) {
    let code = walk.exit_code();
    match walk.finish() {
        Ok(records) => (render_table(&sort_by_name(records)), code),
        Err(_) => (Vec::new(), code),
    }
}

fn record(name: &str, try_path: Result<&str, &str>) -> NamedPath {
    NamedPath {
        name: name.to_string(),
        try_path: try_path.map(|p| p.to_string()).map_err(|m| m.to_string()),
    }
}

#[test]
fn sorted_table_with_path_and_bracketed_message() {
    let entries: [Entry; 2] = [
        (Ok("ZDrive"), Err("not redirected")),
        (Ok("Desktop"), Ok("C:\\Users\\X\\Desktop")),
    ];
    let (walk, _) = drive(true, &entries);
    let (lines, code) = output(walk);
    assert_eq!(code, 0);
    assert_eq!(
        lines,
        vec![
            "Desktop  C:\\Users\\X\\Desktop".to_string(),
            "ZDrive   [not redirected]".to_string(),
        ]
    );
}

#[test]
fn empty_registry_prints_nothing_and_succeeds() {
    let (walk, ledger) = drive(true, &[]);
    let (lines, code) = output(walk);
    assert!(lines.is_empty());
    assert_eq!(code, 0);
    assert_eq!(ledger.acquired, ledger.released);
    assert_eq!(ledger.acquired, [1, 1, 0, 0]);
}

#[test]
fn session_open_failure_exits_with_two() {
    let entries: [Entry; 1] = [(Ok("Desktop"), Ok("C:\\Users\\X\\Desktop"))];
    let (walk, ledger) = drive(false, &entries);
    assert_eq!(walk.exit_code(), 2);
    match walk.finish() {
        Err(Failure::SessionOpen(m)) => assert_eq!(m, "session refused"),
        other => panic!("unexpected result: {other:?}"),
    }
    assert_eq!(ledger.acquired, [0, 0, 0, 0]);
    assert_eq!(ledger.released, [0, 0, 0, 0]);
    let (walk, _) = drive(false, &entries);
    let (lines, code) = output(walk);
    assert!(lines.is_empty());
    assert_eq!(code, 2);
}

#[test]
fn name_decode_failure_aborts_the_run() {
    let entries: [Entry; 3] = [
        (Ok("Desktop"), Ok("C:\\Users\\X\\Desktop")),
        (Err("ill-formed name"), Ok("C:\\Elsewhere")),
        (Ok("Music"), Ok("C:\\Users\\X\\Music")),
    ];
    let (walk, ledger) = drive(true, &entries);
    assert_eq!(walk.exit_code(), 1);
    match walk.finish() {
        Err(Failure::Enumeration(m)) => assert_eq!(m, "ill-formed name"),
        other => panic!("unexpected result: {other:?}"),
    }
    assert_eq!(ledger.acquired, ledger.released);
    assert_eq!(ledger.acquired, [1, 1, 2, 1]);
    let (walk, _) = drive(true, &entries);
    let (lines, code) = output(walk);
    assert!(lines.is_empty());
    assert_eq!(code, 1);
}

#[test]
fn path_failure_does_not_abort_the_run() {
    let entries: [Entry; 3] = [
        (Ok("Desktop"), Ok("C:\\Users\\X\\Desktop")),
        (Ok("Contacts"), Err("not found")),
        (Ok("Music"), Ok("C:\\Users\\X\\Music")),
    ];
    let (walk, ledger) = drive(true, &entries);
    assert_eq!(walk.exit_code(), 0);
    let records = walk.finish().unwrap();
    assert_eq!(records.len(), 3);
    assert_eq!(records[1].name, "Contacts");
    assert_eq!(records[1].try_path, Err("not found".to_string()));
    assert_eq!(ledger.acquired, ledger.released);
    assert_eq!(ledger.acquired, [1, 1, 3, 2]);
}

#[test]
fn path_decode_failure_releases_everything() {
    let entries: [Entry; 2] = [
        (Ok("Desktop"), Ok("C:\\Users\\X\\Desktop")),
        (Ok("Broken"), Ok("")),
    ];
    let (walk, ledger) = drive(true, &entries);
    assert_eq!(walk.exit_code(), 1);
    assert!(walk.finish().is_err());
    assert_eq!(ledger.acquired, ledger.released);
    assert_eq!(ledger.acquired, [1, 1, 2, 2]);
}

#[test]
fn listing_failure_closes_the_session() {
    let mut walk = Enumeration::new();
    walk.advance(Event::Succeeded);
    assert_eq!(walk.step(), Step::ListIds);
    walk.advance(Event::Failed("no ids".to_string()));
    assert_eq!(walk.step(), Step::CloseSession);
    walk.advance(Event::Succeeded);
    assert!(walk.is_done());
    assert_eq!(walk.exit_code(), 1);
}

#[test]
fn metadata_failure_releases_ids_then_session() {
    let mut walk = Enumeration::new();
    walk.advance(Event::Succeeded);
    walk.advance(Event::Listed(4));
    assert_eq!(walk.step(), Step::GetMetadata);
    assert_eq!(walk.entry_index(), 0);
    walk.advance(Event::Failed("no entry".to_string()));
    assert_eq!(walk.step(), Step::ReleaseIds);
    walk.advance(Event::Succeeded);
    assert_eq!(walk.step(), Step::CloseSession);
    walk.advance(Event::Succeeded);
    assert_eq!(walk.step(), Step::Done);
    assert_eq!(walk.exit_code(), 1);
}

#[test]
fn entries_are_walked_in_order() {
    let mut walk = Enumeration::new();
    walk.advance(Event::Succeeded);
    walk.advance(Event::Listed(2));
    for (i, name) in ["B", "A"].iter().enumerate() {
        assert_eq!(walk.step(), Step::GetMetadata);
        assert_eq!(walk.entry_index(), i as u32);
        walk.advance(Event::Succeeded);
        walk.advance(Event::Decoded(name.to_string()));
        assert_eq!(walk.step(), Step::ReleaseMetadata);
        walk.advance(Event::Succeeded);
        assert_eq!(walk.step(), Step::GetPath);
        walk.advance(Event::Succeeded);
        walk.advance(Event::Decoded(format!("C:\\{name}")));
        assert_eq!(walk.step(), Step::ReleasePath);
        walk.advance(Event::Succeeded);
    }
    assert_eq!(walk.step(), Step::ReleaseIds);
    walk.advance(Event::Succeeded);
    walk.advance(Event::Succeeded);
    let records = walk.finish().unwrap();
    assert_eq!(records[0].name, "B");
    assert_eq!(records[1].try_path, Ok("C:\\A".to_string()));
}

#[test]
fn columns_line_up_two_past_widest_name() {
    let records = vec![
        record("Fonts", Ok("C:\\Windows\\Fonts")),
        record("CommonStartX", Err("gone")),
        record("Abc", Ok("C:\\abc")),
    ];
    let lines = render_table(&sort_by_name(records));
    assert_eq!(lines.len(), 3);
    for line in &lines {
        let chars: Vec<char> = line.chars().collect();
        assert_eq!(chars[12], ' ');
        assert_eq!(chars[13], ' ');
        assert_ne!(chars[14], ' ');
    }
    assert_eq!(lines[0], "Abc           C:\\abc");
    assert_eq!(lines[1], "CommonStartX  [gone]");
    assert_eq!(lines[2], "Fonts         C:\\Windows\\Fonts");
}

#[test]
fn width_counts_characters_not_bytes() {
    let records = vec![record("Émile", Ok("x")), record("ab", Ok("y"))];
    let lines = render_table(&records);
    assert_eq!(lines[0], "Émile  x");
    assert_eq!(lines[1], "ab     y");
}

#[test]
fn sort_orders_by_code_point() {
    let records = vec![
        record("b", Ok("1")),
        record("B", Ok("2")),
        record("ab", Ok("3")),
        record("a", Ok("4")),
        record("é", Ok("5")),
    ];
    let names: Vec<String> = sort_by_name(records).into_iter().map(|r| r.name).collect();
    assert_eq!(names, vec!["B", "a", "ab", "b", "é"]);
}

#[test]
fn render_empty_table() {
    assert!(render_table(&Vec::new()).is_empty());
}

#[test]
fn events_accepted_per_step() {
    let mut walk = Enumeration::new();
    assert!(walk.accepts_event(&Event::Succeeded));
    assert!(walk.accepts_event(&Event::Failed("x".to_string())));
    assert!(!walk.accepts_event(&Event::Listed(3)));
    assert!(!walk.accepts_event(&Event::Decoded("x".to_string())));
    walk.advance(Event::Succeeded);
    assert!(walk.accepts_event(&Event::Listed(3)));
    assert!(!walk.accepts_event(&Event::Succeeded));
    walk.advance(Event::Listed(0));
    assert_eq!(walk.step(), Step::ReleaseIds);
    assert!(walk.accepts_event(&Event::Succeeded));
    assert!(!walk.accepts_event(&Event::Failed("x".to_string())));
    walk.advance(Event::Succeeded);
    walk.advance(Event::Succeeded);
    assert!(walk.is_done());
    assert!(!walk.accepts_event(&Event::Succeeded));
}
