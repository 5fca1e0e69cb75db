use webp_batch::engine::{tally, Action, Event, FileState, FileTask, Payload};
use webp_batch::paths::{output_target, FileError};

fn parts(s: &str) -> Vec<String> {
    let mut v: Vec<String> = Vec::new();
    if s.starts_with('/') {
        v.push("/".to_string());
    }
    for c in s.split('/').filter(|c| !c.is_empty()) {
        v.push(c.to_string());
    }
    v
}

fn is_decode(a: &Action) -> bool {
    matches!(a, Action::Decode)
}

fn is_encode(a: &Action) -> bool {
    matches!(a, Action::Encode)
}

#[test]
fn nested_file_converts_into_mirrored_directory() {
    let input = parts("a/b/img.png");
    let target = output_target(&input, &parts("a"), &parts("out"));
    let mut task = FileTask::start(&input, target, 0);
    assert!(is_decode(&task.action()));
    task.step(Event::Decoded(true));
    assert!(is_encode(&task.action()));
    task.step(Event::Encoded(Some(31_337)));
    match task.action() {
        Action::Probe(p) => assert_eq!(p, parts("out/b/img.png")),
        _ => panic!("expected a probe"),
    }
    task.step(Event::Probed(false));
    match task.action() {
        Action::Prepare(d) => assert_eq!(d, Some(parts("out/b"))),
        _ => panic!("expected a prepare step"),
    }
    task.step(Event::Prepared(Some(50_000)));
    match task.action() {
        Action::Write(f, payload) => {
            assert_eq!(f, parts("out/b/img.webp"));
            assert_eq!(payload, Payload::Encoded);
        }
        _ => panic!("expected a write"),
    }
    task.step(Event::Written(true));
    match task.action() {
        Action::Finish(r) => {
            assert_eq!(r, Ok(31_337));
            let totals = tally(&vec![(50_000, r)]).unwrap();
            assert_eq!((totals.count, totals.input_size, totals.output_size), (1, 50_000, 31_337));
        }
        _ => panic!("expected the end"),
    }
}

#[test]
fn task_falls_back_to_pixels_when_encoding_grows() {
    let mut task = FileTask::start(&parts("a/img.png"), parts("out/img.png"), 1);
    task.step(Event::Decoded(true));
    task.step(Event::Encoded(Some(90_000)));
    task.step(Event::Probed(false));
    task.step(Event::Prepared(Some(50_000)));
    match task.action() {
        Action::Write(f, payload) => {
            assert_eq!(f, parts("out/img.webp"));
            assert_eq!(payload, Payload::Pixels);
        }
        _ => panic!("expected a write"),
    }
    task.step(Event::Written(true));
    assert!(matches!(task.state, FileState::Done(Ok(50_000))));
}

#[test]
fn task_keeps_larger_encoding_without_flag() {
    let mut task = FileTask::start(&parts("a/img.png"), parts("out"), 0);
    task.step(Event::Decoded(true));
    task.step(Event::Encoded(Some(90_000)));
    task.step(Event::Probed(true));
    task.step(Event::Prepared(Some(50_000)));
    match task.action() {
        Action::Write(f, payload) => {
            assert_eq!(f, parts("out/img.webp"));
            assert_eq!(payload, Payload::Encoded);
        }
        _ => panic!("expected a write"),
    }
    task.step(Event::Written(true));
    assert!(matches!(task.state, FileState::Done(Ok(90_000))));
}

#[test]
fn task_failures_end_the_task() {
    let no_stem = FileTask::start(&parts("/"), parts("out"), 0);
    assert!(matches!(no_stem.action(), Action::Finish(Err(FileError::NoFileStem))));

    let mut not_image = FileTask::start(&parts("a/x.txt"), parts("out/x.txt"), 0);
    not_image.step(Event::Decoded(false));
    assert!(matches!(not_image.action(), Action::Finish(Err(FileError::NotAnImage))));

    let mut bad_encode = FileTask::start(&parts("a/x.png"), parts("out/x.png"), 0);
    bad_encode.step(Event::Decoded(true));
    bad_encode.step(Event::Encoded(None));
    assert!(matches!(bad_encode.action(), Action::Finish(Err(FileError::EncodeFailed))));

    let mut no_parent = FileTask::start(&parts("a/x.png"), parts("/"), 0);
    no_parent.step(Event::Decoded(true));
    no_parent.step(Event::Encoded(Some(10)));
    no_parent.step(Event::Probed(false));
    assert!(matches!(no_parent.action(), Action::Finish(Err(FileError::NoParent))));

    let mut unwritable = FileTask::start(&parts("a/x.png"), parts("out/x.png"), 0);
    unwritable.step(Event::Decoded(true));
    unwritable.step(Event::Encoded(Some(10)));
    unwritable.step(Event::Probed(false));
    unwritable.step(Event::Prepared(None));
    assert!(matches!(unwritable.action(), Action::Finish(Err(FileError::Io))));

    let mut write_fails = FileTask::start(&parts("a/x.png"), parts("out/x.png"), 0);
    write_fails.step(Event::Decoded(true));
    write_fails.step(Event::Encoded(Some(10)));
    write_fails.step(Event::Probed(false));
    write_fails.step(Event::Prepared(Some(20)));
    write_fails.step(Event::Written(false));
    assert!(matches!(write_fails.action(), Action::Finish(Err(FileError::Io))));
}

#[test]
fn unexpected_event_changes_nothing() {
    let mut task = FileTask::start(&parts("a/x.png"), parts("out/x.png"), 0);
    task.step(Event::Written(true));
    assert!(is_decode(&task.action()));
}
