use proptest::test_runner::replay::{append, terminate, Replay, ReplayFileStatus};
use proptest::test_runner::{TestCaseError, TestCaseResult};

fn sample_steps() -> Vec<TestCaseResult> {
    vec![
        Ok(()),
        Err(TestCaseError::fail("boom".to_owned())),
        Err(TestCaseError::reject("nope".to_owned())),
    ]
}

fn assert_same_tags(parsed: &[TestCaseResult], written: &[TestCaseResult]) {
    assert_eq!(parsed.len(), written.len());
    for (p, w) in parsed.iter().zip(written.iter()) {
        match (p, w) {
            (Ok(()), Ok(())) => {}
            (Err(TestCaseError::Fail(reason)), Err(TestCaseError::Fail(_))) => {
                assert_eq!(reason.as_str(), "failed in other process");
            }
            (Err(TestCaseError::Reject(reason)), Err(TestCaseError::Reject(_))) => {
                assert_eq!(reason.as_str(), "rejected in other process");
            }
            _ => panic!("outcome tags differ"),
        }
    }
}

#[test]
fn init_file_writes_seed_lines_then_glyphs() {
    let r = Replay { seed: [1, 2, 3, 4], steps: sample_steps() };
    let mut out: Vec<u8> = Vec::new();
    r.init_file(&mut out);
    assert_eq!(out, b"1\n2\n3\n4\n+-!".to_vec());
}

#[test]
fn write_full_then_parse_is_in_progress_round_trip() {
    let r = Replay { seed: [0, 4294967295, 123456789, 42], steps: sample_steps() };
    let mut out: Vec<u8> = Vec::new();
    r.init_file(&mut out);
    match Replay::parse_from(&out) {
        ReplayFileStatus::InProgress(r2) => {
            assert_eq!(r2.seed, [0, 4294967295, 123456789, 42]);
            assert_same_tags(&r2.steps, &r.steps);
        }
        _ => panic!("expected an in-progress parse"),
    }
}

#[test]
fn terminated_detection() {
    let r = Replay { seed: [5, 6, 7, 8], steps: sample_steps() };
    let mut out: Vec<u8> = Vec::new();
    r.init_file(&mut out);
    terminate(&mut out);
    match Replay::parse_from(&out) {
        ReplayFileStatus::Terminated(r2) => {
            assert_eq!(r2.seed, [5, 6, 7, 8]);
            assert_same_tags(&r2.steps, &r.steps);
        }
        _ => panic!("expected a terminated parse"),
    }
}

#[test]
fn complete_marks_terminated() {
    let r = Replay { seed: [5, 6, 7, 8], steps: vec![] };
    let mut out: Vec<u8> = Vec::new();
    r.init_file(&mut out);
    Replay::complete(&mut out);
    assert!(matches!(
        Replay::parse_from(&out),
        ReplayFileStatus::Terminated(_)
    ));
}

#[test]
fn append_writes_one_glyph_per_outcome() {
    let mut out: Vec<u8> = Vec::new();
    append(&mut out, &Ok(()));
    append(&mut out, &Err(TestCaseError::fail("x".to_owned())));
    append(&mut out, &Err(TestCaseError::reject("y".to_owned())));
    terminate(&mut out);
    assert_eq!(out, b"+-!.".to_vec());
}

#[test]
fn parse_stops_at_first_terminator() {
    match Replay::parse_from(b"1\n2\n3\n4\n+.-!") {
        ReplayFileStatus::Terminated(r) => {
            assert_eq!(r.seed, [1, 2, 3, 4]);
            assert_eq!(r.steps.len(), 1);
            assert!(matches!(r.steps[0], Ok(())));
        }
        _ => panic!("expected a terminated parse"),
    }
}

#[test]
fn parse_accepts_surrounding_whitespace_in_seed_lines() {
    match Replay::parse_from(b" 42 \r\n0\n0\n7\n++") {
        ReplayFileStatus::InProgress(r) => {
            assert_eq!(r.seed, [42, 0, 0, 7]);
            assert_eq!(r.steps.len(), 2);
        }
        _ => panic!("expected an in-progress parse"),
    }
}

#[test]
fn parse_of_seed_only_is_in_progress_with_no_steps() {
    match Replay::parse_from(b"1\n2\n3\n4\n") {
        ReplayFileStatus::InProgress(r) => {
            assert_eq!(r.seed, [1, 2, 3, 4]);
            assert!(r.steps.is_empty());
        }
        _ => panic!("expected an in-progress parse"),
    }
    assert!(matches!(
        Replay::parse_from(b"1\n2\n3\n4"),
        ReplayFileStatus::InProgress(_)
    ));
}

#[test]
fn corrupt_detection_on_bad_seed_lines() {
    assert!(matches!(
        Replay::parse_from(b"x\n2\n3\n4\n+"),
        ReplayFileStatus::Corrupt
    ));
    assert!(matches!(
        Replay::parse_from(b"1\n2\n-3\n4\n+"),
        ReplayFileStatus::Corrupt
    ));
    assert!(matches!(
        Replay::parse_from(b"1\n2\n3\n5000000000\n+"),
        ReplayFileStatus::Corrupt
    ));
    assert!(matches!(
        Replay::parse_from(b"1\n2\n"),
        ReplayFileStatus::Corrupt
    ));
    assert!(matches!(Replay::parse_from(b""), ReplayFileStatus::Corrupt));
}

#[test]
fn corrupt_detection_on_bad_glyph() {
    assert!(matches!(
        Replay::parse_from(b"1\n2\n3\n4\n+z"),
        ReplayFileStatus::Corrupt
    ));
    assert!(matches!(
        Replay::parse_from(b"1\n2\n3\n4\n++\n--"),
        ReplayFileStatus::Corrupt
    ));
}

#[test]
fn merge_appends_only_the_extra_suffix() {
    let mut a = Replay { seed: [1, 2, 3, 4], steps: vec![Ok(())] };
    let b = Replay {
        seed: [1, 2, 3, 4],
        steps: vec![Ok(()), Err(TestCaseError::fail("later".to_owned())), Ok(())],
    };
    a.merge(&b);
    assert_eq!(a.steps.len(), 3);
    assert!(matches!(a.steps[0], Ok(())));
    assert!(matches!(a.steps[1], Err(TestCaseError::Fail(_))));
    assert!(matches!(a.steps[2], Ok(())));
}

#[test]
fn merge_with_shorter_or_equal_is_noop() {
    let mut a = Replay {
        seed: [1, 2, 3, 4],
        steps: vec![Ok(()), Err(TestCaseError::reject("r".to_owned()))],
    };
    let b = Replay { seed: [9, 9, 9, 9], steps: vec![Err(TestCaseError::fail("f".to_owned()))] };
    a.merge(&b);
    assert_eq!(a.steps.len(), 2);
    assert!(matches!(a.steps[0], Ok(())));
    assert!(matches!(a.steps[1], Err(TestCaseError::Reject(_))));
    let same = Replay { seed: [1, 2, 3, 4], steps: vec![Ok(()), Ok(())] };
    a.merge(&same);
    assert_eq!(a.steps.len(), 2);
    assert!(matches!(a.steps[1], Err(TestCaseError::Reject(_))));
}
