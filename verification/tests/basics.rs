//! Dates, logs, texts, arguments and vectors.

use lightr_cri::acceptance::skip_line;
use lightr_cri::calendar::epoch_to_ymd_hms;
use lightr_cri::fake::container::exit_code_from_status;
use lightr_cri::fake::record::{is_record_file, new_id, record_file, temp_file};
use lightr_cri::log::{cri_log_line, wants_log, Tee};
use lightr_cri::server::{now_nanos, parse_args, state_root};
use lightr_cri::text::{hex_text, parse_number};
use lightr_cri::text_map::TextMap;
use lightr_cri::types::BackendError;
use lightr_cri::vectors::{resolve, variant_name, RunAction, Step, Vector, VectorReport, VectorRun};
use lightr_cri::words::{lines_of, words_of};

fn text(s: &str) -> String {
    s.to_string()
}

#[test]
fn dates_are_those_of_the_calendar() {
    assert_eq!(epoch_to_ymd_hms(0), (1970, 1, 1, 0, 0, 0));
    assert_eq!(epoch_to_ymd_hms(951_782_399), (2000, 2, 28, 23, 59, 59));
    assert_eq!(epoch_to_ymd_hms(951_782_400), (2000, 2, 29, 0, 0, 0));
    assert_eq!(epoch_to_ymd_hms(1_709_210_096), (2024, 2, 29, 12, 34, 56));
    assert_eq!(epoch_to_ymd_hms(4_107_542_400), (2100, 3, 1, 0, 0, 0));
    assert_eq!(epoch_to_ymd_hms(253_402_300_799), (9999, 12, 31, 23, 59, 59));
}

#[test]
fn log_lines_are_full_or_partial() {
    assert_eq!(
        cri_log_line("stdout", b"hello\n", 0, 5),
        b"1970-01-01T00:00:00.000000005Z stdout F hello\n"
    );
    assert_eq!(
        cri_log_line("stderr", b"hel", 951_782_400, 123_456_789),
        b"2000-02-29T00:00:00.123456789Z stderr P hel\n"
    );
    assert_eq!(
        cri_log_line("stdout", b"", 0, 0),
        b"1970-01-01T00:00:00.000000000Z stdout P \n"
    );
    assert!(wants_log("/d", "p") && !wants_log("", "p") && !wants_log("/d", ""));
}

#[test]
fn output_is_logged_line_by_line() {
    let mut tee = Tee::new();
    assert!(tee.feed("stdout", b"on", 0, 1).is_empty());
    assert_eq!(
        tee.feed("stdout", b"e\n\ntw", 0, 2),
        [
            b"1970-01-01T00:00:00.000000002Z stdout F one\n".to_vec(),
            b"1970-01-01T00:00:00.000000002Z stdout F \n".to_vec(),
        ]
    );
    assert_eq!(
        tee.end("stdout", 0, 3),
        Some(b"1970-01-01T00:00:00.000000003Z stdout P tw\n".to_vec())
    );
    let mut tee = Tee::new();
    assert_eq!(tee.feed("stderr", b"x\n", 0, 0).len(), 1);
    assert_eq!(tee.end("stderr", 0, 0), None);
}

#[test]
fn files_are_named() {
    assert_eq!(new_id("sb-", 12, 3), "sb-12-3");
    assert_eq!(new_id("ct-", -5, 0), "ct--5-0");
    assert_eq!(record_file("sb-1"), "sb-1.json");
    assert_eq!(temp_file(7, 89), ".tmp-7-89");
    assert!(is_record_file("a.json"));
    assert!(!is_record_file(".tmp-7-89") && !is_record_file("json") && !is_record_file(".json"));
}

#[test]
fn exit_codes_tell_signals() {
    assert_eq!(exit_code_from_status(Some(9), None), 137);
    assert_eq!(exit_code_from_status(None, Some(3)), 3);
    assert_eq!(exit_code_from_status(None, None), 0);
}

#[test]
fn maps_are_in_order() {
    let mut m: TextMap<String> = TextMap::new();
    for k in ["b", "a", "c", "a"] {
        m.insert(text(k), format!("{k}{}", m.len()));
    }
    assert_eq!(m.len(), 3);
    assert_eq!(m.at(0).0, "a");
    assert_eq!(m.get("a"), Some(&text("a3")));
    m.remove("a");
    assert_eq!(m.get("a"), None);
    assert!(m.contains("b") && !m.contains("x"));
}

#[test]
fn texts_are_taken_apart() {
    assert_eq!(words_of(" a\tbc \u{2003}d\n"), vec![text("a"), text("bc"), text("d")]);
    assert!(words_of(" \n").is_empty());
    assert_eq!(lines_of("a\n\nb"), vec![text("a"), text(""), text("b")]);
    assert_eq!(lines_of("a\n"), vec![text("a")]);
    assert!(lines_of("").is_empty());
}

#[test]
fn numbers_are_read_and_written() {
    assert_eq!(parse_number("+42", 65535), Some(42));
    assert_eq!(parse_number("65536", 65535), None);
    assert_eq!(parse_number("", 9), None);
    assert_eq!(parse_number("+", 9), None);
    assert_eq!(parse_number("-1", 9), None);
    assert_eq!(parse_number("18446744073709551615", u64::MAX), Some(u64::MAX));
    assert_eq!(parse_number("18446744073709551616", u64::MAX), None);
    assert_eq!(hex_text(&[0, 15, 16, 255, 171]), "000f10ffab");
}

#[test]
fn arguments_are_read() {
    let a = parse_args(&vec![]).unwrap();
    assert_eq!(a.socket, "/run/lightr/cri.sock");
    assert_eq!(a.state, None);
    let args: Vec<String> = ["--state", "/s", "--socket", "/x"].iter().map(|s| text(s)).collect();
    let a = parse_args(&args).unwrap();
    assert_eq!(a.socket, "/x");
    assert_eq!(a.state, Some(text("/s")));
    assert_eq!(parse_args(&vec![text("--socket")]), Err(text("--socket")));
    assert_eq!(parse_args(&vec![text("-v"), text("x")]), Err(text("-v")));
    assert_eq!(state_root(Some(text("/a")), Some(text("/e")), "/tmp"), "/a");
    assert_eq!(state_root(None, Some(text("/e")), "/tmp"), "/e");
    assert_eq!(state_root(None, None, "/tmp"), "/tmp/lightr-cri-fake");
}

#[test]
fn moments_wrap_around() {
    for n in [0u128, 1, i64::MAX as u128, 1 << 63, u64::MAX as u128, (1 << 64) + 5] {
        assert_eq!(now_nanos(n), n as i64);
    }
}

#[test]
fn skips_are_loud() {
    assert_eq!(
        skip_line("A1", "no crictl"),
        "SKIP A1: no crictl (probe-truthful; see build-spec-r0 \u{a7}7)"
    );
}

fn call(op: &str, args: &[&str], expect_err: Option<&str>) -> Step {
    Step::Call {
        op: text(op),
        args: args.iter().map(|a| text(a)).collect(),
        expect_err: expect_err.map(text),
    }
}

#[test]
fn vector_passes_when_all_is_as_expected() {
    let vector = Vector {
        name: text("lifecycle"),
        steps: vec![
            call("run_sandbox", &["a"], None),
            Step::Reopen,
            call("sandbox_status", &["$0"], None),
            call("container_status", &["ghost"], Some("NotFound")),
        ],
    };
    let mut run = VectorRun::begin(vector);
    assert!(matches!(run.prepare(), RunAction::Call { op, args }
        if op == "run_sandbox" && args == vec![text("a")]));
    run.judge(Ok(Some(text("sb-1"))));
    assert!(matches!(run.prepare(), RunAction::Reopen));
    run.judge(Ok(None));
    assert!(matches!(run.prepare(), RunAction::Call { args, .. } if args == vec![text("sb-1")]));
    run.judge(Ok(None));
    run.prepare();
    run.judge(Err(BackendError::NotFound(text("container ghost"))));
    assert!(matches!(run.prepare(), RunAction::Done));
    let mut report = VectorReport::default();
    run.count(&mut report);
    assert_eq!(report.passed, 1);
    assert!(report.failed.is_empty());
}

#[test]
fn vector_failure_names_the_step() {
    let mut report = VectorReport::default();
    let cases = [
        (Some("NotFound"), Ok(None), "v: step 0: expected NotFound, got Ok"),
        (None, Err(BackendError::InUse(text("x"))), "v: step 0: expected Ok, got InUse"),
        (
            Some("InUse"),
            Err(BackendError::Io(text("x"))),
            "v: step 0: expected InUse, got Io",
        ),
        (Some("Ok"), Ok(None), "v: step 0: expected Ok, got Ok"),
    ];
    for (expect_err, outcome, message) in cases {
        let steps = vec![call("op", &[], expect_err), call("never", &[], None)];
        let mut run = VectorRun::begin(Vector { name: text("v"), steps });
        run.prepare();
        run.judge(outcome);
        assert!(matches!(run.prepare(), RunAction::Done));
        run.count(&mut report);
        assert_eq!(report.failed.pop(), Some(text(message)));
    }
    let steps = vec![call("op", &["$1"], None)];
    let mut run = VectorRun::begin(Vector { name: text("v"), steps });
    assert!(matches!(run.prepare(), RunAction::Done));
    run.count(&mut report);
    assert_eq!(report.failed, vec![text("v: step 0: expected the result of a step, got $1")]);
    assert_eq!(report.passed, 0);
}

#[test]
fn references_are_resolved() {
    let results = vec![Some(text("r0")), None];
    assert_eq!(resolve("$0", &results), Some(text("r0")));
    assert_eq!(resolve("$1", &results), None);
    assert_eq!(resolve("$2", &results), None);
    assert_eq!(resolve("$x", &results), None);
    assert_eq!(resolve("plain", &results), Some(text("plain")));
    assert_eq!(resolve("", &results), Some(text("")));
}

#[test]
fn errors_are_named() {
    let e = text("x");
    assert_eq!(variant_name(&BackendError::NotFound(e.clone())), "NotFound");
    assert_eq!(variant_name(&BackendError::FailedPrecondition(e.clone())), "FailedPrecondition");
    assert_eq!(variant_name(&BackendError::InvalidArgument(e.clone())), "InvalidArgument");
    assert_eq!(variant_name(&BackendError::InUse(e.clone())), "InUse");
    assert_eq!(variant_name(&BackendError::Internal(e.clone())), "Internal");
    assert_eq!(variant_name(&BackendError::Io(e)), "Io");
}
