use shotori::ocr::{DONE_SUMMARY, FAILED_SUMMARY, OcrAction, ocr_action, ocr_done_notice, ocr_failure_notice, ocr_preview, ocr_text, take_chars, trim, truncate, warmup};
use shotori::ocr_setup::{Attempts, OcrSetup, Snapshot, Stage, finish_download};

fn snapshot() -> Snapshot {
    Snapshot { w: 1, h: 1, rgba: vec![0; 4] }
}

fn downloading(s: &OcrSetup) -> bool {
    matches!(s.stage, Stage::Downloading)
}

#[test]
fn ocr_setup_cancelled_download_cannot_update_reopened_dialog() {
    let mut attempts = Attempts::new();
    let mut old_setup = OcrSetup::new(snapshot(), &mut attempts).unwrap();
    assert!(old_setup.confirm(&mut attempts));
    let old = old_setup.attempt;
    assert!(old_setup.owns_download(old, false));
    // the user cancels: the attempt's cancel flag is raised
    assert!(!old_setup.owns_download(old, true));

    let mut reopened = OcrSetup::new(snapshot(), &mut attempts).unwrap();
    assert!(!reopened.owns_download(old, false));
    assert!(reopened.confirm(&mut attempts));
    assert!(!reopened.owns_download(old, false));
    assert!(reopened.owns_download(reopened.attempt, false));
}

#[test]
fn ocr_setup_retry_rejects_previous_attempt_even_without_cancellation() {
    let mut attempts = Attempts::new();
    let mut setup = OcrSetup::new(snapshot(), &mut attempts).unwrap();
    assert!(setup.confirm(&mut attempts));
    let old = setup.attempt;
    setup.stage = Stage::Failed("network error".to_string());
    assert!(!setup.owns_download(old, false));
    assert!(setup.confirm(&mut attempts));
    assert!(downloading(&setup));
    assert!(!setup.owns_download(old, false));
    assert!(setup.owns_download(setup.attempt, false));
}

#[test]
fn attempts_only_grow() {
    let mut attempts = Attempts::new();
    let ids: Vec<u64> = (0..5).map(|_| attempts.next().unwrap()).collect();
    assert_eq!(ids, vec![0, 1, 2, 3, 4]);
    let setup = OcrSetup::new(snapshot(), &mut attempts).unwrap();
    assert_eq!(setup.attempt, 5);
    assert_eq!(attempts.next(), Some(6));
}

#[test]
fn confirm_is_ignored_while_downloading() {
    let mut attempts = Attempts::new();
    let mut setup = OcrSetup::new(snapshot(), &mut attempts).unwrap();
    assert!(setup.confirm(&mut attempts));
    let current = setup.attempt;
    assert!(!setup.confirm(&mut attempts));
    assert_eq!(setup.attempt, current);
    // an ignored confirm draws nothing
    assert_eq!(attempts.next(), Some(current + 1));
}

#[test]
fn finished_download_hands_over_the_snapshot_once() {
    let mut attempts = Attempts::new();
    let mut setup = OcrSetup::new(snapshot(), &mut attempts);
    let first = setup.as_ref().unwrap().attempt;
    setup.as_mut().unwrap().confirm(&mut attempts);
    let current = setup.as_ref().unwrap().attempt;
    // a stale attempt changes nothing
    assert!(finish_download(&mut setup, first, false, true, String::new()).is_none());
    assert!(setup.is_some());
    let snap = finish_download(&mut setup, current, false, true, String::new()).unwrap();
    assert_eq!((snap.w, snap.h, snap.rgba), (1, 1, vec![0; 4]));
    assert!(setup.is_none());
}

#[test]
fn failed_download_shows_the_error() {
    let mut attempts = Attempts::new();
    let mut setup = OcrSetup::new(snapshot(), &mut attempts);
    setup.as_mut().unwrap().confirm(&mut attempts);
    let current = setup.as_ref().unwrap().attempt;
    assert!(finish_download(&mut setup, current, false, false, "timed out".to_string()).is_none());
    match &setup.as_ref().unwrap().stage {
        Stage::Failed(msg) => assert_eq!(msg, "timed out"),
        _ => panic!("expected the failed stage"),
    }
    // a cancelled attempt never reports
    let mut other = OcrSetup::new(snapshot(), &mut attempts);
    other.as_mut().unwrap().confirm(&mut attempts);
    let id = other.as_ref().unwrap().attempt;
    assert!(finish_download(&mut other, id, true, false, "x".to_string()).is_none());
    assert!(downloading(other.as_ref().unwrap()));
}

#[test]
fn ocr_result_decides_copy_or_failure_notice() {
    match ocr_action(Ok("Hello\nWorld".to_string())) {
        OcrAction::CopyThenNotify { text, body } => {
            assert_eq!(text, "Hello\nWorld");
            assert_eq!(body, "2 lines → clipboard\nHello World");
        }
        OcrAction::NotifyFailure { .. } => panic!("text was found"),
    }
    match ocr_action(Ok(String::new())) {
        OcrAction::NotifyFailure { body } => assert_eq!(body, "OCR found no text"),
        OcrAction::CopyThenNotify { .. } => panic!("empty text is a failure"),
    }
    match ocr_action(Err("m".repeat(300))) {
        OcrAction::NotifyFailure { body } => assert_eq!(body, "m".repeat(200)),
        OcrAction::CopyThenNotify { .. } => panic!("errors are reported"),
    }
    assert_eq!(DONE_SUMMARY, "Shotori OCR");
    assert_eq!(FAILED_SUMMARY, "Shotori OCR failed");
}

#[test]
fn warmup_only_with_a_complete_cache() {
    assert!(warmup(Some(0)));
    assert!(!warmup(Some(2)));
    assert!(!warmup(None));
}

#[test]
fn recognised_lines_join_and_trim() {
    let lines: Vec<String> = ["  Hello", "world  ", ""].iter().map(|s| s.to_string()).collect();
    assert_eq!(ocr_text(&lines), "Hello\nworld");
    assert_eq!(ocr_text(&vec![]), "");
    assert_eq!(ocr_text(&vec!["only".to_string()]), "only");
}

#[test]
fn trim_matches_std_on_unicode_white_space() {
    for s in ["", "   ", "\t a b \n", "\u{3000}x\u{a0}", "\u{200b}y", "no-op", " \u{2028} z \u{85}"] {
        assert_eq!(trim(s), s.trim(), "{s:?}");
    }
}

#[test]
fn truncate_counts_characters() {
    assert_eq!(truncate("short", 10), "short");
    assert_eq!(truncate("exactly", 7), "exactly");
    assert_eq!(truncate("überlange", 4), "über…");
}

#[test]
fn trimming_twice_changes_nothing_more() {
    for s in ["  hi there \n", "\u{3000}文字\t", "", "   ", "x"] {
        let once = trim(s);
        assert_eq!(trim(&once), once);
    }
}

#[test]
fn done_notice_counts_lines_and_previews_one_line() {
    assert_eq!(ocr_done_notice("Hello\nWorld").unwrap(), "2 lines → clipboard\nHello World");
    assert_eq!(ocr_done_notice("").unwrap_err(), "OCR found no text");
    // control characters other than the newline are dropped from the preview
    assert_eq!(ocr_preview("a\tb\r\nc"), (2, "ab c".to_string()));
    // a trailing newline ends the last line without starting another
    assert_eq!(ocr_preview("x\n").0, 1);
    assert_eq!(ocr_preview("\n\n").0, 2);
    assert_eq!(ocr_preview("").0, 0);
}

#[test]
fn preview_keeps_sixty_characters() {
    let long: String = "漢".repeat(70);
    let (lines, preview) = ocr_preview(&long);
    assert_eq!(lines, 1);
    assert_eq!(preview.chars().count(), 60);
    assert_eq!(ocr_done_notice(&long).unwrap(), format!("1 lines → clipboard\n{}", "漢".repeat(60)));
}

#[test]
fn failure_notice_keeps_two_hundred_characters() {
    let msg = "e".repeat(250);
    assert_eq!(ocr_failure_notice(&msg), "e".repeat(200));
    assert_eq!(ocr_failure_notice("engine missing"), "engine missing");
    assert_eq!(take_chars("abc", 2), "ab");
}
