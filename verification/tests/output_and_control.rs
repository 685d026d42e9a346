use clipd::daemon::{
    parse_pid, pid_text, start_decision, stop_step, StartDecision, StopAction, StopEvent,
    StopFailure, StopState, STOP_POLL_MS, STOP_ROUNDS,
};
use clipd::models::{instant_of_reading, utc_now, ClipEntry, ContentType, Timestamp};
use clipd::report::{export_csv_row, int_to_text, list_csv_row, list_table_row};
use clipd::store::{row_for_insert, search_term};
use clipd::text::trim;

fn clip(id: i64, content: &str, secs: i64) -> ClipEntry {
    ClipEntry {
        id,
        content: content.to_string(),
        content_type: ContentType::PlainText,
        hash: "ab".to_string(),
        source_app: Some("Firefox".to_string()),
        created_at: Timestamp { secs, nanos: 0 },
        pinned: true,
        tags: vec!["a".to_string(), "b".to_string()],
        label: Some("x".to_string()),
    }
}

#[test]
fn integers_print_as_display_does() {
    assert_eq!(int_to_text(0), "0");
    assert_eq!(int_to_text(7), "7");
    assert_eq!(int_to_text(1203), "1203");
    assert_eq!(int_to_text(-42), "-42");
    assert_eq!(int_to_text(i64::MAX), i64::MAX.to_string());
    assert_eq!(int_to_text(i64::MIN), "-9223372036854775808");
}

#[test]
fn table_row_pads_its_fields() {
    let c = clip(7, "  hello world  ", 1431648000);
    assert_eq!(
        list_table_row(&c).unwrap(),
        "7      plain_text 2015-05-15 00:00     yes      hello world"
    );
    let mut d = clip(-3, "x", 1431648000);
    d.content_type = ContentType::Url;
    d.pinned = false;
    assert_eq!(list_table_row(&d).unwrap(), "-3     url 2015-05-15 00:00              x");
}

#[test]
fn list_csv_row_quotes_the_preview() {
    let c = clip(7, "  say \"hi\"  ", 1431648000);
    assert_eq!(
        list_csv_row(&c).unwrap(),
        "7,plain_text,2015-05-15T00:00:00+00:00,true,Firefox,\"say \"\"hi\"\"\""
    );
    let mut d = clip(8, "x", 1431648000);
    d.source_app = None;
    d.pinned = false;
    assert_eq!(list_csv_row(&d).unwrap(), "8,plain_text,2015-05-15T00:00:00+00:00,false,,\"x\"");
}

#[test]
fn export_row_holds_every_field() {
    let c = clip(7, "  hello, world  ", 1431648000);
    assert_eq!(
        export_csv_row(&c).unwrap(),
        "7,plain_text,2015-05-15T00:00:00+00:00,true,Firefox,ab,x,a;b,\"  hello, world  \""
    );
    let mut d = clip(9, "", 0);
    d.tags = Vec::new();
    d.label = None;
    d.source_app = None;
    d.pinned = false;
    assert_eq!(
        export_csv_row(&d).unwrap(),
        "9,plain_text,1970-01-01T00:00:00+00:00,false,,ab,,,\"\""
    );
}

#[test]
fn rows_need_a_representable_time_and_a_clean_cut() {
    let far = clip(1, "x", i64::MAX);
    assert_eq!(export_csv_row(&far), None);
    assert_eq!(list_csv_row(&far), None);
    assert_eq!(list_table_row(&far), None);
    // 'é' takes two bytes: byte 48 and byte 80 fall inside one
    let wide = clip(2, &format!("a{}", "é".repeat(60)), 0);
    assert_eq!(list_table_row(&wide), None);
    assert_eq!(list_csv_row(&wide), None);
    assert!(export_csv_row(&wide).is_some());
}

#[test]
fn start_refuses_a_live_daemon_and_clears_a_stale_file() {
    assert_eq!(start_decision(None, false), StartDecision::Start);
    assert_eq!(start_decision(Some(41), true), StartDecision::AlreadyRunning(41));
    assert_eq!(start_decision(Some(41), false), StartDecision::RemoveStaleThenStart);
}

#[test]
fn stop_without_pid_file_fails() {
    assert_eq!(
        stop_step(StopState::Begin, StopEvent::PidFile(None)),
        (StopState::Done, StopAction::Fail(StopFailure::NotRunning))
    );
}

#[test]
fn stop_removes_a_stale_pid_file() {
    let (s, a) = stop_step(StopState::Begin, StopEvent::PidFile(Some(12)));
    assert_eq!(a, StopAction::CheckAlive(12));
    assert_eq!(stop_step(s, StopEvent::Alive(false)), (StopState::Done, StopAction::RemoveStale(12)));
}

#[test]
fn stop_terminates_and_waits_for_exit() {
    let (s, _) = stop_step(StopState::Begin, StopEvent::PidFile(Some(12)));
    let (s, a) = stop_step(s, StopEvent::Alive(true));
    assert_eq!(a, StopAction::Terminate { pid: 12, wait_ms: 100 });
    let (s, a) = stop_step(s, StopEvent::Alive(true));
    assert_eq!(a, StopAction::WaitAndCheck { pid: 12, wait_ms: 100 });
    assert_eq!(stop_step(s, StopEvent::Alive(false)), (StopState::Done, StopAction::Stopped(12)));
}

#[test]
fn stop_gives_up_after_fifty_checks() {
    assert_eq!(STOP_ROUNDS, 50);
    assert_eq!(STOP_POLL_MS, 100);
    let (mut s, _) = stop_step(StopState::Begin, StopEvent::PidFile(Some(12)));
    let (next, _) = stop_step(s, StopEvent::Alive(true));
    s = next;
    let mut checks = 0;
    loop {
        let (next, a) = stop_step(s, StopEvent::Alive(true));
        checks += 1;
        if a == StopAction::Fail(StopFailure::TimedOut(12)) {
            assert_eq!(next, StopState::Done);
            break;
        }
        assert_eq!(a, StopAction::WaitAndCheck { pid: 12, wait_ms: 100 });
        s = next;
        assert!(checks < 100);
    }
    assert_eq!(checks, 50);
    assert_eq!(stop_step(StopState::Done, StopEvent::Alive(true)).1, StopAction::Ignore);
}

#[test]
fn a_written_pid_reads_back() {
    for pid in [0u32, 7, 1234, 99999, u32::MAX] {
        assert_eq!(pid_text(pid), pid.to_string());
        assert_eq!(parse_pid(&pid_text(pid)), Some(pid));
    }
}

#[test]
fn a_new_entry_can_be_stored() {
    let e = ClipEntry::new("hello".to_string(), ContentType::PlainText, "h".to_string(), None);
    assert!(row_for_insert(&e).is_ok());
    let now = utc_now();
    assert!(now.secs > 1_600_000_000);
    assert!(now.nanos < 1_000_000_000);
}

#[test]
fn a_clock_reading_becomes_an_instant() {
    assert_eq!(
        instant_of_reading(Some((1_431_648_000, 250))),
        Timestamp { secs: 1_431_648_000, nanos: 250 }
    );
    assert_eq!(instant_of_reading(None), Timestamp { secs: 0, nanos: 0 });
    assert_eq!(instant_of_reading(Some((u64::MAX, 0))), Timestamp { secs: 0, nanos: 0 });
    assert_eq!(
        instant_of_reading(Some((9_000_000_000_000, 0))),
        Timestamp { secs: 0, nanos: 0 }
    );
}

#[test]
fn representable_times_reach_the_calendar_limits() {
    let at = |secs: i64, nanos: u32| {
        let mut c = clip(1, "x", secs);
        c.created_at.nanos = nanos;
        export_csv_row(&c).is_some()
    };
    assert!(at(-8_334_601_228_800, 0));
    assert!(!at(-8_334_601_228_801, 0));
    assert!(at(8_210_266_876_799, 999_999_999));
    assert!(!at(8_210_266_876_800, 0));
    assert!(at(1_483_228_799, 1_500_000_000));
    assert!(!at(1_483_228_798, 1_500_000_000));
    assert!(!at(1_483_228_799, 2_000_000_000));
}

#[test]
fn detail_view_lists_every_field() {
    let mut c = clip(7, "body\ntext", 1431648000);
    c.hash = "0123456789abcdef0123".to_string();
    assert_eq!(
        clipd::report::clip_details(&c).unwrap(),
        "ID:          7\nType:        plain_text\nCreated:     2015-05-15 00:00:00 UTC\n\
         Pinned:      true\nSource app:  Firefox\nLabel:       x\nTags:        a, b\n\
         Hash:        0123456789abcdef\u{2026}\n\n--- Content ---\nbody\ntext"
    );
    c.source_app = None;
    c.label = None;
    c.tags = Vec::new();
    c.pinned = false;
    assert_eq!(
        clipd::report::clip_details(&c).unwrap(),
        "ID:          7\nType:        plain_text\nCreated:     2015-05-15 00:00:00 UTC\n\
         Pinned:      false\nHash:        0123456789abcdef\u{2026}\n\n--- Content ---\nbody\ntext"
    );
    c.hash = "short".to_string();
    assert_eq!(clipd::report::clip_details(&c), None);
}

#[test]
fn blank_queries_search_nothing() {
    assert_eq!(search_term(""), None);
    assert_eq!(search_term(" \t\n\u{3000}"), None);
    assert_eq!(search_term(" rust "), Some(" rust "));
}

#[test]
fn trimming_matches_std() {
    for s in ["", "  ", " a b ", "\u{a0}x\u{2028}", "\u{200b}x\u{200b}", "\u{85}\t\r\nq\u{3000}"] {
        assert_eq!(trim(s), s.trim());
    }
}
