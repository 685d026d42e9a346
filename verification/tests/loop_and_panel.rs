use clipd::daemon::{
    capture_entry, long_enough, parse_pid, DaemonAction, DaemonEvent, DaemonLoop,
    EVICT_EVERY_TICKS,
};
use clipd::models::{ClipEntry, ContentType, Timestamp};
use clipd::panel::ClipView;
use clipd::Config;

#[test]
fn loop_evicts_every_120_ticks() {
    let mut l = DaemonLoop::new();
    let mut evictions = 0;
    for tick in 1..=360u64 {
        match l.step(DaemonEvent::Tick) {
            DaemonAction::Poll { evict } => {
                assert_eq!(evict, tick % EVICT_EVERY_TICKS == 0);
                if evict {
                    evictions += 1;
                }
            }
            DaemonAction::Stop => panic!("a tick never stops the loop"),
        }
    }
    assert_eq!(evictions, 3);
}

#[test]
fn loop_stops_on_signals() {
    let mut l = DaemonLoop::new();
    assert_eq!(l.step(DaemonEvent::Terminate), DaemonAction::Stop);
    assert_eq!(l.step(DaemonEvent::Interrupt), DaemonAction::Stop);
    assert_eq!(l.step(DaemonEvent::Tick), DaemonAction::Poll { evict: false });
}

#[test]
fn minimum_length_filter() {
    let mut c = Config::default();
    assert!(long_enough(&c, "a"));
    assert!(!long_enough(&c, ""));
    c.min_content_len = 3;
    assert!(!long_enough(&c, "ab"));
    assert!(long_enough(&c, "\u{e9}a"));
}

#[test]
fn capture_builds_the_entry() {
    let c = Config::default();
    let e = capture_entry(&c, "https://example.com".to_string(), Some("Safari".to_string()))
        .unwrap();
    assert_eq!(e.id, 0);
    assert_eq!(e.content, "https://example.com");
    assert_eq!(e.content_type, ContentType::Url);
    assert_eq!(e.hash, clipd::clipboard::sha256_hex("https://example.com"));
    assert_eq!(e.source_app, Some("Safari".to_string()));
    assert!(!e.pinned);
    assert!(e.tags.is_empty());
    assert_eq!(e.label, None);
    let unknown = capture_entry(&c, "x".to_string(), None).unwrap();
    assert_eq!(unknown.source_app, None);
}

#[test]
fn capture_skips_ignored_apps() {
    let c = Config::default();
    assert!(capture_entry(&c, "hunter2".to_string(), Some("1Password".to_string())).is_none());
}

#[test]
fn pid_text() {
    assert_eq!(parse_pid("4242\n"), Some(4242));
    assert_eq!(parse_pid("  +7 "), Some(7));
    assert_eq!(parse_pid("4294967295"), Some(u32::MAX));
    assert_eq!(parse_pid("4294967296"), None);
    assert_eq!(parse_pid("-1"), None);
    assert_eq!(parse_pid(""), None);
    assert_eq!(parse_pid("12a"), None);
    assert_eq!(parse_pid("+"), None);
}

fn clip(content: &str, t: ContentType) -> ClipEntry {
    ClipEntry {
        id: 1,
        content: content.to_string(),
        content_type: t,
        hash: String::new(),
        source_app: None,
        created_at: Timestamp { secs: 0, nanos: 0 },
        pinned: false,
        tags: Vec::new(),
        label: None,
    }
}

#[test]
fn preview_trims_and_cuts() {
    let c = clip("  hello world \n", ContentType::PlainText);
    assert_eq!(c.preview(20), "hello world");
    assert_eq!(c.preview(11), "hello world");
    assert_eq!(c.preview(5), "hello\u{2026}");
    assert_eq!(c.preview(0), "\u{2026}");
}

#[test]
fn preview_respects_character_boundaries() {
    let c = clip("h\u{e9}llo", ContentType::PlainText);
    assert_eq!(c.try_preview(2), None);
    assert_eq!(c.try_preview(3), Some("h\u{e9}\u{2026}".to_string()));
    assert_eq!(c.try_preview(1), Some("h\u{2026}".to_string()));
}

#[test]
fn new_entry_defaults() {
    let e = ClipEntry::new("x".to_string(), ContentType::PlainText, "h".to_string(), None);
    assert_eq!(e.id, 0);
    assert!(!e.pinned);
    assert!(e.tags.is_empty());
    assert_eq!(e.label, None);
    assert!(e.created_at.secs > 1_600_000_000);
}

#[test]
fn panel_view_of_a_clip() {
    let mut c = clip("https://example.com", ContentType::Url);
    c.tags = vec!["web".to_string()];
    let v = ClipView::from_clip(c).unwrap();
    assert_eq!(v.id, 1);
    assert_eq!(v.preview, "https://example.com");
    assert_eq!(v.full_content, "https://example.com");
    assert_eq!(v.content_type, "url");
    assert_eq!(v.type_icon, "link");
    assert_eq!(v.created_at, "00:00 \u{b7} Jan 01");
    assert_eq!(v.tags, vec!["web"]);
}

#[test]
fn panel_icons() {
    let icon = |t| ClipView::from_clip(clip("x", t)).unwrap().type_icon;
    assert_eq!(icon(ContentType::Code), "code");
    assert_eq!(icon(ContentType::FilePath), "folder");
    assert_eq!(icon(ContentType::Image), "image");
    assert_eq!(icon(ContentType::PlainText), "text");
    assert_eq!(icon(ContentType::RichText), "text");
}

#[test]
fn panel_view_refuses_unrepresentable_clips() {
    let long = format!("a{}", "\u{e9}".repeat(100));
    assert!(ClipView::from_clip(clip(&long, ContentType::PlainText)).is_none());
    let mut c = clip("x", ContentType::PlainText);
    c.created_at = Timestamp { secs: i64::MIN, nanos: 0 };
    assert!(ClipView::from_clip(c).is_none());
}
