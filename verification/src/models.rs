//! The clipboard entry model: the content-type tags with their stable
//! textual names, and a single history entry with its metadata.
use vstd::prelude::*;
use chrono::Utc;
use vstd::string::{StringExecFns, StringSliceAdditionalSpecFns};
use vstd::utf8::{decode_utf8, encode_utf8, is_char_boundary};
use crate::text::{chars_of, chars_eq, trim, trimmed};

verus! {

broadcast use vstd::string::group_string_axioms;

/// A UTC instant: whole seconds since the Unix epoch and the nanoseconds
/// within that second (as chrono's `DateTime<Utc>` splits it).
#[derive(Debug, Clone, Copy, PartialEq, Eq, Structural)]
pub struct Timestamp {
    pub secs: i64,
    pub nanos: u32,
}

/// Calls `std::time::SystemTime::now` and `duration_since(UNIX_EPOCH)`:
/// the whole seconds and the nanoseconds of the time since the Unix epoch,
/// or `None` when the system clock is set before the epoch. The contract
/// claims only what `Duration::subsec_nanos` documents: the nanoseconds are
/// below one second. The value itself depends on the clock.
#[verifier::external_body]
fn system_clock() -> (res: Option<(u64, u32)>)
    ensures
        res matches Some(d) ==> d.1 < 1_000_000_000,
{
    match std::time::SystemTime::now().duration_since(std::time::UNIX_EPOCH) {
        Ok(d) => Some((d.as_secs(), d.subsec_nanos())),
        Err(_) => None,
    }
}

/// Calls `chrono::DateTime::from_timestamp` and reports whether chrono can
/// represent the instant. The contract claims that the answer is
/// `timestamp_in_range`: the `NaiveDate` day range and the nanosecond rule
/// of `NaiveTime::from_num_seconds_from_midnight_opt`.
#[verifier::external_body]
fn representable(secs: i64, nanos: u32) -> (res: bool)
    ensures
        res == timestamp_in_range(secs, nanos),
{
    chrono::DateTime::from_timestamp(secs, nanos).is_some()
}

/// Reads `chrono::DateTime::<Utc>::UNIX_EPOCH` as seconds and nanoseconds.
/// The contract claims that it is the instant zero and that chrono can
/// represent it (`from_timestamp` round-trips any `DateTime`).
#[verifier::external_body]
fn unix_epoch() -> (res: Timestamp)
    ensures
        res == (Timestamp { secs: 0, nanos: 0 }),
        timestamp_in_range(res.secs, res.nanos),
{
    let e = chrono::DateTime::<Utc>::UNIX_EPOCH;
    Timestamp { secs: e.timestamp(), nanos: e.timestamp_subsec_nanos() }
}

/// The instant a reading of the system clock stands for: the seconds and
/// nanoseconds since the Unix epoch where they fit a signed 64-bit count
/// and chrono can represent them; otherwise (a clock set before the epoch,
/// or beyond chrono's range) the epoch itself.
pub fn instant_of_reading(reading: Option<(u64, u32)>) -> (res: Timestamp)
    ensures
        res == match reading {
            Some((s, n)) => if s <= i64::MAX && timestamp_in_range(s as i64, n) {
                Timestamp { secs: s as i64, nanos: n }
            } else {
                Timestamp { secs: 0, nanos: 0 }
            },
            None => Timestamp { secs: 0, nanos: 0 },
        },
        timestamp_in_range(res.secs, res.nanos),
{
    if let Some((secs, nanos)) = reading {
        if secs <= i64::MAX as u64 {
            let s = secs as i64;
            if representable(s, nanos) {
                return Timestamp { secs: s, nanos };
            }
        }
    }
    unix_epoch()
}

/// The current UTC instant, as chrono represents it: the reading of the
/// system clock, taken by `instant_of_reading`.
pub fn utc_now() -> (res: Timestamp)
    ensures
        timestamp_in_range(res.secs, res.nanos),
{
    instant_of_reading(system_clock())
}

/// chrono can represent the instant (`DateTime::from_timestamp` gives a
/// value): the day lies between 1 January of the year -262143 and
/// 31 December 262142 (the range of `NaiveDate`), and the nanoseconds are
/// below one second, or below two seconds on a second 59 (a leap second,
/// as `NaiveTime::from_num_seconds_from_midnight_opt` allows).
pub open spec fn timestamp_in_range(secs: i64, nanos: u32) -> bool {
    &&& -8_334_601_228_800 <= secs <= 8_210_266_876_799
    &&& (nanos < 1_000_000_000 || (nanos < 2_000_000_000 && secs % 60 == 59))
}

/// The RFC 3339 text chrono writes for an instant (`DateTime::to_rfc3339`
/// of the UTC time).
pub uninterp spec fn rfc3339_text(secs: i64, nanos: u32) -> Seq<char>;

/// The UTC instant chrono reads from an RFC 3339 text
/// (`DateTime::parse_from_rfc3339`, converted to UTC), if it accepts it.
pub uninterp spec fn rfc3339_instant(text: Seq<char>) -> Option<(i64, u32)>;

/// The text chrono writes for an instant under the panel's format
/// `%H:%M · %b %d`.
pub uninterp spec fn panel_time_text(secs: i64, nanos: u32) -> Seq<char>;

/// The instant lies in the years 0 to 9999: chrono writes its year with
/// four digits, which its RFC 3339 parser reads back.
pub open spec fn rfc3339_exact(secs: i64, nanos: u32) -> bool {
    -62_167_219_200 <= secs <= 253_402_300_799
}

/// Calls `chrono::DateTime::from_timestamp` and `to_rfc3339` on the result.
/// The contract claims that there is a text exactly when chrono can
/// represent the instant, that it is the named RFC 3339 text, and that for
/// an instant with `rfc3339_exact`, chrono's RFC 3339 parser reads that text
/// back as the same instant (`write_rfc3339` writes a four-digit year, a
/// leap second as second 60 with the rest of its nanoseconds, the fraction
/// in 3, 6 or 9 digits and the offset `+00:00`; `parse_rfc3339` accepts all
/// of these and reads second 60 back as second 59 plus one second of
/// nanoseconds).
#[verifier::external_body]
pub(crate) fn format_rfc3339(ts: Timestamp) -> (res: Option<String>)
    ensures
        res is Some <==> timestamp_in_range(ts.secs, ts.nanos),
        res matches Some(t) ==> t@ == rfc3339_text(ts.secs, ts.nanos),
        res matches Some(t) ==> (rfc3339_exact(ts.secs, ts.nanos) ==> rfc3339_instant(t@) == Some(
            (ts.secs, ts.nanos),
        )),
{
    match chrono::DateTime::from_timestamp(ts.secs, ts.nanos) {
        Some(dt) => Some(dt.to_rfc3339()),
        None => None,
    }
}

/// Calls `chrono::DateTime::parse_from_rfc3339` and converts the result to
/// UTC seconds and nanoseconds. The contract claims that the result is the
/// named instant of the text, and that chrono can represent it (it came
/// from a `DateTime`, and `from_timestamp` round-trips any `DateTime`).
#[verifier::external_body]
pub(crate) fn parse_rfc3339(text: &str) -> (res: Option<Timestamp>)
    ensures
        match res {
            Some(t) => rfc3339_instant(text@) == Some((t.secs, t.nanos)),
            None => rfc3339_instant(text@) is None,
        },
        res matches Some(t) ==> timestamp_in_range(t.secs, t.nanos),
{
    match chrono::DateTime::parse_from_rfc3339(text) {
        Ok(dt) => {
            let utc = dt.with_timezone(&Utc);
            Some(Timestamp { secs: utc.timestamp(), nanos: utc.timestamp_subsec_nanos() })
        },
        Err(_) => None,
    }
}

/// Calls `chrono::DateTime::from_timestamp` and formats the result with
/// `%H:%M · %b %d`. The contract claims that there is a text exactly when
/// chrono can represent the instant, and that it is the named panel text.
#[verifier::external_body]
pub(crate) fn format_panel_time(ts: Timestamp) -> (res: Option<String>)
    ensures
        res is Some <==> timestamp_in_range(ts.secs, ts.nanos),
        res matches Some(t) ==> t@ == panel_time_text(ts.secs, ts.nanos),
{
    match chrono::DateTime::from_timestamp(ts.secs, ts.nanos) {
        Some(dt) => Some(dt.format("%H:%M \u{b7} %b %d").to_string()),
        None => None,
    }
}

/// The text chrono writes for an instant under the listing's format
/// `%Y-%m-%d %H:%M`.
pub uninterp spec fn table_time_text(secs: i64, nanos: u32) -> Seq<char>;

/// Calls `chrono::DateTime::from_timestamp` and formats the result with
/// `%Y-%m-%d %H:%M`. The contract claims that there is a text exactly when
/// chrono can represent the instant, and that it is the named listing text.
#[verifier::external_body]
pub(crate) fn format_table_time(ts: Timestamp) -> (res: Option<String>)
    ensures
        res is Some <==> timestamp_in_range(ts.secs, ts.nanos),
        res matches Some(t) ==> t@ == table_time_text(ts.secs, ts.nanos),
{
    match chrono::DateTime::from_timestamp(ts.secs, ts.nanos) {
        Some(dt) => Some(dt.format("%Y-%m-%d %H:%M").to_string()),
        None => None,
    }
}

/// The text chrono writes for an instant under the detail view's format
/// `%Y-%m-%d %H:%M:%S UTC`.
pub uninterp spec fn detail_time_text(secs: i64, nanos: u32) -> Seq<char>;

/// Calls `chrono::DateTime::from_timestamp` and formats the result with
/// `%Y-%m-%d %H:%M:%S UTC`. The contract claims that there is a text exactly
/// when chrono can represent the instant, and that it is the named detail
/// text.
#[verifier::external_body]
pub(crate) fn format_detail_time(ts: Timestamp) -> (res: Option<String>)
    ensures
        res is Some <==> timestamp_in_range(ts.secs, ts.nanos),
        res matches Some(t) ==> t@ == detail_time_text(ts.secs, ts.nanos),
{
    match chrono::DateTime::from_timestamp(ts.secs, ts.nanos) {
        Some(dt) => Some(dt.format("%Y-%m-%d %H:%M:%S UTC").to_string()),
        None => None,
    }
}

/// The type of content stored in a clipboard entry.
#[derive(Debug, Clone, Copy, PartialEq, Eq, Structural)]
pub enum ContentType {
    PlainText,
    RichText,
    Image,
    FilePath,
    Url,
    Code,
}

/// The stable name under which a content type is stored.
pub open spec fn content_type_name(t: ContentType) -> Seq<char> {
    match t {
        ContentType::PlainText => "plain_text"@,
        ContentType::RichText => "rich_text"@,
        ContentType::Image => "image"@,
        ContentType::FilePath => "file_path"@,
        ContentType::Url => "url"@,
        ContentType::Code => "code"@,
    }
}

/// The content type a stored name stands for; any unknown name reads as
/// plain text.
pub open spec fn content_type_of_name(s: Seq<char>) -> ContentType {
    if s == "rich_text"@ {
        ContentType::RichText
    } else if s == "image"@ {
        ContentType::Image
    } else if s == "file_path"@ {
        ContentType::FilePath
    } else if s == "url"@ {
        ContentType::Url
    } else if s == "code"@ {
        ContentType::Code
    } else {
        ContentType::PlainText
    }
}

/// `s` is one of the six stored names.
pub open spec fn is_content_type_name(s: Seq<char>) -> bool {
    ||| s == "plain_text"@
    ||| s == "rich_text"@
    ||| s == "image"@
    ||| s == "file_path"@
    ||| s == "url"@
    ||| s == "code"@
}

impl ContentType {
    pub fn as_str(&self) -> (res: &'static str)
        ensures
            res@ == content_type_name(*self),
    {
        match self {
            ContentType::PlainText => "plain_text",
            ContentType::RichText => "rich_text",
            ContentType::Image => "image",
            ContentType::FilePath => "file_path",
            ContentType::Url => "url",
            ContentType::Code => "code",
        }
    }

    pub fn from_str(s: &str) -> (res: ContentType)
        ensures
            res == content_type_of_name(s@),
    {
        let c = chars_of(s);
        if chars_eq(&c, &chars_of("rich_text")) {
            ContentType::RichText
        } else if chars_eq(&c, &chars_of("image")) {
            ContentType::Image
        } else if chars_eq(&c, &chars_of("file_path")) {
            ContentType::FilePath
        } else if chars_eq(&c, &chars_of("url")) {
            ContentType::Url
        } else if chars_eq(&c, &chars_of("code")) {
            ContentType::Code
        } else {
            ContentType::PlainText
        }
    }
}

/// Reading back the stored name of a content type gives that content type.
pub proof fn lemma_content_type_name_roundtrip(t: ContentType)
    ensures
        content_type_of_name(content_type_name(t)) == t,
{
    reveal_strlit("plain_text");
    reveal_strlit("rich_text");
    reveal_strlit("image");
    reveal_strlit("file_path");
    reveal_strlit("url");
    reveal_strlit("code");
    let n = content_type_name(t);
    match t {
        ContentType::PlainText => {
            assert(n[0] != "rich_text"@[0]);
            assert(n.len() != "image"@.len());
            assert(n[0] != "file_path"@[0]);
            assert(n.len() != "url"@.len());
            assert(n.len() != "code"@.len());
        },
        ContentType::RichText => {},
        ContentType::Image => {
            assert(n.len() != "rich_text"@.len());
        },
        ContentType::FilePath => {
            assert(n[0] != "rich_text"@[0]);
            assert(n.len() != "image"@.len());
        },
        ContentType::Url => {
            assert(n.len() != "rich_text"@.len());
            assert(n.len() != "image"@.len());
            assert(n.len() != "file_path"@.len());
        },
        ContentType::Code => {
            assert(n.len() != "rich_text"@.len());
            assert(n.len() != "image"@.len());
            assert(n.len() != "file_path"@.len());
            assert(n.len() != "url"@.len());
        },
    }
}

/// A stored name survives a read and a re-write exactly when it is one of
/// the six known names; every other name is rewritten as `plain_text`.
pub proof fn lemma_content_type_name_canonical(s: Seq<char>)
    ensures
        content_type_name(content_type_of_name(s)) == s <==> is_content_type_name(s),
        !is_content_type_name(s) ==> content_type_of_name(s) == ContentType::PlainText,
{
    reveal_strlit("plain_text");
    reveal_strlit("rich_text");
    reveal_strlit("image");
    reveal_strlit("file_path");
    reveal_strlit("url");
    reveal_strlit("code");
}

/// A single clipboard history entry with its metadata.
///
/// Every clip carries provenance (source application, capture time) and is
/// deduplicated by the hash of its content.
#[derive(Debug, Clone)]
pub struct ClipEntry {
    /// Row id assigned by the store on insert (0 before that).
    pub id: i64,
    /// Raw clipboard text.
    pub content: String,
    /// Semantic content type, determined at capture time.
    pub content_type: ContentType,
    /// Lowercase hex SHA-256 of `content`; the deduplication key.
    pub hash: String,
    /// The application that had focus when the copy was made, if known.
    pub source_app: Option<String>,
    /// Capture time (UTC).
    pub created_at: Timestamp,
    /// Pinned entries are never evicted by the history limit.
    pub pinned: bool,
    /// User-defined tags.
    pub tags: Vec<String>,
    /// Optional user-provided label.
    pub label: Option<String>,
}

/// What a preview `max_len` bytes wide shows of `content`: the trimmed text
/// when its UTF-8 encoding fits, else its first `max_len` bytes followed by
/// an ellipsis.
pub open spec fn preview_text(content: Seq<char>, max_len: nat) -> Seq<char> {
    let t = trimmed(content);
    let b = encode_utf8(t);
    if b.len() <= max_len {
        t
    } else {
        decode_utf8(b.take(max_len as int)) + "\u{2026}"@
    }
}

/// A preview `max_len` bytes wide can be cut: the trimmed text fits, or
/// `max_len` falls on a character boundary of it.
pub open spec fn preview_can_cut(content: Seq<char>, max_len: nat) -> bool {
    let b = encode_utf8(trimmed(content));
    b.len() <= max_len || is_char_boundary(b, max_len as int)
}

/// `p` is what a preview `max_len` bytes wide shows of `content`: the
/// trimmed content when its UTF-8 form fits in `max_len` bytes; otherwise a
/// prefix of it exactly `max_len` bytes long, followed by an ellipsis.
pub open spec fn is_preview_of(content: Seq<char>, max_len: nat, p: Seq<char>) -> bool {
    let t = trimmed(content);
    if encode_utf8(t).len() <= max_len {
        p == t
    } else {
        exists|q: Seq<char>|
            #[trigger] q.is_prefix_of(t) && encode_utf8(q).len() == max_len && p == q + seq![
                '\u{2026}',
            ]
    }
}

/// A preview shows the whole trimmed text where it fits, and otherwise cuts
/// it to its first `max_len` bytes and adds an ellipsis.
pub proof fn lemma_preview_shape(content: Seq<char>, max_len: nat)
    requires
        preview_can_cut(content, max_len),
    ensures
        is_preview_of(content, max_len, preview_text(content, max_len)),
{
    let t = trimmed(content);
    let b = encode_utf8(t);
    if b.len() > max_len {
        reveal_strlit("\u{2026}");
        vstd::utf8::encode_utf8_valid_utf8(t);
        vstd::utf8::encode_utf8_decode_utf8(t);
        vstd::utf8::decode_utf8_split(b, max_len as int);
        vstd::utf8::valid_utf8_split(b, max_len as int);
        let head = b.subrange(0, max_len as int);
        assert(b.take(max_len as int) =~= head);
        let q = decode_utf8(head);
        vstd::utf8::decode_utf8_encode_utf8(head);
        assert(t == q + decode_utf8(b.subrange(max_len as int, b.len() as int)));
        assert(q.is_prefix_of(t));
        assert(preview_text(content, max_len) =~= q + seq!['\u{2026}']);
    }
}

impl ClipEntry {
    /// A new, not yet stored entry captured now.
    pub fn new(
        content: String,
        content_type: ContentType,
        hash: String,
        source_app: Option<String>,
    ) -> (res: Self)
        ensures
            res.id == 0,
            res.content == content,
            res.content_type == content_type,
            res.hash == hash,
            res.source_app == source_app,
            !res.pinned,
            res.tags@.len() == 0,
            res.label is None,
            timestamp_in_range(res.created_at.secs, res.created_at.nanos),
    {
        ClipEntry {
            id: 0,
            content,
            content_type,
            hash,
            source_app,
            created_at: utc_now(),
            pinned: false,
            tags: Vec::new(),
            label: None,
        }
    }

    /// A short preview of the content for display, at most `max_len` bytes
    /// of the trimmed text. The cut must fall on a character boundary.
    pub fn preview(&self, max_len: usize) -> (res: String)
        requires
            preview_can_cut(self.content@, max_len as nat),
        ensures
            res@ == preview_text(self.content@, max_len as nat),
    {
        let s = trim(self.content.as_str());
        let byte_len = s.as_bytes().len();
        if byte_len <= max_len {
            String::from_str(s)
        } else {
            let (head, _rest) = s.split_at(max_len);
            proof {
                vstd::utf8::encode_utf8_decode_utf8(head@);
                assert(s.spec_bytes().take(max_len as int) =~= head.spec_bytes());
            }
            String::from_str(head).concat("\u{2026}")
        }
    }

    /// The preview, or `None` where the cut at `max_len` bytes would split
    /// a character.
    pub fn try_preview(&self, max_len: usize) -> (res: Option<String>)
        ensures
            res is Some <==> preview_can_cut(self.content@, max_len as nat),
            res matches Some(p) ==> p@ == preview_text(self.content@, max_len as nat),
    {
        let s = trim(self.content.as_str());
        let byte_len = s.as_bytes().len();
        if byte_len <= max_len || s.is_char_boundary(max_len) {
            Some(self.preview(max_len))
        } else {
            None
        }
    }
}

} // verus!
