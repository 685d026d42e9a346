//! The lines the command-line tool prints for clips: a row of the `list`
//! table, a row of the `list` CSV output, and a row of the CSV export, with
//! the decimal and padded text they are made of.
use vstd::prelude::*;
use crate::models::{
    content_type_name, detail_time_text, is_preview_of, lemma_preview_shape, format_detail_time, format_rfc3339, format_table_time,
    preview_can_cut, preview_text, rfc3339_text, table_time_text, timestamp_in_range, ClipEntry,
};
use vstd::string::StringSliceAdditionalSpecFns;
use vstd::utf8::{decode_utf8, encode_utf8, is_char_boundary};
use crate::config::texts;
use crate::text::{chars_of, ends_with_csv_field, lemma_quoted_last_field, quote, quoted, string_from_chars};

verus! {

broadcast use vstd::string::group_string_axioms;

// ---------------------------------------------------------------------------
// Specifications
// ---------------------------------------------------------------------------

/// The decimal digit for `d` (0 to 9).
pub open spec fn digit_char(d: nat) -> char {
    if d == 0 {
        '0'
    } else if d == 1 {
        '1'
    } else if d == 2 {
        '2'
    } else if d == 3 {
        '3'
    } else if d == 4 {
        '4'
    } else if d == 5 {
        '5'
    } else if d == 6 {
        '6'
    } else if d == 7 {
        '7'
    } else if d == 8 {
        '8'
    } else {
        '9'
    }
}

/// The decimal text of a natural number, without leading zeros.
pub open spec fn nat_text(n: nat) -> Seq<char>
    decreases n,
{
    if n < 10 {
        seq![digit_char(n)]
    } else {
        nat_text(n / 10).push(digit_char(n % 10))
    }
}

/// The decimal text of an integer, as `Display` writes it: a minus sign
/// before the digits of a negative number.
pub open spec fn int_text(n: int) -> Seq<char> {
    if n < 0 {
        seq!['-'] + nat_text((-n) as nat)
    } else {
        nat_text(n as nat)
    }
}

/// `n` spaces.
pub open spec fn spaces(n: nat) -> Seq<char> {
    Seq::new(n, |i: int| ' ')
}

/// `s` left-aligned in a field `width` characters wide (`{:<width}`): padded
/// with spaces on the right, never cut.
pub open spec fn padded(s: Seq<char>, width: nat) -> Seq<char> {
    if s.len() < width {
        s + spaces((width - s.len()) as nat)
    } else {
        s
    }
}

/// The texts joined with `sep` between them.
pub open spec fn joined_with(items: Seq<Seq<char>>, sep: Seq<char>) -> Seq<char>
    decreases items.len(),
{
    if items.len() == 0 {
        Seq::<char>::empty()
    } else if items.len() == 1 {
        items[0]
    } else {
        joined_with(items.drop_last(), sep) + sep + items.last()
    }
}

/// How `Display` writes a `bool`.
pub open spec fn bool_text(b: bool) -> Seq<char> {
    if b {
        "true"@
    } else {
        "false"@
    }
}

/// An optional text, or the empty text.
pub open spec fn text_or_empty(o: Option<String>) -> Seq<char> {
    match o {
        Some(s) => s@,
        None => Seq::<char>::empty(),
    }
}

/// A row of the `list` table: id, type, capture time, `yes` when pinned,
/// and a 48-byte preview. The id, time and pinned fields are padded to 6,
/// 20 and 8 characters; the type is written as it is (its `Display` writes
/// the name without honouring a width).
pub open spec fn table_row_text(clip: ClipEntry) -> Seq<char> {
    padded(int_text(clip.id as int), 6) + " "@ + content_type_name(clip.content_type) + " "@ + padded(table_time_text(clip.created_at.secs, clip.created_at.nanos), 20) + " "@
        + padded(
        if clip.pinned {
            "yes"@
        } else {
            Seq::<char>::empty()
        },
        8,
    ) + " "@ + preview_text(clip.content@, 48)
}

/// A row of the `list` CSV output: id, type, RFC 3339 capture time, pinned,
/// source application and the quoted 80-byte preview.
pub open spec fn list_csv_text(clip: ClipEntry) -> Seq<char> {
    int_text(clip.id as int) + ","@ + content_type_name(clip.content_type) + ","@
        + rfc3339_text(clip.created_at.secs, clip.created_at.nanos) + ","@ + bool_text(clip.pinned)
        + ","@ + text_or_empty(clip.source_app) + ","@ + quoted(preview_text(clip.content@, 80))
}

/// A row of the CSV export: id, type, RFC 3339 capture time, pinned,
/// source application, hash, label, the tags joined by `;`, and the quoted
/// content.
pub open spec fn export_csv_text(clip: ClipEntry) -> Seq<char> {
    int_text(clip.id as int) + ","@ + content_type_name(clip.content_type) + ","@
        + rfc3339_text(clip.created_at.secs, clip.created_at.nanos) + ","@ + bool_text(clip.pinned)
        + ","@ + text_or_empty(clip.source_app) + ","@ + clip.hash@ + ","@ + text_or_empty(
        clip.label,
    ) + ","@ + joined_with(texts(clip.tags@), ";"@) + ","@ + quoted(clip.content@)
}

/// The first 16 bytes of a hash can be cut off: byte 16 falls on a
/// character boundary (so the hash is at least 16 bytes long).
pub open spec fn hash_head_cuts(h: Seq<char>) -> bool {
    is_char_boundary(encode_utf8(h), 16)
}

/// The text of the first 16 bytes of a hash.
pub open spec fn hash_head(h: Seq<char>) -> Seq<char> {
    decode_utf8(encode_utf8(h).take(16))
}

/// `label` followed by `value` and a newline where there is a value.
pub open spec fn optional_line(label: Seq<char>, value: Option<String>) -> Seq<char> {
    match value {
        Some(v) => label + v@ + "\n"@,
        None => Seq::<char>::empty(),
    }
}

/// The detail view of a clip (`clipd get`): its id, type, capture time,
/// pin state, source application and label where present, tags where
/// there are any, the first 16 bytes of its hash, and its content.
pub open spec fn details_text(clip: ClipEntry) -> Seq<char> {
    "ID:          "@ + int_text(clip.id as int) + "\n"@ + "Type:        "@ + content_type_name(
        clip.content_type,
    ) + "\n"@ + "Created:     "@ + detail_time_text(clip.created_at.secs, clip.created_at.nanos)
        + "\n"@ + "Pinned:      "@ + bool_text(clip.pinned) + "\n"@ + optional_line(
        "Source app:  "@,
        clip.source_app,
    ) + optional_line("Label:       "@, clip.label) + (if clip.tags@.len() > 0 {
        "Tags:        "@ + joined_with(texts(clip.tags@), ", "@) + "\n"@
    } else {
        Seq::<char>::empty()
    }) + "Hash:        "@ + hash_head(clip.hash@) + "\u{2026}"@ + "\n"@ + "\n--- Content ---\n"@
        + clip.content@
}

// ---------------------------------------------------------------------------
// Building text
// ---------------------------------------------------------------------------

/// The digit character for `d`.
fn digit(d: u64) -> (res: char)
    requires
        d < 10,
    ensures
        res == digit_char(d as nat),
{
    if d == 0 {
        '0'
    } else if d == 1 {
        '1'
    } else if d == 2 {
        '2'
    } else if d == 3 {
        '3'
    } else if d == 4 {
        '4'
    } else if d == 5 {
        '5'
    } else if d == 6 {
        '6'
    } else if d == 7 {
        '7'
    } else if d == 8 {
        '8'
    } else {
        '9'
    }
}

/// Appends the decimal text of `n`.
fn push_nat(out: &mut Vec<char>, n: u64)
    ensures
        final(out)@ == old(out)@ + nat_text(n as nat),
    decreases n,
{
    if n < 10 {
        out.push(digit(n));
    } else {
        push_nat(out, n / 10);
        out.push(digit(n % 10));
    }
}

/// Appends the decimal text of `n`, with its sign.
fn push_int(out: &mut Vec<char>, n: i64)
    ensures
        final(out)@ == old(out)@ + int_text(n as int),
{
    if n < 0 {
        out.push('-');
        let magnitude: u64 = (-(n + 1)) as u64 + 1;
        push_nat(out, magnitude);
    } else {
        push_nat(out, n as u64);
    }
}

/// Appends the characters of `s`.
fn push_str(out: &mut Vec<char>, s: &str)
    ensures
        final(out)@ == old(out)@ + s@,
{
    let mut cs = chars_of(s);
    out.append(&mut cs);
}

/// Appends `s` left-aligned in a field `width` characters wide.
fn push_padded(out: &mut Vec<char>, s: &Vec<char>, width: usize)
    ensures
        final(out)@ == old(out)@ + padded(s@, width as nat),
{
    let ghost start = out@;
    let mut k: usize = 0;
    while k < s.len()
        invariant
            k <= s.len(),
            out@ == start + s@.take(k as int),
        decreases s.len() - k,
    {
        out.push(s[k]);
        k = k + 1;
        assert(s@.take(k as int) =~= s@.take(k - 1).push(s@[k - 1]));
    }
    assert(s@.take(s.len() as int) =~= s@);
    let ghost filled = out@;
    while k < width
        invariant
            s.len() <= k,
            k <= width || k == s.len(),
            filled == start + s@,
            out@ == filled + spaces((k - s.len()) as nat),
        decreases width - k,
    {
        out.push(' ');
        assert(spaces((k + 1 - s.len()) as nat) =~= spaces((k - s.len()) as nat).push(' '));
        k = k + 1;
    }
    if s.len() < width {
        assert(k == width);
    } else {
        assert(spaces(0) =~= Seq::<char>::empty());
        assert(k == s.len());
    }
}

/// Appends the texts joined with `sep`.
fn push_joined(out: &mut Vec<char>, items: &Vec<String>, sep: &str)
    ensures
        final(out)@ == old(out)@ + joined_with(texts(items@), sep@),
{
    let ghost start = out@;
    let mut i: usize = 0;
    assert(texts(items@).take(0) =~= Seq::<Seq<char>>::empty());
    while i < items.len()
        invariant
            i <= items.len(),
            out@ == start + joined_with(texts(items@).take(i as int), sep@),
        decreases items.len() - i,
    {
        let ghost prev = texts(items@).take(i as int);
        let ghost next = texts(items@).take(i + 1);
        assert(next.drop_last() =~= prev);
        assert(next.last() == items@[i as int]@);
        if i > 0 {
            push_str(out, sep);
        } else {
            assert(next.len() == 1);
        }
        push_str(out, items[i].as_str());
        i = i + 1;
        assert(out@ =~= start + joined_with(next, sep@));
    }
    assert(texts(items@).take(items.len() as int) =~= texts(items@));
}

/// Appends an optional text, or nothing.
fn push_opt(out: &mut Vec<char>, o: &Option<String>)
    ensures
        final(out)@ == old(out)@ + text_or_empty(*o),
{
    match o {
        Some(s) => push_str(out, s.as_str()),
        None => {
            assert(out@ =~= out@ + Seq::<char>::empty());
        },
    }
}

/// Appends `true` or `false`.
fn push_bool(out: &mut Vec<char>, b: bool)
    ensures
        final(out)@ == old(out)@ + bool_text(b),
{
    if b {
        push_str(out, "true");
    } else {
        push_str(out, "false");
    }
}

// ---------------------------------------------------------------------------
// Rows
// ---------------------------------------------------------------------------

/// The decimal text of an integer, as `Display` writes it.
pub fn int_to_text(n: i64) -> (res: String)
    ensures
        res@ == int_text(n as int),
{
    let mut out: Vec<char> = Vec::new();
    push_int(&mut out, n);
    assert(out@ =~= int_text(n as int));
    string_from_chars(&out)
}

/// A row of the `list` table. `None` where chrono cannot represent the
/// capture time, or where the 48-byte preview would split a character.
pub fn list_table_row(clip: &ClipEntry) -> (res: Option<String>)
    ensures
        res is Some <==> (timestamp_in_range(clip.created_at.secs, clip.created_at.nanos)
            && preview_can_cut(clip.content@, 48)),
        res matches Some(t) ==> t@ == table_row_text(*clip),
{
    let time = match format_table_time(clip.created_at) {
        Some(t) => t,
        None => return None,
    };
    let preview = match clip.try_preview(48) {
        Some(p) => p,
        None => return None,
    };
    let mut out: Vec<char> = Vec::new();
    let mut id: Vec<char> = Vec::new();
    push_int(&mut id, clip.id);
    assert(id@ =~= int_text(clip.id as int));
    push_padded(&mut out, &id, 6);
    push_str(&mut out, " ");
    push_str(&mut out, clip.content_type.as_str());
    push_str(&mut out, " ");
    push_padded(&mut out, &chars_of(time.as_str()), 20);
    push_str(&mut out, " ");
    let pinned = if clip.pinned {
        chars_of("yes")
    } else {
        Vec::new()
    };
    push_padded(&mut out, &pinned, 8);
    push_str(&mut out, " ");
    push_str(&mut out, preview.as_str());
    proof {
        if !clip.pinned {
            assert(pinned@ =~= Seq::<char>::empty());
        }
        assert(out@ =~= table_row_text(*clip));
    }
    Some(string_from_chars(&out))
}

/// A row of the `list` CSV output. `None` where chrono cannot represent the
/// capture time, or where the 80-byte preview would split a character.
pub fn list_csv_row(clip: &ClipEntry) -> (res: Option<String>)
    ensures
        res is Some <==> (timestamp_in_range(clip.created_at.secs, clip.created_at.nanos)
            && preview_can_cut(clip.content@, 80)),
        res matches Some(t) ==> t@ == list_csv_text(*clip),
{
    let time = match format_rfc3339(clip.created_at) {
        Some(t) => t,
        None => return None,
    };
    let preview = match clip.try_preview(80) {
        Some(p) => p,
        None => return None,
    };
    let mut out: Vec<char> = Vec::new();
    push_int(&mut out, clip.id);
    push_str(&mut out, ",");
    push_str(&mut out, clip.content_type.as_str());
    push_str(&mut out, ",");
    push_str(&mut out, time.as_str());
    push_str(&mut out, ",");
    push_bool(&mut out, clip.pinned);
    push_str(&mut out, ",");
    push_opt(&mut out, &clip.source_app);
    push_str(&mut out, ",");
    let q = quote(preview.as_str());
    push_str(&mut out, q.as_str());
    assert(out@ =~= list_csv_text(*clip));
    Some(string_from_chars(&out))
}

/// A row of the CSV export. `None` where chrono cannot represent the
/// capture time.
pub fn export_csv_row(clip: &ClipEntry) -> (res: Option<String>)
    ensures
        res is Some <==> timestamp_in_range(clip.created_at.secs, clip.created_at.nanos),
        res matches Some(t) ==> t@ == export_csv_text(*clip),
{
    let time = match format_rfc3339(clip.created_at) {
        Some(t) => t,
        None => return None,
    };
    let mut out: Vec<char> = Vec::new();
    push_int(&mut out, clip.id);
    push_str(&mut out, ",");
    push_str(&mut out, clip.content_type.as_str());
    push_str(&mut out, ",");
    push_str(&mut out, time.as_str());
    push_str(&mut out, ",");
    push_bool(&mut out, clip.pinned);
    push_str(&mut out, ",");
    push_opt(&mut out, &clip.source_app);
    push_str(&mut out, ",");
    push_str(&mut out, clip.hash.as_str());
    push_str(&mut out, ",");
    push_opt(&mut out, &clip.label);
    push_str(&mut out, ",");
    push_joined(&mut out, &clip.tags, ";");
    push_str(&mut out, ",");
    let q = quote(clip.content.as_str());
    push_str(&mut out, q.as_str());
    assert(out@ =~= export_csv_text(*clip));
    Some(string_from_chars(&out))
}

/// Appends `label`, the value and a newline where there is a value.
fn push_optional_line(out: &mut Vec<char>, label: &str, value: &Option<String>)
    ensures
        final(out)@ == old(out)@ + optional_line(label@, *value),
{
    match value {
        Some(v) => {
            push_str(out, label);
            push_str(out, v.as_str());
            push_str(out, "\n");
        },
        None => {
            assert(out@ =~= out@ + Seq::<char>::empty());
        },
    }
}

/// The detail view of a clip, as `clipd get` prints it. `None` where chrono
/// cannot represent the capture time, or where the hash is too short to
/// show its first 16 bytes or byte 16 would split a character.
pub fn clip_details(clip: &ClipEntry) -> (res: Option<String>)
    ensures
        res is Some <==> (timestamp_in_range(clip.created_at.secs, clip.created_at.nanos)
            && hash_head_cuts(clip.hash@)),
        res matches Some(t) ==> t@ == details_text(*clip),
{
    let time = match format_detail_time(clip.created_at) {
        Some(t) => t,
        None => return None,
    };
    let hash = clip.hash.as_str();
    if !hash.is_char_boundary(16) {
        return None;
    }
    let (head, _rest) = hash.split_at(16);
    proof {
        vstd::utf8::encode_utf8_decode_utf8(head@);
        assert(hash.spec_bytes().take(16) =~= head.spec_bytes());
    }
    let mut out: Vec<char> = Vec::new();
    push_str(&mut out, "ID:          ");
    push_int(&mut out, clip.id);
    push_str(&mut out, "\n");
    push_str(&mut out, "Type:        ");
    push_str(&mut out, clip.content_type.as_str());
    push_str(&mut out, "\n");
    push_str(&mut out, "Created:     ");
    push_str(&mut out, time.as_str());
    push_str(&mut out, "\n");
    push_str(&mut out, "Pinned:      ");
    push_bool(&mut out, clip.pinned);
    push_str(&mut out, "\n");
    push_optional_line(&mut out, "Source app:  ", &clip.source_app);
    push_optional_line(&mut out, "Label:       ", &clip.label);
    let ghost before_tags = out@;
    if clip.tags.len() > 0 {
        push_str(&mut out, "Tags:        ");
        push_joined(&mut out, &clip.tags, ", ");
        push_str(&mut out, "\n");
    } else {
        assert(out@ =~= before_tags + Seq::<char>::empty());
    }
    push_str(&mut out, "Hash:        ");
    push_str(&mut out, head);
    push_str(&mut out, "\u{2026}");
    push_str(&mut out, "\n");
    push_str(&mut out, "\n--- Content ---\n");
    push_str(&mut out, clip.content.as_str());
    assert(out@ =~= details_text(*clip));
    Some(string_from_chars(&out))
}

// ---------------------------------------------------------------------------
// Laws of the printed lines
// ---------------------------------------------------------------------------

/// `s` ends with `tail`.
pub open spec fn ends_with(s: Seq<char>, tail: Seq<char>) -> bool {
    tail.len() <= s.len() && s.skip(s.len() - tail.len()) == tail
}

/// `a + b` ends with `b`.
proof fn lemma_concat_ends_with(a: Seq<char>, b: Seq<char>)
    ensures
        ends_with(a + b, b),
{
    assert((a + b).skip((a + b).len() - b.len()) =~= b);
}

/// The last column of a `list` table row is the 48-byte preview of the
/// content, after a space: the whole trimmed content where it fits in 48
/// bytes, otherwise its first 48 bytes and an ellipsis.
pub proof fn lemma_table_row_ends_with_preview(clip: ClipEntry)
    requires
        preview_can_cut(clip.content@, 48),
    ensures
        ends_with(table_row_text(clip), seq![' '] + preview_text(clip.content@, 48)),
        is_preview_of(clip.content@, 48, preview_text(clip.content@, 48)),
{
    reveal_strlit(" ");
    let p = preview_text(clip.content@, 48);
    let row = table_row_text(clip);
    assert(row =~= row.take(row.len() - p.len() - 1) + (seq![' '] + p));
    lemma_concat_ends_with(row.take(row.len() - p.len() - 1), seq![' '] + p);
    lemma_preview_shape(clip.content@, 48);
}

/// The last field of a `list` CSV row is the 80-byte preview of the
/// content, quoted so that a CSV reader reads the preview back exactly.
pub proof fn lemma_list_csv_row_ends_with_preview(clip: ClipEntry)
    requires
        preview_can_cut(clip.content@, 80),
    ensures
        ends_with_csv_field(list_csv_text(clip), preview_text(clip.content@, 80)),
        is_preview_of(clip.content@, 80, preview_text(clip.content@, 80)),
{
    let row = list_csv_text(clip);
    let q = quoted(preview_text(clip.content@, 80));
    let before = row.take(row.len() - q.len() - 1);
    reveal_strlit(",");
    assert(row =~= before + ","@ + q);
    lemma_quoted_last_field(before, preview_text(clip.content@, 80));
    lemma_preview_shape(clip.content@, 80);
}

/// The last field of an export row is the whole content, quoted so that a
/// CSV reader reads the content back exactly, whatever quotes, commas or
/// line breaks it holds.
pub proof fn lemma_export_row_ends_with_content(clip: ClipEntry)
    ensures
        ends_with_csv_field(export_csv_text(clip), clip.content@),
{
    let row = export_csv_text(clip);
    let q = quoted(clip.content@);
    let before = row.take(row.len() - q.len() - 1);
    reveal_strlit(",");
    assert(row =~= before + ","@ + q);
    lemma_quoted_last_field(before, clip.content@);
}

/// The detail view ends with the whole content, after the content heading.
pub proof fn lemma_details_end_with_content(clip: ClipEntry)
    ensures
        ends_with(details_text(clip), "\n--- Content ---\n"@ + clip.content@),
        details_text(clip).len() >= clip.content@.len(),
{
    let tail = "\n--- Content ---\n"@ + clip.content@;
    let d = details_text(clip);
    assert(d =~= d.take(d.len() - tail.len()) + tail);
    lemma_concat_ends_with(d.take(d.len() - tail.len()), tail);
}

} // verus!
