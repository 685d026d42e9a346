//! Clipboard content analysis: content-type detection, content hashing,
//! change detection between polls, and reading the name of the source
//! application out of the platform probes' output.
use vstd::prelude::*;
use sha2::Digest;
use vstd::string::StringExecFns;
use vstd::utf8::{encode_scalar, encode_utf8};
use crate::models::ContentType;
use crate::text::{
    chars_eq, chars_of, contains_char, contains_seq, deep_chars, has_substring,
    lemma_split_has_two, lines, lines_of, split_chars, split_on,
    starts_with, string_from_chars, trim, trimmed, all_white_space, lemma_trim_surrounded,
    lemma_trim_idempotent,
};

verus! {

broadcast use vstd::string::group_string_axioms;

// ---------------------------------------------------------------------------
// Hashing
// ---------------------------------------------------------------------------

/// The SHA-256 digest of `data`, as the `sha2` crate computes it.
pub uninterp spec fn sha256_digest(data: Seq<u8>) -> Seq<u8>;

/// Calls `sha2::Sha256::digest`. The contract claims that the result is the
/// named digest of the input and that it is 32 bytes long (the output size
/// of SHA-256).
#[verifier::external_body]
fn sha256(data: &[u8]) -> (res: Vec<u8>)
    ensures
        res@ == sha256_digest(data@),
        res@.len() == 32,
{
    sha2::Sha256::digest(data).to_vec()
}

/// The lowercase hexadecimal digit for a value below 16.
pub open spec fn hex_digit(n: int) -> char {
    if n < 10 {
        (48 + n) as char
    } else {
        (87 + n) as char
    }
}

/// Lowercase hexadecimal text of `bytes`: two digits per byte, high nibble
/// first.
pub open spec fn hex_lower(bytes: Seq<u8>) -> Seq<char>
    decreases bytes.len(),
{
    if bytes.len() == 0 {
        Seq::<char>::empty()
    } else {
        let b = bytes.last();
        hex_lower(bytes.drop_last()) + seq![hex_digit((b / 16) as int), hex_digit((b % 16) as int)]
    }
}

/// Calls `hex::encode`, which writes each byte as two lowercase hexadecimal
/// digits, high nibble first (the table `0123456789abcdef`).
#[verifier::external_body]
fn hex_encode(bytes: &[u8]) -> (res: String)
    ensures
        res@ == hex_lower(bytes@),
{
    hex::encode(bytes)
}

/// The content hash of a text: lowercase hex of the SHA-256 of its UTF-8
/// bytes.
pub open spec fn content_hash(content: Seq<char>) -> Seq<char> {
    hex_lower(sha256_digest(encode_utf8(content)))
}

/// `c` is a lowercase hexadecimal digit.
pub open spec fn is_hex_digit(c: char) -> bool {
    ('0' <= c && c <= '9') || ('a' <= c && c <= 'f')
}

/// Hex text is two digits per byte, each a lowercase hex digit.
pub proof fn lemma_hex_lower_shape(bytes: Seq<u8>)
    ensures
        hex_lower(bytes).len() == 2 * bytes.len(),
        forall|i: int| 0 <= i < hex_lower(bytes).len() ==> is_hex_digit(#[trigger] hex_lower(bytes)[i]),
    decreases bytes.len(),
{
    if bytes.len() > 0 {
        lemma_hex_lower_shape(bytes.drop_last());
        let b = bytes.last();
        let hi = b / 16;
        let lo = b % 16;
        assert(is_hex_digit(hex_digit(hi as int)));
        assert(is_hex_digit(hex_digit(lo as int)));
        let prev = hex_lower(bytes.drop_last());
        let whole = hex_lower(bytes);
        assert(whole == prev + seq![hex_digit(hi as int), hex_digit(lo as int)]);
        assert forall|i: int| 0 <= i < whole.len() implies is_hex_digit(#[trigger] whole[i]) by {
            if i < prev.len() {
                assert(whole[i] == prev[i]);
            }
        }
    }
}

/// Compute SHA-256 of content and return it as lowercase hex text.
pub fn sha256_hex(content: &str) -> (res: String)
    ensures
        res@ == content_hash(content@),
        res@.len() == 64,
        forall|i: int| 0 <= i < res@.len() ==> is_hex_digit(#[trigger] res@[i]),
{
    let digest = sha256(content.as_bytes());
    proof {
        lemma_hex_lower_shape(digest@);
    }
    hex_encode(digest.as_slice())
}

// ---------------------------------------------------------------------------
// Content-type detection
// ---------------------------------------------------------------------------

/// The text starts with one of the recognised URL schemes.
pub open spec fn has_url_scheme(s: Seq<char>) -> bool {
    ||| "http://"@.is_prefix_of(s)
    ||| "https://"@.is_prefix_of(s)
    ||| "ftp://"@.is_prefix_of(s)
    ||| "ftps://"@.is_prefix_of(s)
    ||| "ssh://"@.is_prefix_of(s)
    ||| "git://"@.is_prefix_of(s)
}

/// One of the top-level domains that mark a bare domain without a path.
pub open spec fn is_known_tld(s: Seq<char>) -> bool {
    ||| s == "com"@
    ||| s == "org"@
    ||| s == "net"@
    ||| s == "io"@
    ||| s == "dev"@
    ||| s == "app"@
    ||| s == "ai"@
    ||| s == "co"@
}

/// A bare domain such as `example.com/path`: holds a dot and no space, the
/// label before the first dot is non-empty and at most 63 bytes, and it
/// either holds a slash or ends in a known top-level domain.
pub open spec fn is_bare_domain(s: Seq<char>) -> bool {
    &&& s.contains('.')
    &&& !s.contains(' ')
    &&& split_on(s, '.')[0].len() > 0
    &&& encode_utf8(split_on(s, '.')[0]).len() <= 63
    &&& (s.contains('/') || is_known_tld(split_on(s, '.').last()))
}

/// The text looks like a URL.
pub open spec fn looks_like_url(s: Seq<char>) -> bool {
    has_url_scheme(s) || is_bare_domain(s)
}

/// UTF-8 bytes of a Windows absolute path: a drive letter, `:` and a slash
/// or backslash.
pub open spec fn is_drive_path(b: Seq<u8>) -> bool {
    b.len() >= 3 && b[1] == 58 && (b[2] == 92 || b[2] == 47)
}

/// The text looks like a file path: Unix absolute, home-relative, Windows
/// absolute, or UNC.
pub open spec fn looks_like_path(s: Seq<char>) -> bool {
    ||| (s.len() > 0 && s[0] == '/')
    ||| "~/"@.is_prefix_of(s)
    ||| is_drive_path(encode_utf8(s))
    ||| "\\\\"@.is_prefix_of(s)
}

/// Fragments that hint at source code.
pub open spec fn code_patterns() -> Seq<Seq<char>> {
    seq![
        "fn "@, "func "@, "function "@, "def "@, "class "@, "struct "@,
        "impl "@, "interface "@, "async "@, "await "@, "import "@, "use "@,
        "const "@, "let "@, "var "@, "pub "@, "private "@, "public "@,
        "return "@, "if ("@, "if("@, "for ("@, "for("@, "while ("@,
        "=>"@, "->"@, "::"@, "&&"@, "||"@,
    ]
}

/// How many of `pats` occur in `s`.
pub open spec fn count_present(s: Seq<char>, pats: Seq<Seq<char>>) -> nat
    decreases pats.len(),
{
    if pats.len() == 0 {
        0
    } else {
        count_present(s, pats.drop_last()) + if has_substring(s, pats.last()) {
            1nat
        } else {
            0nat
        }
    }
}

/// A line indented by four spaces or a tab.
pub open spec fn is_indented(line: Seq<char>) -> bool {
    "    "@.is_prefix_of(line) || (line.len() > 0 && line[0] == '\t')
}

/// How many of the lines are indented.
pub open spec fn count_indented(ls: Seq<Seq<char>>) -> nat
    decreases ls.len(),
{
    if ls.len() == 0 {
        0
    } else {
        count_indented(ls.drop_last()) + if is_indented(ls.last()) {
            1nat
        } else {
            0nat
        }
    }
}

/// The text looks like source code: a shebang, two or more code fragments,
/// at least three lines of which two are indented, or braces and
/// parentheses across more than one line.
pub open spec fn looks_like_code(s: Seq<char>) -> bool {
    ||| "#!"@.is_prefix_of(s)
    ||| count_present(s, code_patterns()) >= 2
    ||| (lines_of(s).len() >= 3 && count_indented(lines_of(s)) >= 2)
    ||| (s.contains('{') && s.contains('}') && s.contains('(') && s.contains(')') && s.contains(
        '\n',
    ))
}

/// The content type detected for a clipboard text: it is trimmed, then
/// tested as file path, URL and code in that order; plain text otherwise.
/// A text with a URL scheme never looks like a path (see
/// `lemma_scheme_is_not_path`), so a URL with a scheme is always a URL, and
/// a path such as `/home/user/notes.txt` is never taken for a bare domain.
pub open spec fn content_type_of(content: Seq<char>) -> ContentType {
    let t = trimmed(content);
    if looks_like_path(t) {
        ContentType::FilePath
    } else if looks_like_url(t) {
        ContentType::Url
    } else if looks_like_code(t) {
        ContentType::Code
    } else {
        ContentType::PlainText
    }
}

/// White space around a text never changes its detected type, and the
/// trimmed text has the type of the text.
pub proof fn lemma_white_space_keeps_type(before: Seq<char>, content: Seq<char>, after: Seq<char>)
    requires
        all_white_space(before),
        all_white_space(after),
    ensures
        content_type_of(before + content + after) == content_type_of(content),
        content_type_of(trimmed(content)) == content_type_of(content),
{
    lemma_trim_surrounded(before, content, after);
    lemma_trim_idempotent(content);
}

/// A bare domain ending in a known top-level domain is a URL: a text that
/// (once trimmed) has no URL scheme and is not a path, holds a dot and no
/// space, whose first dot-separated label is non-empty and at most 63 bytes
/// long, and whose last dot-separated label is `com`, `org`, `net`, `io`,
/// `dev`, `app`, `ai` or `co`, is detected as a URL (`www.google.com` is one).
pub proof fn lemma_known_tld_domain_is_url(content: Seq<char>)
    requires
        ({
            let t = trimmed(content);
            let labels = split_on(t, '.');
            &&& !looks_like_path(t)
            &&& t.contains('.')
            &&& !t.contains(' ')
            &&& labels[0].len() > 0
            &&& encode_utf8(labels[0]).len() <= 63
            &&& {
                let last = labels[labels.len() - 1];
                ||| last == "com"@
                ||| last == "org"@
                ||| last == "net"@
                ||| last == "io"@
                ||| last == "dev"@
                ||| last == "app"@
                ||| last == "ai"@
                ||| last == "co"@
            }
        }),
    ensures
        content_type_of(content) == ContentType::Url,
{
    lemma_split_has_two(trimmed(content), '.');
}

/// A bare domain with a path is a URL: a text that (once trimmed) is not a
/// path, holds a dot and a slash and no space, and whose first
/// dot-separated label is non-empty and at most 63 bytes long, is detected
/// as a URL (`example.org/page` is one).
pub proof fn lemma_domain_with_path_is_url(content: Seq<char>)
    requires
        ({
            let t = trimmed(content);
            let labels = split_on(t, '.');
            &&& !looks_like_path(t)
            &&& t.contains('.')
            &&& t.contains('/')
            &&& !t.contains(' ')
            &&& labels[0].len() > 0
            &&& encode_utf8(labels[0]).len() <= 63
        }),
    ensures
        content_type_of(content) == ContentType::Url,
{
}

/// A text that starts with a URL scheme does not look like a file path.
pub proof fn lemma_scheme_is_not_path(s: Seq<char>)
    requires
        has_url_scheme(s),
    ensures
        !looks_like_path(s),
{
    reveal_strlit("http://");
    reveal_strlit("https://");
    reveal_strlit("ftp://");
    reveal_strlit("ftps://");
    reveal_strlit("ssh://");
    reveal_strlit("git://");
    reveal_strlit("~/");
    reveal_strlit("\\\\");
    let p = if "http://"@.is_prefix_of(s) {
        "http://"@
    } else if "https://"@.is_prefix_of(s) {
        "https://"@
    } else if "ftp://"@.is_prefix_of(s) {
        "ftp://"@
    } else if "ftps://"@.is_prefix_of(s) {
        "ftps://"@
    } else if "ssh://"@.is_prefix_of(s) {
        "ssh://"@
    } else {
        "git://"@
    };
    assert(p.is_prefix_of(s));
    assert(s[0] == p[0] && s[1] == p[1]);
    assert(s[0] == 'h' || s[0] == 'f' || s[0] == 's' || s[0] == 'g');
    assert(s[1] == 't' || s[1] == 's' || s[1] == 'i');
    lemma_second_byte_not_colon(s);
}

/// The second UTF-8 byte of a text whose first character is ASCII and whose
/// second is `t`, `s` or `i` is not a colon.
proof fn lemma_second_byte_not_colon(s: Seq<char>)
    requires
        s.len() >= 2,
        (s[0] as u32) <= 0x7F,
        s[1] == 't' || s[1] == 's' || s[1] == 'i',
    ensures
        encode_utf8(s)[1] != 58,
{
    let rest = s.drop_first();
    assert(rest[0] == s[1]);
    assert(encode_utf8(s) =~= encode_scalar(s[0] as u32) + encode_utf8(rest));
    assert(encode_utf8(rest) =~= encode_scalar(rest[0] as u32) + encode_utf8(rest.drop_first()));
    let c = s[1] as u32;
    assert(c == 116 || c == 115 || c == 105);
    assert((c & 0x7F) as u8 != 58) by (bit_vector)
        requires
            c == 116 || c == 115 || c == 105,
    ;
}

/// Detect the semantic content type of a clipboard string.
///
/// Heuristics: URL (a recognised scheme, or a bare domain that is not a
/// path), file path, code, plain text.
pub fn detect_content_type(content: &str) -> (res: ContentType)
    ensures
        res == content_type_of(content@),
        looks_like_path(trimmed(content@)) ==> res == ContentType::FilePath,
        has_url_scheme(trimmed(content@)) ==> res == ContentType::Url,
{
    let trimmed_text = trim(content);
    proof {
        if has_url_scheme(trimmed_text@) {
            lemma_scheme_is_not_path(trimmed_text@);
        }
    }
    if is_file_path(trimmed_text) {
        return ContentType::FilePath;
    }
    if is_url(trimmed_text) {
        return ContentType::Url;
    }
    if is_code(trimmed_text) {
        return ContentType::Code;
    }
    ContentType::PlainText
}

/// Whether `s` is one of the known top-level domains.
fn is_known_tld_exec(s: &Vec<char>) -> (res: bool)
    ensures
        res == is_known_tld(s@),
{
    chars_eq(s, &chars_of("com")) || chars_eq(s, &chars_of("org")) || chars_eq(
        s,
        &chars_of("net"),
    ) || chars_eq(s, &chars_of("io")) || chars_eq(s, &chars_of("dev")) || chars_eq(
        s,
        &chars_of("app"),
    ) || chars_eq(s, &chars_of("ai")) || chars_eq(s, &chars_of("co"))
}

/// Whether `s` looks like a URL (see `looks_like_url`).
pub fn is_url(s: &str) -> (res: bool)
    ensures
        res == looks_like_url(s@),
{
    let cs = chars_of(s);
    if starts_with(&cs, &chars_of("http://")) || starts_with(&cs, &chars_of("https://"))
        || starts_with(&cs, &chars_of("ftp://")) || starts_with(&cs, &chars_of("ftps://"))
        || starts_with(&cs, &chars_of("ssh://")) || starts_with(&cs, &chars_of("git://")) {
        return true;
    }
    if !contains_char(&cs, '.') || contains_char(&cs, ' ') {
        return false;
    }
    let parts = split_chars(&cs, '.');
    proof {
        lemma_split_has_two(cs@, '.');
        assert(parts@[0]@ == split_on(cs@, '.')[0]);
        assert(parts@[parts.len() - 1]@ == split_on(cs@, '.').last());
    }
    let head = &parts[0];
    if head.len() == 0 {
        return false;
    }
    let head_text = string_from_chars(head);
    if head_text.as_str().as_bytes().len() > 63 {
        return false;
    }
    contains_char(&cs, '/') || is_known_tld_exec(&parts[parts.len() - 1])
}

/// Whether `s` looks like a file path (see `looks_like_path`).
pub fn is_file_path(s: &str) -> (res: bool)
    ensures
        res == looks_like_path(s@),
{
    let cs = chars_of(s);
    if cs.len() > 0 && cs[0] == '/' {
        return true;
    }
    if starts_with(&cs, &chars_of("~/")) {
        return true;
    }
    let bytes = s.as_bytes();
    if bytes.len() >= 3 {
        if bytes[1] == 58u8 && (bytes[2] == 92u8 || bytes[2] == 47u8) {
            return true;
        }
    }
    starts_with(&cs, &chars_of("\\\\"))
}

/// Whether `s` looks like source code (see `looks_like_code`).
#[verifier::rlimit(40)]
pub fn is_code(s: &str) -> (res: bool)
    ensures
        res == looks_like_code(s@),
{
    let cs = chars_of(s);
    if starts_with(&cs, &chars_of("#!")) {
        return true;
    }
    let pats: Vec<&str> = vec![
        "fn ", "func ", "function ", "def ", "class ", "struct ",
        "impl ", "interface ", "async ", "await ", "import ", "use ",
        "const ", "let ", "var ", "pub ", "private ", "public ",
        "return ", "if (", "if(", "for (", "for(", "while (",
        "=>", "->", "::", "&&", "||",
    ];
    assert(pats@.map_values(|p: &str| p@) =~= code_patterns());
    let mut matches: usize = 0;
    let mut i: usize = 0;
    while i < pats.len()
        invariant
            i <= pats.len(),
            pats@.map_values(|p: &str| p@) == code_patterns(),
            matches as nat == count_present(cs@, code_patterns().take(i as int)),
            matches <= i,
        decreases pats.len() - i,
    {
        assert(code_patterns().take(i + 1).drop_last() =~= code_patterns().take(i as int));
        assert(pats@[i as int]@ == code_patterns()[i as int]);
        let p = chars_of(pats[i]);
        if contains_seq(&cs, &p) {
            matches = matches + 1;
        }
        i = i + 1;
    }
    assert(code_patterns().take(pats.len() as int) =~= code_patterns());
    if matches >= 2 {
        return true;
    }
    let ls = lines(&cs);
    if ls.len() >= 3 {
        let mut indented: usize = 0;
        let mut k: usize = 0;
        while k < ls.len()
            invariant
                k <= ls.len(),
                deep_chars(ls@) == lines_of(cs@),
                indented as nat == count_indented(lines_of(cs@).take(k as int)),
                indented <= k,
            decreases ls.len() - k,
        {
            assert(lines_of(cs@).take(k + 1).drop_last() =~= lines_of(cs@).take(k as int));
            assert(ls@[k as int]@ == lines_of(cs@)[k as int]);
            let line = &ls[k];
            if starts_with(line, &chars_of("    ")) || (line.len() > 0 && line[0] == '\t') {
                indented = indented + 1;
            }
            k = k + 1;
        }
        assert(lines_of(cs@).take(ls.len() as int) =~= lines_of(cs@));
        if indented >= 2 {
            return true;
        }
    }
    contains_char(&cs, '{') && contains_char(&cs, '}') && contains_char(&cs, '(')
        && contains_char(&cs, ')') && contains_char(&cs, '\n')
}

// ---------------------------------------------------------------------------
// Change detection
// ---------------------------------------------------------------------------

/// The view of an optional text.
pub open spec fn opt_text(o: Option<String>) -> Option<Seq<char>> {
    match o {
        Some(s) => Some(s@),
        None => None,
    }
}

/// One poll of the clipboard, given the hash remembered from the previous
/// reported change (`last`) and what the clipboard holds (`read`, `None`
/// when it holds no text): the hash remembered afterwards, and the text
/// reported as a change, if any. Empty text and text whose hash equals the
/// remembered one are not reported.
pub open spec fn poll_step(last: Option<Seq<char>>, read: Option<Seq<char>>) -> (
    Option<Seq<char>>,
    Option<Seq<char>>,
) {
    match read {
        None => (last, None),
        Some(c) => if c.len() == 0 {
            (last, None)
        } else if last == Some(content_hash(c)) {
            (last, None)
        } else {
            (Some(content_hash(c)), Some(c))
        },
    }
}

/// Holds clipboard polling state between ticks: the hash of the last text
/// reported as a change.
pub struct ClipboardPoller {
    last_hash: Option<String>,
}

impl View for ClipboardPoller {
    type V = Option<Seq<char>>;

    closed spec fn view(&self) -> Option<Seq<char>> {
        opt_text(self.last_hash)
    }
}

impl ClipboardPoller {
    /// A poller that has reported nothing yet.
    pub fn new() -> (res: Self)
        ensures
            res@ is None,
    {
        ClipboardPoller { last_hash: None }
    }

    /// Takes what the clipboard holds now (`None` when it holds no text)
    /// and returns it if it changed since the last reported change; `None`
    /// if it is empty, unchanged or unavailable.
    pub fn poll(&mut self, read: Option<String>) -> (res: Option<String>)
        ensures
            (final(self)@, opt_text(res)) == poll_step(old(self)@, opt_text(read)),
    {
        let content = match read {
            Some(text) => text,
            None => return None,
        };
        if content.as_str().as_bytes().len() == 0 {
            return None;
        }
        let hash = sha256_hex(content.as_str());
        match &self.last_hash {
            Some(last) => {
                if *last == hash {
                    return None;
                }
            },
            None => {},
        }
        self.last_hash = Some(hash);
        Some(content)
    }
}

impl Default for ClipboardPoller {
    fn default() -> (res: Self)
        ensures
            res@ is None,
    {
        Self::new()
    }
}

/// Polling twice with the same text reports it at most once: whatever the
/// first poll did, the second reports nothing and remembers the same hash.
pub proof fn lemma_poll_reports_once(last: Option<Seq<char>>, c: Seq<char>)
    ensures
        ({
            let (after, _) = poll_step(last, Some(c));
            poll_step(after, Some(c)) == (after, None::<Seq<char>>)
        }),
{
}

/// A non-empty text whose hash differs from the remembered one is reported,
/// and its hash is remembered.
pub proof fn lemma_poll_reports_change(last: Option<Seq<char>>, c: Seq<char>)
    requires
        c.len() > 0,
        last != Some(content_hash(c)),
    ensures
        poll_step(last, Some(c)) == (Some(content_hash(c)), Some(c)),
{
}

// ---------------------------------------------------------------------------
// Source application from probe output
// ---------------------------------------------------------------------------

/// A line of `lsappinfo front` output that names the application: it
/// mentions `CFBundleName` and its fourth `"`-separated field is non-empty.
pub open spec fn names_bundle(line: Seq<char>) -> bool {
    &&& has_substring(line, "CFBundleName"@)
    &&& split_on(line, '"').len() > 3
    &&& split_on(line, '"')[3].len() > 0
}

/// The application name in the first naming line of `ls`, if any.
pub open spec fn first_bundle_name(ls: Seq<Seq<char>>) -> Option<Seq<char>>
    decreases ls.len(),
{
    if ls.len() == 0 {
        None
    } else if names_bundle(ls[0]) {
        Some(split_on(ls[0], '"')[3])
    } else {
        first_bundle_name(ls.drop_first())
    }
}

/// The application name reported by `lsappinfo front`, whose output holds a
/// line like `"CFBundleName" = "Safari"`.
pub fn app_name_from_lsappinfo(output: &str) -> (res: Option<String>)
    ensures
        opt_text(res) == first_bundle_name(lines_of(output@)),
{
    let cs = chars_of(output);
    let ls = lines(&cs);
    let key = chars_of("CFBundleName");
    let mut i: usize = 0;
    assert(lines_of(output@).skip(0) =~= lines_of(output@));
    while i < ls.len()
        invariant
            i <= ls.len(),
            deep_chars(ls@) == lines_of(output@),
            key@ == "CFBundleName"@,
            first_bundle_name(lines_of(output@)) == first_bundle_name(
                lines_of(output@).skip(i as int),
            ),
        decreases ls.len() - i,
    {
        let ghost rest = lines_of(output@).skip(i as int);
        assert(rest[0] == ls@[i as int]@);
        assert(rest.drop_first() =~= lines_of(output@).skip(i + 1));
        let line = &ls[i];
        if contains_seq(line, &key) {
            let fields = split_chars(line, '"');
            if fields.len() > 3 && fields[3].len() > 0 {
                assert(fields@[3]@ == split_on(line@, '"')[3]);
                return Some(string_from_chars(&fields[3]));
            }
        }
        i = i + 1;
    }
    assert(lines_of(output@).skip(i as int) =~= Seq::<Seq<char>>::empty());
    None
}

/// What a probe that prints just the application name reports: its
/// trimmed output, unless that is empty.
pub open spec fn plain_app_name(output: Seq<char>) -> Option<Seq<char>> {
    if trimmed(output).len() > 0 {
        Some(trimmed(output))
    } else {
        None
    }
}

/// The application name printed by a probe (`osascript`, `xdotool`,
/// `qdbus`, PowerShell): the trimmed output, if non-empty.
pub fn app_name_from_output(output: &str) -> (res: Option<String>)
    ensures
        opt_text(res) == plain_app_name(output@),
{
    let t = trim(output);
    if t.is_empty() {
        None
    } else {
        Some(String::from_str(t))
    }
}

} // verus!
