//! Character-level text helpers shared by the classifiers, the store and the
//! source-application probes: trimming Unicode white space (with its laws),
//! substring search, splitting on a separator, line splitting with the same
//! line-ending rules as `str::lines`, quoting, and lowercasing, which std's
//! Unicode tables decide and which is therefore named rather than restated.
use vstd::prelude::*;
use vstd::string::StrSliceExecFns;

verus! {

broadcast use vstd::string::group_string_axioms;

// ---------------------------------------------------------------------------
// Trimming and lowercasing
// ---------------------------------------------------------------------------

/// The character has the Unicode `White_Space` property (PropList):
/// U+0009 to U+000D, space, U+0085, U+00A0, U+1680, U+2000 to U+200A,
/// U+2028, U+2029, U+202F, U+205F and U+3000.
pub open spec fn is_white_space(c: char) -> bool {
    let u = c as u32;
    ||| 0x9 <= u <= 0xD
    ||| u == 0x20
    ||| u == 0x85
    ||| u == 0xA0
    ||| u == 0x1680
    ||| 0x2000 <= u <= 0x200A
    ||| u == 0x2028
    ||| u == 0x2029
    ||| u == 0x202F
    ||| u == 0x205F
    ||| u == 0x3000
}

/// Every character of `s` is white space.
pub open spec fn all_white_space(s: Seq<char>) -> bool {
    forall|i: int| 0 <= i < s.len() ==> is_white_space(#[trigger] s[i])
}

/// `s` without its leading white space.
pub open spec fn trim_start(s: Seq<char>) -> Seq<char>
    decreases s.len(),
{
    if s.len() > 0 && is_white_space(s[0]) {
        trim_start(s.drop_first())
    } else {
        s
    }
}

/// `s` without its trailing white space.
pub open spec fn trim_end(s: Seq<char>) -> Seq<char>
    decreases s.len(),
{
    if s.len() > 0 && is_white_space(s.last()) {
        trim_end(s.drop_last())
    } else {
        s
    }
}

/// The text that `str::trim` leaves of `s`: `s` without leading and trailing
/// Unicode `White_Space` characters.
pub open spec fn trimmed(s: Seq<char>) -> Seq<char> {
    trim_end(trim_start(s))
}

/// The text that `str::to_lowercase` makes of `s` (full Unicode lowercase
/// mapping, independent of locale).
pub uninterp spec fn lowercased(s: Seq<char>) -> Seq<char>;

/// Whether `c` is Unicode white space.
pub fn is_white_space_char(c: char) -> (res: bool)
    ensures
        res == is_white_space(c),
{
    let u = c as u32;
    (0x9 <= u && u <= 0xD) || u == 0x20 || u == 0x85 || u == 0xA0 || u == 0x1680 || (0x2000 <= u
        && u <= 0x200A) || u == 0x2028 || u == 0x2029 || u == 0x202F || u == 0x205F || u == 0x3000
}

/// Stripping the start stops at the first character that is not white
/// space.
proof fn lemma_trim_start_at(s: Seq<char>, k: int)
    requires
        0 <= k <= s.len(),
        forall|i: int| 0 <= i < k ==> is_white_space(#[trigger] s[i]),
        k == s.len() || !is_white_space(s[k]),
    ensures
        trim_start(s) == s.skip(k),
    decreases k,
{
    if k == 0 {
        assert(s.skip(0) =~= s);
    } else {
        let r = s.drop_first();
        assert forall|i: int| 0 <= i < k - 1 implies is_white_space(#[trigger] r[i]) by {
            assert(r[i] == s[i + 1]);
        }
        if k - 1 < r.len() {
            assert(r[k - 1] == s[k]);
        }
        lemma_trim_start_at(r, k - 1);
        assert(r.skip(k - 1) =~= s.skip(k));
    }
}

/// Stripping the end stops after the last character that is not white
/// space.
proof fn lemma_trim_end_at(s: Seq<char>, e: int)
    requires
        0 <= e <= s.len(),
        forall|i: int| e <= i < s.len() ==> is_white_space(#[trigger] s[i]),
        e == 0 || !is_white_space(s[e - 1]),
    ensures
        trim_end(s) == s.take(e),
    decreases s.len() - e,
{
    if e == s.len() {
        assert(s.take(e) =~= s);
    } else {
        let r = s.drop_last();
        assert forall|i: int| e <= i < r.len() implies is_white_space(#[trigger] r[i]) by {
            assert(r[i] == s[i]);
        }
        if e > 0 {
            assert(r[e - 1] == s[e - 1]);
        }
        lemma_trim_end_at(r, e);
        assert(r.take(e) =~= s.take(e));
    }
}

/// `s` without leading and trailing Unicode white space (as `str::trim`
/// leaves it).
pub fn trim(s: &str) -> (res: &str)
    ensures
        res@ == trimmed(s@),
{
    let cs = chars_of(s);
    let n = cs.len();
    let mut start: usize = 0;
    while start < n && is_white_space_char(cs[start as usize])
        invariant
            start <= n,
            n == cs@.len(),
            forall|i: int| 0 <= i < start ==> is_white_space(#[trigger] cs@[i]),
        decreases n - start,
    {
        start = start + 1;
    }
    proof {
        lemma_trim_start_at(cs@, start as int);
    }
    let ghost rest = cs@.skip(start as int);
    let mut end: usize = n;
    while end > start && is_white_space_char(cs[end - 1])
        invariant
            start <= end <= n,
            n == cs@.len(),
            forall|i: int| end <= i < n ==> is_white_space(#[trigger] cs@[i]),
        decreases end - start,
    {
        end = end - 1;
    }
    proof {
        let e = end - start;
        assert forall|i: int| e <= i < rest.len() implies is_white_space(#[trigger] rest[i]) by {
            assert(rest[i] == cs@[i + start]);
        }
        if e > 0 {
            assert(rest[e - 1] == cs@[end - 1]);
        }
        lemma_trim_end_at(rest, e as int);
        assert(rest.take(e as int) =~= cs@.subrange(start as int, end as int));
    }
    s.substring_char(start, end)
}

/// Calls `str::to_lowercase`. The contract claims only that the result is the
/// named lowercase form of the argument.
#[verifier::external_body]
pub(crate) fn to_lowercase(s: &str) -> (res: String)
    ensures
        res@ == lowercased(s@),
{
    s.to_lowercase()
}

/// Collects characters into a `String` (std's `FromIterator<char>`); the
/// result holds exactly those characters, in order.
#[verifier::external_body]
pub(crate) fn string_from_chars(chars: &Vec<char>) -> (res: String)
    ensures
        res@ == chars@,
{
    chars.iter().collect()
}

/// Leading white space is stripped whatever follows it.
proof fn lemma_trim_start_skips(a: Seq<char>, s: Seq<char>)
    requires
        all_white_space(a),
    ensures
        trim_start(a + s) == trim_start(s),
    decreases a.len(),
{
    if a.len() > 0 {
        assert((a + s).drop_first() =~= a.drop_first() + s);
        assert((a + s)[0] == a[0]);
        lemma_trim_start_skips(a.drop_first(), s);
    } else {
        assert(a + s =~= s);
    }
}

/// Text made only of white space trims to nothing at its start.
proof fn lemma_trim_start_all(b: Seq<char>)
    requires
        all_white_space(b),
    ensures
        trim_start(b) == Seq::<char>::empty(),
{
    lemma_trim_start_skips(b, Seq::<char>::empty());
    assert(b + Seq::<char>::empty() =~= b);
}

/// Trimming the start of `c + b` trims the start of `c`, unless `c` is all
/// white space, when it goes on into `b`.
proof fn lemma_trim_start_concat(c: Seq<char>, b: Seq<char>)
    ensures
        trim_start(c + b) == if trim_start(c).len() > 0 {
            trim_start(c) + b
        } else {
            trim_start(b)
        },
    decreases c.len(),
{
    if c.len() == 0 {
        assert(c + b =~= b);
    } else {
        assert((c + b)[0] == c[0]);
        if is_white_space(c[0]) {
            assert((c + b).drop_first() =~= c.drop_first() + b);
            lemma_trim_start_concat(c.drop_first(), b);
        }
    }
}

/// Trailing white space is stripped whatever precedes it.
proof fn lemma_trim_end_skips(s: Seq<char>, b: Seq<char>)
    requires
        all_white_space(b),
    ensures
        trim_end(s + b) == trim_end(s),
    decreases b.len(),
{
    if b.len() > 0 {
        assert((s + b).drop_last() =~= s + b.drop_last());
        assert((s + b).last() == b.last());
        lemma_trim_end_skips(s, b.drop_last());
    } else {
        assert(s + b =~= s);
    }
}

/// White space around a text does not change what trimming leaves of it.
pub proof fn lemma_trim_surrounded(before: Seq<char>, s: Seq<char>, after: Seq<char>)
    requires
        all_white_space(before),
        all_white_space(after),
    ensures
        trimmed(before + s + after) == trimmed(s),
{
    assert(before + s + after =~= before + (s + after));
    lemma_trim_start_skips(before, s + after);
    lemma_trim_start_concat(s, after);
    if trim_start(s).len() > 0 {
        lemma_trim_end_skips(trim_start(s), after);
    } else {
        lemma_trim_start_all(after);
        assert(trim_start(s) =~= Seq::<char>::empty());
    }
}

/// A trimmed text neither starts nor ends with white space.
proof fn lemma_trimmed_edges(s: Seq<char>)
    ensures
        trim_start(s).len() > 0 ==> !is_white_space(trim_start(s)[0]),
        trimmed(s).len() > 0 ==> !is_white_space(trimmed(s).last()),
        trimmed(s).len() > 0 ==> trimmed(s)[0] == trim_start(s)[0],
    decreases s.len(),
{
    if s.len() > 0 && is_white_space(s[0]) {
        lemma_trimmed_edges(s.drop_first());
    }
    lemma_trim_end_prefix(trim_start(s));
}

/// Trimming the end keeps a prefix of the text, and ends on a character
/// that is not white space.
proof fn lemma_trim_end_prefix(s: Seq<char>)
    ensures
        trim_end(s).is_prefix_of(s),
        trim_end(s).len() > 0 ==> !is_white_space(trim_end(s).last()),
    decreases s.len(),
{
    if s.len() > 0 && is_white_space(s.last()) {
        lemma_trim_end_prefix(s.drop_last());
    }
}

/// Trimming twice changes nothing more.
pub proof fn lemma_trim_idempotent(s: Seq<char>)
    ensures
        trimmed(trimmed(s)) == trimmed(s),
{
    let t = trimmed(s);
    lemma_trimmed_edges(s);
    if t.len() > 0 {
        assert(t[0] == trim_start(s)[0]);
        assert(trim_start(t) == t);
        assert(trim_end(t) == t);
    } else {
        assert(trim_start(t) =~= t);
    }
}

// ---------------------------------------------------------------------------
// Specifications
// ---------------------------------------------------------------------------

/// `needle` occurs in `hay` starting at position `i`.
pub open spec fn occurs_at(hay: Seq<char>, needle: Seq<char>, i: int) -> bool {
    0 <= i && i + needle.len() <= hay.len() && hay.subrange(i, i + needle.len()) == needle
}

/// `needle` occurs somewhere in `hay` as a contiguous run (`str::contains`
/// with a string pattern).
pub open spec fn has_substring(hay: Seq<char>, needle: Seq<char>) -> bool {
    exists|i: int| #[trigger] occurs_at(hay, needle, i)
}

/// The pieces of `s` between occurrences of `sep` (`str::split` with a char
/// pattern): always at least one piece; `k` separators give `k + 1` pieces.
pub open spec fn split_on(s: Seq<char>, sep: char) -> Seq<Seq<char>>
    decreases s.len(),
{
    if s.len() == 0 {
        seq![Seq::<char>::empty()]
    } else {
        let p = split_on(s.drop_last(), sep);
        if s.last() == sep {
            p.push(Seq::<char>::empty())
        } else {
            p.update(p.len() - 1, p.last().push(s.last()))
        }
    }
}

/// A line terminated by `\n` loses one trailing `\r` (a `\r\n` ending).
pub open spec fn strip_cr(line: Seq<char>) -> Seq<char> {
    if line.len() > 0 && line.last() == '\r' {
        line.drop_last()
    } else {
        line
    }
}

/// The lines of `s` as `str::lines` yields them: split at `\n`, a `\r`
/// directly before a `\n` is removed, and an empty text after the final `\n`
/// is not a line.
pub open spec fn lines_of(s: Seq<char>) -> Seq<Seq<char>> {
    let p = split_on(s, '\n');
    let terminated = p.drop_last().map_values(|l: Seq<char>| strip_cr(l));
    if p.last().len() == 0 {
        terminated
    } else {
        terminated.push(p.last())
    }
}

/// The view of a vector of character vectors.
pub open spec fn deep_chars(v: Seq<Vec<char>>) -> Seq<Seq<char>> {
    v.map_values(|x: Vec<char>| x@)
}

// ---------------------------------------------------------------------------
// Lemmas
// ---------------------------------------------------------------------------

/// Splitting always yields at least one piece.
pub proof fn lemma_split_nonempty(s: Seq<char>, sep: char)
    ensures
        split_on(s, sep).len() >= 1,
    decreases s.len(),
{
    if s.len() > 0 {
        lemma_split_nonempty(s.drop_last(), sep);
    }
}

/// A text holding the separator splits into at least two pieces.
pub proof fn lemma_split_has_two(s: Seq<char>, sep: char)
    requires
        s.contains(sep),
    ensures
        split_on(s, sep).len() >= 2,
    decreases s.len(),
{
    lemma_split_nonempty(s.drop_last(), sep);
    if s.last() != sep {
        let i = choose|i: int| 0 <= i < s.len() && s[i] == sep;
        assert(s.drop_last()[i] == sep);
        lemma_split_has_two(s.drop_last(), sep);
    }
}

// ---------------------------------------------------------------------------
// Executable helpers
// ---------------------------------------------------------------------------

/// The characters of `s`, in order.
pub fn chars_of(s: &str) -> (res: Vec<char>)
    ensures
        res@ == s@,
{
    let mut v: Vec<char> = Vec::new();
    for c in it: s.chars()
        invariant
            v@ == it.seq().take(it.index() as int),
    {
        v.push(c);
    }
    v
}

/// Whether `c` occurs in `s`.
pub fn contains_char(s: &Vec<char>, c: char) -> (res: bool)
    ensures
        res == s@.contains(c),
{
    let mut i: usize = 0;
    while i < s.len()
        invariant
            i <= s.len(),
            forall|k: int| 0 <= k < i ==> s@[k] != c,
        decreases s.len() - i,
    {
        if s[i] == c {
            return true;
        }
        i = i + 1;
    }
    false
}

/// Whether `a` and `b` hold the same characters.
pub fn chars_eq(a: &Vec<char>, b: &Vec<char>) -> (res: bool)
    ensures
        res == (a@ == b@),
{
    if a.len() != b.len() {
        return false;
    }
    let mut i: usize = 0;
    while i < a.len()
        invariant
            i <= a.len(),
            a.len() == b.len(),
            forall|k: int| 0 <= k < i ==> a@[k] == b@[k],
        decreases a.len() - i,
    {
        if a[i] != b[i] {
            return false;
        }
        i = i + 1;
    }
    assert(a@ =~= b@);
    true
}

/// Whether the two string slices hold the same text.
pub fn str_eq(a: &str, b: &str) -> (res: bool)
    ensures
        res == (a@ == b@),
{
    let ca = chars_of(a);
    let cb = chars_of(b);
    chars_eq(&ca, &cb)
}

/// Whether `needle` occurs in `hay` at position `i`.
pub fn occurs_at_exec(hay: &Vec<char>, needle: &Vec<char>, i: usize) -> (res: bool)
    requires
        i + needle.len() <= hay.len(),
    ensures
        res == occurs_at(hay@, needle@, i as int),
{
    let n = needle.len();
    let mut k: usize = 0;
    while k < n
        invariant
            k <= n,
            n == needle.len(),
            i + n <= hay.len(),
            forall|j: int| 0 <= j < k ==> hay@[i + j] == needle@[j],
        decreases n - k,
    {
        if hay[i + k] != needle[k] {
            assert(hay@.subrange(i as int, i + n)[k as int] != needle@[k as int]);
            return false;
        }
        k = k + 1;
    }
    assert(hay@.subrange(i as int, i + n) =~= needle@);
    true
}

/// Whether `prefix` is a prefix of `s`.
pub fn starts_with(s: &Vec<char>, prefix: &Vec<char>) -> (res: bool)
    ensures
        res == prefix@.is_prefix_of(s@),
{
    if prefix.len() > s.len() {
        return false;
    }
    let r = occurs_at_exec(s, prefix, 0);
    proof {
        if r {
            assert(prefix@ =~= s@.subrange(0, prefix@.len() as int));
        } else {
            assert(s@.subrange(0, prefix@.len() as int) != prefix@);
        }
    }
    r
}

/// Whether `needle` occurs anywhere in `hay`.
pub fn contains_seq(hay: &Vec<char>, needle: &Vec<char>) -> (res: bool)
    ensures
        res == has_substring(hay@, needle@),
{
    if needle.len() > hay.len() {
        assert forall|i: int| !occurs_at(hay@, needle@, i) by {}
        return false;
    }
    if needle.len() == 0 {
        assert(hay@.subrange(0, 0) =~= needle@);
        assert(occurs_at(hay@, needle@, 0));
        return true;
    }
    let last = hay.len() - needle.len();
    let mut i: usize = 0;
    while i < last + 1
        invariant
            last == hay.len() - needle.len(),
            0 < needle.len() <= hay.len(),
            i <= last + 1,
            forall|j: int| 0 <= j < i ==> !occurs_at(hay@, needle@, j),
        decreases last + 1 - i,
    {
        if occurs_at_exec(hay, needle, i) {
            return true;
        }
        i = i + 1;
    }
    assert forall|j: int| !occurs_at(hay@, needle@, j) by {
        if 0 <= j <= last {
            assert(j < i);
        }
    }
    false
}

/// Splits `s` at every `sep`.
pub fn split_chars(s: &Vec<char>, sep: char) -> (res: Vec<Vec<char>>)
    ensures
        deep_chars(res@) == split_on(s@, sep),
{
    let mut out: Vec<Vec<char>> = Vec::new();
    let mut cur: Vec<char> = Vec::new();
    let mut i: usize = 0;
    proof {
        assert(s@.take(0) =~= Seq::<char>::empty());
        assert(deep_chars(out@).push(cur@) =~= split_on(s@.take(0), sep));
    }
    while i < s.len()
        invariant
            i <= s.len(),
            deep_chars(out@).push(cur@) == split_on(s@.take(i as int), sep),
        decreases s.len() - i,
    {
        let ghost before = s@.take(i as int);
        let ghost after = s@.take(i + 1);
        proof {
            assert(after.drop_last() =~= before);
            assert(after.last() == s@[i as int]);
            lemma_split_nonempty(before, sep);
        }
        let c = s[i];
        if c == sep {
            let done = cur;
            out.push(done);
            cur = Vec::new();
            proof {
                assert(deep_chars(out@) =~= deep_chars(out@).drop_last().push(done@));
                assert(deep_chars(out@).push(cur@) =~= split_on(after, sep));
            }
        } else {
            let ghost old_cur = cur@;
            cur.push(c);
            proof {
                assert(deep_chars(out@).push(cur@) =~= split_on(after, sep));
            }
        }
        i = i + 1;
    }
    proof {
        assert(s@.take(s.len() as int) =~= s@);
    }
    out.push(cur);
    proof {
        assert(deep_chars(out@) =~= split_on(s@, sep));
    }
    out
}

/// The lines of `s`, by the rules of `str::lines`.
pub fn lines(s: &Vec<char>) -> (res: Vec<Vec<char>>)
    ensures
        deep_chars(res@) == lines_of(s@),
{
    let mut pieces = split_chars(s, '\n');
    proof {
        lemma_split_nonempty(s@, '\n');
    }
    let ghost p = split_on(s@, '\n');
    let tail = pieces.pop().unwrap();
    let ghost body = p.drop_last();
    assert(deep_chars(pieces@) =~= body);
    let mut out: Vec<Vec<char>> = Vec::new();
    let n = pieces.len();
    let mut i: usize = 0;
    while i < n
        invariant
            i <= n,
            n == pieces.len(),
            n == body.len(),
            deep_chars(pieces@) == body,
            out.len() == i,
            forall|k: int| 0 <= k < i ==> #[trigger] out@[k]@ == strip_cr(body[k]),
        decreases n - i,
    {
        let mut line = pieces[i].clone();
        assert(pieces@[i as int]@ == body[i as int]);
        let len = line.len();
        if len > 0 && line[len - 1] == '\r' {
            line.pop();
            assert(line@ =~= strip_cr(body[i as int]));
        }
        out.push(line);
        i = i + 1;
    }
    assert(deep_chars(out@) =~= body.map_values(|l: Seq<char>| strip_cr(l)));
    assert(tail@ == p.last());
    if tail.len() > 0 {
        out.push(tail);
        assert(deep_chars(out@) =~= lines_of(s@));
    }
    out
}

// ---------------------------------------------------------------------------
// Quoting
// ---------------------------------------------------------------------------

/// Each `"` of `t` doubled.
pub open spec fn escape_quotes(t: Seq<char>) -> Seq<char>
    decreases t.len(),
{
    if t.len() == 0 {
        Seq::<char>::empty()
    } else {
        (if t[0] == '"' {
            seq!['"', '"']
        } else {
            seq![t[0]]
        }) + escape_quotes(t.drop_first())
    }
}

/// Reads escaped text back: each `""` stands for one `"`.
pub open spec fn unescape_quotes(s: Seq<char>) -> Seq<char>
    decreases s.len(),
{
    if s.len() == 0 {
        Seq::<char>::empty()
    } else if s.len() >= 2 && s[0] == '"' && s[1] == '"' {
        seq!['"'] + unescape_quotes(s.skip(2))
    } else {
        seq![s[0]] + unescape_quotes(s.drop_first())
    }
}

/// `t` inside double quotes, its own quotes doubled (the quoting of SQL
/// strings, FTS5 phrases and CSV fields).
pub open spec fn quoted(t: Seq<char>) -> Seq<char> {
    seq!['"'] + escape_quotes(t) + seq!['"']
}

/// `text` quoted: inside double quotes, its own quotes doubled.
pub fn quote(text: &str) -> (res: String)
    ensures
        res@ == quoted(text@),
{
    let t = chars_of(text);
    let mut out: Vec<char> = Vec::new();
    out.push('"');
    let mut i: usize = 0;
    assert(t@.skip(0) =~= t@);
    while i < t.len()
        invariant
            i <= t.len(),
            seq!['"'] + escape_quotes(t@) == out@ + escape_quotes(t@.skip(i as int)),
        decreases t.len() - i,
    {
        let ghost rest = t@.skip(i as int);
        assert(rest.drop_first() =~= t@.skip(i + 1));
        assert(rest[0] == t@[i as int]);
        let ghost before = out@;
        if t[i] == '"' {
            out.push('"');
            out.push('"');
            assert(out@ =~= before + seq!['"', '"']);
        } else {
            out.push(t[i]);
            assert(out@ =~= before + seq![t@[i as int]]);
        }
        i = i + 1;
    }
    assert(t@.skip(t.len() as int) =~= Seq::<char>::empty());
    let ghost body = out@;
    out.push('"');
    assert(out@ =~= body + seq!['"']);
    assert(body =~= seq!['"'] + escape_quotes(t@));
    string_from_chars(&out)
}

/// Doubling the quotes of a text loses nothing: reading the escaped text
/// back gives the text.
pub proof fn lemma_escape_roundtrip(t: Seq<char>)
    ensures
        unescape_quotes(escape_quotes(t)) == t,
    decreases t.len(),
{
    if t.len() > 0 {
        lemma_escape_roundtrip(t.drop_first());
        let rest = escape_quotes(t.drop_first());
        let e = escape_quotes(t);
        if t[0] == '"' {
            assert(e.skip(2) =~= rest);
        } else {
            assert(e.drop_first() =~= rest);
        }
        assert(t =~= seq![t[0]] + t.drop_first());
    }
}

/// The characters of a double-quoted CSV field between its quotes, as a
/// CSV reader accepts them: every quote is doubled.
pub open spec fn csv_escaped(f: Seq<char>) -> bool
    decreases f.len(),
{
    if f.len() == 0 {
        true
    } else if f[0] == '"' {
        f.len() >= 2 && f[1] == '"' && csv_escaped(f.skip(2))
    } else {
        csv_escaped(f.drop_first())
    }
}

/// `row` ends with a comma and a double-quoted CSV field that a CSV reader
/// reads as `value`.
pub open spec fn ends_with_csv_field(row: Seq<char>, value: Seq<char>) -> bool {
    exists|f: Seq<char>|
        #[trigger] csv_escaped(f) && unescape_quotes(f) == value && f.len() + 3 <= row.len()
            && row.skip(row.len() - f.len() - 3) == seq![',', '"'] + f + seq!['"']
}

/// Doubling the quotes of a text leaves every quote doubled.
pub proof fn lemma_escape_is_csv_field(t: Seq<char>)
    ensures
        csv_escaped(escape_quotes(t)),
    decreases t.len(),
{
    if t.len() > 0 {
        lemma_escape_is_csv_field(t.drop_first());
        let rest = escape_quotes(t.drop_first());
        let e = escape_quotes(t);
        if t[0] == '"' {
            assert(e.skip(2) =~= rest);
        } else {
            assert(e.drop_first() =~= rest);
        }
    }
}

/// A row that ends with a comma and `value` quoted ends with a CSV field
/// that reads back as `value`.
pub proof fn lemma_quoted_last_field(before: Seq<char>, value: Seq<char>)
    ensures
        ends_with_csv_field(before + ","@ + quoted(value), value),
{
    reveal_strlit(",");
    let f = escape_quotes(value);
    let row = before + ","@ + quoted(value);
    lemma_escape_is_csv_field(value);
    lemma_escape_roundtrip(value);
    assert(row.skip(row.len() - f.len() - 3) =~= seq![',', '"'] + f + seq!['"']);
}

} // verus!
