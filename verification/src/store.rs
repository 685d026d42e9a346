//! The rules of the clip history store: how stored rows are ordered for
//! listing (newest first), which rows the history limit
//! evicts (oldest non-pinned ones), how tags are added, how a full-text
//! search term is quoted, and how entries map to and from stored rows.
//!
//! The database itself is reached by the application; these functions
//! take the rows it read and decide.
use vstd::prelude::*;
use vstd::utf8::encode_utf8;
use vstd::string::StringExecFns;
use crate::config::texts;
use crate::models::{
    content_type_name, content_type_of_name, format_rfc3339, parse_rfc3339, rfc3339_instant,
    rfc3339_exact, rfc3339_text, timestamp_in_range, utc_now, ClipEntry, ContentType,
    lemma_content_type_name_roundtrip,
};
use crate::text::{quote, quoted, str_eq, trim, trimmed};

verus! {

broadcast use {vstd::string::group_string_axioms, vstd::seq_lib::group_to_multiset_ensures};

/// A row of the `clips` table, column for column, as stored.
#[derive(Debug)]
pub struct ClipRow {
    pub id: i64,
    pub content: String,
    /// The content type's stored name.
    pub content_type: String,
    pub hash: String,
    pub source_app: Option<String>,
    /// RFC 3339 capture time.
    pub created_at: String,
    /// 1 when pinned, 0 otherwise.
    pub pinned: i64,
    /// JSON array of the tags.
    pub tags: String,
    pub label: Option<String>,
}

fn clone_opt_string(o: &Option<String>) -> (res: Option<String>)
    ensures
        res == *o,
{
    match o {
        Some(s) => Some(s.clone()),
        None => None,
    }
}

impl Clone for ClipRow {
    fn clone(&self) -> (res: Self)
        ensures
            res == *self,
    {
        ClipRow {
            id: self.id,
            content: self.content.clone(),
            content_type: self.content_type.clone(),
            hash: self.hash.clone(),
            source_app: clone_opt_string(&self.source_app),
            created_at: self.created_at.clone(),
            pinned: self.pinned,
            tags: self.tags.clone(),
            label: clone_opt_string(&self.label),
        }
    }
}

// ---------------------------------------------------------------------------
// Ordering
// ---------------------------------------------------------------------------

/// Byte-wise lexicographic order (SQLite's default `BINARY` collation for
/// text): `a` sorts before or equal to `b`.
pub open spec fn bytes_le(a: Seq<u8>, b: Seq<u8>) -> bool
    decreases a.len(),
{
    if a.len() == 0 {
        true
    } else if b.len() == 0 {
        false
    } else if a[0] < b[0] {
        true
    } else if a[0] > b[0] {
        false
    } else {
        bytes_le(a.drop_first(), b.drop_first())
    }
}

/// The sort key of a row's capture time: the bytes of its stored text.
pub open spec fn time_key(r: ClipRow) -> Seq<u8> {
    encode_utf8(r.created_at@)
}

/// The two orders the store sorts rows by.
#[derive(Debug, Clone, Copy, PartialEq, Eq, Structural)]
pub enum RowOrder {
    /// Newest first, and of rows captured at the same time the one with
    /// the larger id (the later stored) first (`created_at DESC, id DESC`).
    Listing,
    /// Oldest first (`created_at ASC`).
    Age,
}

/// Under `order`, row `a` may stand before row `b`.
pub open spec fn precedes(order: RowOrder, a: ClipRow, b: ClipRow) -> bool {
    match order {
        RowOrder::Listing => bytes_le(time_key(b), time_key(a)) && (time_key(a) == time_key(b)
            ==> a.id >= b.id),
        RowOrder::Age => bytes_le(time_key(a), time_key(b)),
    }
}

/// `s` is sorted under `order`.
pub open spec fn sorted_by(order: RowOrder, s: Seq<ClipRow>) -> bool {
    forall|i: int, j: int| 0 <= i < j < s.len() ==> precedes(order, #[trigger] s[i], #[trigger] s[j])
}

/// `s` holds the rows of `rows`, sorted under `order`.
pub open spec fn sorts(order: RowOrder, rows: Seq<ClipRow>, s: Seq<ClipRow>) -> bool {
    s.to_multiset() == rows.to_multiset() && sorted_by(order, s)
}

pub proof fn lemma_bytes_le_total(a: Seq<u8>, b: Seq<u8>)
    ensures
        bytes_le(a, b) || bytes_le(b, a),
    decreases a.len(),
{
    if a.len() > 0 && b.len() > 0 && a[0] == b[0] {
        lemma_bytes_le_total(a.drop_first(), b.drop_first());
    }
}

pub proof fn lemma_bytes_le_transitive(a: Seq<u8>, b: Seq<u8>, c: Seq<u8>)
    requires
        bytes_le(a, b),
        bytes_le(b, c),
    ensures
        bytes_le(a, c),
    decreases a.len(),
{
    if a.len() > 0 && b.len() > 0 && c.len() > 0 && a[0] == b[0] && b[0] == c[0] {
        lemma_bytes_le_transitive(a.drop_first(), b.drop_first(), c.drop_first());
    }
}

pub proof fn lemma_bytes_le_antisymmetric(a: Seq<u8>, b: Seq<u8>)
    requires
        bytes_le(a, b),
        bytes_le(b, a),
    ensures
        a == b,
    decreases a.len(),
{
    if a.len() > 0 && b.len() > 0 {
        lemma_bytes_le_antisymmetric(a.drop_first(), b.drop_first());
        assert(a =~= seq![a[0]] + a.drop_first());
        assert(b =~= seq![b[0]] + b.drop_first());
    } else {
        assert(a =~= b);
    }
}

pub proof fn lemma_bytes_le_reflexive(a: Seq<u8>)
    ensures
        bytes_le(a, a),
    decreases a.len(),
{
    if a.len() > 0 {
        lemma_bytes_le_reflexive(a.drop_first());
    }
}

pub proof fn lemma_precedes_total(order: RowOrder, a: ClipRow, b: ClipRow)
    ensures
        precedes(order, a, b) || precedes(order, b, a),
{
    lemma_bytes_le_total(time_key(a), time_key(b));
}

pub proof fn lemma_precedes_transitive(order: RowOrder, a: ClipRow, b: ClipRow, c: ClipRow)
    requires
        precedes(order, a, b),
        precedes(order, b, c),
    ensures
        precedes(order, a, c),
{
    match order {
        RowOrder::Listing => {
            lemma_bytes_le_transitive(time_key(c), time_key(b), time_key(a));
            if time_key(a) == time_key(c) {
                lemma_bytes_le_antisymmetric(time_key(a), time_key(b));
            }
        },
        RowOrder::Age => {
            lemma_bytes_le_transitive(time_key(a), time_key(b), time_key(c));
        },
    }
}

/// Whether `a` sorts before or equal to `b`, byte-wise.
fn bytes_le_exec(a: &[u8], b: &[u8]) -> (res: bool)
    ensures
        res == bytes_le(a@, b@),
{
    let mut i: usize = 0;
    assert(a@.skip(0) =~= a@ && b@.skip(0) =~= b@);
    while i < a.len() && i < b.len()
        invariant
            i <= a@.len(),
            i <= b@.len(),
            bytes_le(a@, b@) == bytes_le(a@.skip(i as int), b@.skip(i as int)),
        decreases a.len() - i,
    {
        let ghost sa = a@.skip(i as int);
        let ghost sb = b@.skip(i as int);
        assert(sa[0] == a@[i as int]);
        assert(sb[0] == b@[i as int]);
        if a[i] < b[i] {
            return true;
        }
        if a[i] > b[i] {
            return false;
        }
        assert(sa.drop_first() =~= a@.skip(i + 1));
        assert(sb.drop_first() =~= b@.skip(i + 1));
        i = i + 1;
    }
    i == a.len()
}

/// Whether row `a` may stand before row `b` under `order`.
pub fn precedes_exec(order: RowOrder, a: &ClipRow, b: &ClipRow) -> (res: bool)
    ensures
        res == precedes(order, *a, *b),
{
    let ka = a.created_at.as_str().as_bytes();
    let kb = b.created_at.as_str().as_bytes();
    match order {
        RowOrder::Listing => {
            let newer_or_same = bytes_le_exec(kb, ka);
            let older_or_same = bytes_le_exec(ka, kb);
            proof {
                if newer_or_same && older_or_same {
                    lemma_bytes_le_antisymmetric(encode_utf8(a.created_at@), encode_utf8(b.created_at@));
                }
                if time_key(*a) == time_key(*b) {
                    lemma_bytes_le_reflexive(time_key(*a));
                }
            }
            newer_or_same && (!older_or_same || a.id >= b.id)
        },
        RowOrder::Age => bytes_le_exec(ka, kb),
    }
}

/// Merges two sorted runs into one.
fn merge(order: RowOrder, a: &Vec<ClipRow>, b: &Vec<ClipRow>) -> (res: Vec<ClipRow>)
    requires
        sorted_by(order, a@),
        sorted_by(order, b@),
    ensures
        sorts(order, a@ + b@, res@),
{
    let mut out: Vec<ClipRow> = Vec::new();
    let mut i: usize = 0;
    let mut j: usize = 0;
    while i < a.len() || j < b.len()
        invariant
            i <= a.len(),
            j <= b.len(),
            sorted_by(order, a@),
            sorted_by(order, b@),
            sorted_by(order, out@),
            out@.to_multiset() == a@.take(i as int).to_multiset().add(
                b@.take(j as int).to_multiset(),
            ),
            out.len() > 0 && i < a.len() ==> precedes(order, out@.last(), a@[i as int]),
            out.len() > 0 && j < b.len() ==> precedes(order, out@.last(), b@[j as int]),
        decreases a.len() + b.len() - i - j,
    {
        let take_a = if i < a.len() && j < b.len() {
            precedes_exec(order, &a[i], &b[j])
        } else {
            i < a.len()
        };
        let ghost old_out = out@;
        let x = if take_a {
            a[i].clone()
        } else {
            b[j].clone()
        };
        proof {
            if !take_a && i < a.len() {
                lemma_precedes_total(order, a@[i as int], b@[j as int]);
            }
            assert forall|k: int| 0 <= k < old_out.len() implies precedes(
                order,
                #[trigger] old_out[k],
                x,
            ) by {
                if k < old_out.len() - 1 {
                    lemma_precedes_transitive(order, old_out[k], old_out.last(), x);
                }
            }
        }
        out.push(x);
        proof {
            assert forall|p: int, q: int| 0 <= p < q < out@.len() implies precedes(
                order,
                #[trigger] out@[p],
                #[trigger] out@[q],
            ) by {
                if q < old_out.len() {
                    assert(out@[p] == old_out[p] && out@[q] == old_out[q]);
                }
            }
        }
        if take_a {
            proof {
                assert(a@.take(i + 1) =~= a@.take(i as int).push(a@[i as int]));
                if i + 1 < a.len() {
                    assert(precedes(order, a@[i as int], a@[i + 1]));
                }
                if j < b.len() {
                    assert(precedes(order, a@[i as int], b@[j as int]));
                }
            }
            i = i + 1;
        } else {
            proof {
                assert(b@.take(j + 1) =~= b@.take(j as int).push(b@[j as int]));
                if j + 1 < b.len() {
                    assert(precedes(order, b@[j as int], b@[j + 1]));
                }
            }
            j = j + 1;
        }
    }
    proof {
        assert(a@.take(a.len() as int) =~= a@);
        assert(b@.take(b.len() as int) =~= b@);
        vstd::seq_lib::lemma_multiset_commutative(a@, b@);
    }
    out
}

/// Sorts rows under `order` (merge sort).
pub fn sort_rows(order: RowOrder, rows: Vec<ClipRow>) -> (res: Vec<ClipRow>)
    ensures
        sorts(order, rows@, res@),
    decreases rows.len(),
{
    if rows.len() <= 1 {
        return rows;
    }
    let mid = rows.len() / 2;
    let mut left = rows;
    let ghost all = left@;
    let right = left.split_off(mid);
    proof {
        assert(all =~= left@ + right@);
    }
    let sl = sort_rows(order, left);
    let sr = sort_rows(order, right);
    let res = merge(order, &sl, &sr);
    proof {
        vstd::seq_lib::lemma_multiset_commutative(sl@, sr@);
        vstd::seq_lib::lemma_multiset_commutative(all.subrange(0, mid as int), all.subrange(mid as int, all.len() as int));
    }
    res
}

// ---------------------------------------------------------------------------
// Listing
// ---------------------------------------------------------------------------

/// How many of `n` rows a listing limited to `limit` shows: `min(limit, n)`.
pub open spec fn listing_len(n: nat, limit: usize) -> nat {
    if limit >= n {
        n
    } else {
        limit as nat
    }
}

/// `listed` is a listing of `rows` limited to `limit`: the first rows of
/// some arrangement of all `rows` with newer rows before older ones.
pub open spec fn is_listing(rows: Seq<ClipRow>, limit: usize, listed: Seq<ClipRow>) -> bool {
    exists|s: Seq<ClipRow>|
        #[trigger] sorts(RowOrder::Listing, rows, s) && listed == s.take(
            listing_len(rows.len(), limit) as int,
        )
}

/// A listing with the largest limit shows every row (this is how the whole
/// history is exported).
pub proof fn lemma_listing_unlimited(n: nat)
    requires
        n <= usize::MAX,
    ensures
        listing_len(n, usize::MAX) == n,
{
}

/// Orders rows for listing, newest first, and keeps at most `limit` of
/// them. Pinning does not move a row: it only protects it from eviction.
pub fn order_for_listing(rows: Vec<ClipRow>, limit: usize) -> (res: Vec<ClipRow>)
    ensures
        is_listing(rows@, limit, res@),
{
    let n = rows.len();
    let ghost all = rows@;
    let mut sorted = sort_rows(RowOrder::Listing, rows);
    let keep = if limit >= n {
        n
    } else {
        limit
    };
    let ghost s0 = sorted@;
    proof {
        assert(s0.len() == all.len()) by {
            assert(s0.to_multiset().len() == all.to_multiset().len());
        }
    }
    sorted.truncate(keep);
    assert(sorted@ == s0.take(listing_len(all.len(), limit) as int));
    assert(sorts(RowOrder::Listing, all, s0));
    sorted
}

// ---------------------------------------------------------------------------
// Eviction
// ---------------------------------------------------------------------------

/// The rows that are not pinned.
pub open spec fn unpinned_rows(rows: Seq<ClipRow>) -> Seq<ClipRow> {
    rows.filter(|r: ClipRow| r.pinned == 0)
}

/// How many of `unpinned` non-pinned rows are evicted to stay within
/// `max_history`: those beyond the limit, `unpinned - max_history`, or none
/// when there are no more than `max_history`.
pub open spec fn eviction_count(unpinned: nat, max_history: usize) -> nat {
    if unpinned <= max_history {
        0
    } else {
        (unpinned - max_history) as nat
    }
}

/// `ids` are the rows evicted from `rows` under `max_history`: the ids of
/// the oldest non-pinned rows, as many as `eviction_count` says.
pub open spec fn is_eviction(rows: Seq<ClipRow>, max_history: usize, ids: Seq<i64>) -> bool {
    exists|s: Seq<ClipRow>|
        #[trigger] sorts(RowOrder::Age, unpinned_rows(rows), s) && ids == ids_of(
            s.take(eviction_count(unpinned_rows(rows).len(), max_history) as int),
        )
}

/// The ids of the rows.
pub open spec fn ids_of(s: Seq<ClipRow>) -> Seq<i64> {
    s.map_values(|r: ClipRow| r.id)
}

/// The ids of the rows to evict so that at most `max_history` non-pinned
/// rows remain: the oldest non-pinned rows beyond that limit. Pinned rows
/// are never chosen.
pub fn select_evictions(rows: &Vec<ClipRow>, max_history: usize) -> (res: Vec<i64>)
    ensures
        is_eviction(rows@, max_history, res@),
{
    let ghost pred = |r: ClipRow| r.pinned == 0;
    let mut unpinned: Vec<ClipRow> = Vec::new();
    let mut i: usize = 0;
    proof {
        assert(rows@.take(0) =~= Seq::<ClipRow>::empty());
        reveal_with_fuel(Seq::filter, 1);
    }
    while i < rows.len()
        invariant
            i <= rows.len(),
            unpinned@ == rows@.take(i as int).filter(pred),
            pred == (|r: ClipRow| r.pinned == 0),
        decreases rows.len() - i,
    {
        proof {
            assert(rows@.take(i + 1) =~= rows@.take(i as int).push(rows@[i as int]));
            rows@.take(i as int).lemma_filter_push(rows@[i as int], pred);
        }
        if rows[i].pinned == 0 {
            unpinned.push(rows[i].clone());
        }
        i = i + 1;
    }
    proof {
        assert(rows@.take(rows.len() as int) =~= rows@);
        rows@.lemma_filter_len(pred);
    }
    let take: usize = if unpinned.len() <= max_history {
        0
    } else {
        unpinned.len() - max_history
    };
    let ghost unp = unpinned@;
    let sorted = sort_rows(RowOrder::Age, unpinned);
    proof {
        assert(sorted@.len() == unp.len()) by {
            assert(sorted@.to_multiset().len() == unp.to_multiset().len());
        }
    }
    let mut ids: Vec<i64> = Vec::new();
    let mut k: usize = 0;
    while k < take
        invariant
            k <= take,
            take <= sorted.len(),
            ids@ =~= ids_of(sorted@.take(k as int)),
        decreases take - k,
    {
        ids.push(sorted[k].id);
        k = k + 1;
        assert(sorted@.take(k as int) =~= sorted@.take(k - 1).push(sorted@[k - 1]));
    }
    proof {
        assert(ids@ == ids_of(sorted@.take(
            eviction_count(unpinned_rows(rows@).len(), max_history) as int,
        )));
        assert(sorts(RowOrder::Age, unpinned_rows(rows@), sorted@));
    }
    ids
}

// ---------------------------------------------------------------------------
// Laws of listing and eviction
// ---------------------------------------------------------------------------

/// The multiset of a sequence splits at any position.
proof fn lemma_multiset_split(s: Seq<ClipRow>, k: int)
    requires
        0 <= k <= s.len(),
    ensures
        s.to_multiset() == s.take(k).to_multiset().add(s.skip(k).to_multiset()),
{
    assert(s =~= s.take(k) + s.skip(k));
    vstd::seq_lib::lemma_multiset_commutative(s.take(k), s.skip(k));
}

/// A listing shows `listing_len` rows, all taken from `rows`, newest
/// first; and no row left out of it would rank ahead of a
/// row it shows.
pub proof fn lemma_listing_shape(rows: Seq<ClipRow>, limit: usize, listed: Seq<ClipRow>)
    requires
        is_listing(rows, limit, listed),
    ensures
        listed.len() == listing_len(rows.len(), limit),
        sorted_by(RowOrder::Listing, listed),
        forall|x: ClipRow| listed.to_multiset().count(x) <= rows.to_multiset().count(x),
        forall|i: int, y: ClipRow|
            0 <= i < listed.len() && #[trigger] rows.to_multiset().count(y)
                > listed.to_multiset().count(y) ==> precedes(RowOrder::Listing, #[trigger] listed[i], y),
{
    let s = choose|s: Seq<ClipRow>|
        #[trigger] sorts(RowOrder::Listing, rows, s) && listed == s.take(
            listing_len(rows.len(), limit) as int,
        );
    let k = listing_len(rows.len(), limit) as int;
    assert(s.len() == rows.len()) by {
        assert(s.to_multiset().len() == rows.to_multiset().len());
    }
    lemma_multiset_split(s, k);
    assert forall|i: int, j: int| 0 <= i < j < listed.len() implies precedes(
        RowOrder::Listing,
        #[trigger] listed[i],
        #[trigger] listed[j],
    ) by {
        assert(listed[i] == s[i] && listed[j] == s[j]);
    }
    assert forall|i: int, y: ClipRow|
        0 <= i < listed.len() && #[trigger] rows.to_multiset().count(y)
            > listed.to_multiset().count(y) implies precedes(RowOrder::Listing, #[trigger] listed[i], y) by {
        assert(s.skip(k).to_multiset().count(y) > 0);
        assert(s.skip(k).contains(y));
        let m = choose|m: int| 0 <= m < s.skip(k).len() && s.skip(k)[m] == y;
        assert(s[k + m] == y);
        assert(listed[i] == s[i]);
    }
}

/// Rows with the same id are the same row (as in the store, where the id
/// is the key).
pub open spec fn ids_are_keys(rows: Seq<ClipRow>) -> bool {
    forall|x: ClipRow, y: ClipRow|
        #![trigger rows.contains(x), rows.contains(y)]
        rows.contains(x) && rows.contains(y) && x.id == y.id ==> x == y
}

/// Two listing orders of the same rows, whose ids are keys, are the same
/// sequence.
proof fn lemma_listing_order_unique(a: Seq<ClipRow>, b: Seq<ClipRow>)
    requires
        sorted_by(RowOrder::Listing, a),
        sorted_by(RowOrder::Listing, b),
        a.to_multiset() == b.to_multiset(),
        ids_are_keys(a),
    ensures
        a == b,
    decreases a.len(),
{
    broadcast use vstd::seq_lib::to_multiset_contains, vstd::seq_lib::to_multiset_len;

    if a.len() == 0 {
        assert(b.to_multiset().len() == 0);
        assert(b =~= a);
    } else {
        vstd::seq_lib::to_multiset_len(a);
        vstd::seq_lib::to_multiset_len(b);
        let x = a[0];
        let y = b[0];
        assert(a.to_multiset().count(x) > 0);
        assert(b.contains(x));
        let j = choose|j: int| 0 <= j < b.len() && b[j] == x;
        assert(b.to_multiset().count(y) > 0);
        assert(a.contains(y));
        let i = choose|i: int| 0 <= i < a.len() && a[i] == y;
        if j > 0 {
            assert(precedes(RowOrder::Listing, b[0], b[j]));
        } else {
            lemma_bytes_le_reflexive(time_key(x));
        }
        if i > 0 {
            assert(precedes(RowOrder::Listing, a[0], a[i]));
        } else {
            lemma_bytes_le_reflexive(time_key(x));
        }
        lemma_bytes_le_antisymmetric(time_key(x), time_key(y));
        assert(x.id == y.id);
        assert(a.contains(x));
        assert(x == y);
        vstd::seq_lib::to_multiset_remove(a, 0);
        vstd::seq_lib::to_multiset_remove(b, 0);
        assert(a.remove(0) =~= a.drop_first());
        assert(b.remove(0) =~= b.drop_first());
        let ra = a.drop_first();
        let rb = b.drop_first();
        assert forall|p: int, q: int| 0 <= p < q < ra.len() implies precedes(
            RowOrder::Listing,
            #[trigger] ra[p],
            #[trigger] ra[q],
        ) by {
            assert(ra[p] == a[p + 1] && ra[q] == a[q + 1]);
        }
        assert forall|p: int, q: int| 0 <= p < q < rb.len() implies precedes(
            RowOrder::Listing,
            #[trigger] rb[p],
            #[trigger] rb[q],
        ) by {
            assert(rb[p] == b[p + 1] && rb[q] == b[q + 1]);
        }
        assert forall|u: ClipRow, v: ClipRow|
            #![trigger ra.contains(u), ra.contains(v)]
            ra.contains(u) && ra.contains(v) && u.id == v.id implies u == v by {
            let pu = choose|p: int| 0 <= p < ra.len() && ra[p] == u;
            let pv = choose|p: int| 0 <= p < ra.len() && ra[p] == v;
            assert(a[pu + 1] == u && a[pv + 1] == v);
            assert(a.contains(u) && a.contains(v));
        }
        lemma_listing_order_unique(ra, rb);
        assert(a =~= seq![x] + ra);
        assert(b =~= seq![y] + rb);
    }
}

/// A listing limited to `limit` rows is the first rows of the full listing
/// (the export): where ids are keys, both are cut from the one order of the
/// rows.
pub proof fn lemma_listing_prefix(
    rows: Seq<ClipRow>,
    limit: usize,
    listed: Seq<ClipRow>,
    full_limit: usize,
    all: Seq<ClipRow>,
)
    requires
        ids_are_keys(rows),
        rows.len() <= full_limit,
        is_listing(rows, limit, listed),
        is_listing(rows, full_limit, all),
    ensures
        all.len() == rows.len(),
        listed == all.take(listed.len() as int),
{
    broadcast use vstd::seq_lib::to_multiset_contains, vstd::seq_lib::to_multiset_len;

    let s1 = choose|s: Seq<ClipRow>|
        #[trigger] sorts(RowOrder::Listing, rows, s) && listed == s.take(
            listing_len(rows.len(), limit) as int,
        );
    let s2 = choose|s: Seq<ClipRow>|
        #[trigger] sorts(RowOrder::Listing, rows, s) && all == s.take(
            listing_len(rows.len(), full_limit) as int,
        );
    assert(s1.len() == rows.len()) by {
        assert(s1.to_multiset().len() == rows.to_multiset().len());
    }
    assert(s2.len() == rows.len()) by {
        assert(s2.to_multiset().len() == rows.to_multiset().len());
    }
    assert forall|u: ClipRow, v: ClipRow|
        #![trigger s1.contains(u), s1.contains(v)]
        s1.contains(u) && s1.contains(v) && u.id == v.id implies u == v by {
        assert(s1.to_multiset().count(u) > 0 && s1.to_multiset().count(v) > 0);
        assert(rows.contains(u) && rows.contains(v));
    }
    lemma_listing_order_unique(s1, s2);
    assert(all =~= s2);
}

/// `id` is the id of some non-pinned row of `rows`.
pub open spec fn is_unpinned_id(rows: Seq<ClipRow>, id: i64) -> bool {
    exists|j: int| 0 <= j < rows.len() && rows[j].pinned == 0 && #[trigger] rows[j].id == id
}

/// Some non-pinned row of `rows` with id `id` is no newer than `r`.
pub open spec fn evicts_no_newer_than(rows: Seq<ClipRow>, id: i64, r: ClipRow) -> bool {
    exists|e: ClipRow|
        #[trigger] rows.contains(e) && e.pinned == 0 && e.id == id && bytes_le(
            time_key(e),
            time_key(r),
        )
}

/// An eviction removes `eviction_count` rows, only non-pinned ones, and the
/// oldest of them: every evicted id is the id of a non-pinned row that is
/// no newer than any non-pinned row whose id is kept. Exactly
/// `min(unpinned, max_history)` non-pinned rows remain, so nothing is
/// evicted while the non-pinned rows stay within the limit.
pub proof fn lemma_eviction_shape(rows: Seq<ClipRow>, max_history: usize, ids: Seq<i64>)
    requires
        is_eviction(rows, max_history, ids),
    ensures
        ids.len() == eviction_count(unpinned_rows(rows).len(), max_history),
        unpinned_rows(rows).len() - ids.len() == if unpinned_rows(
            rows,
        ).len() <= max_history {
            unpinned_rows(rows).len() as int
        } else {
            max_history as int
        },
        forall|i: int| 0 <= i < ids.len() ==> is_unpinned_id(rows, #[trigger] ids[i]),
        forall|i: int, r: ClipRow|
            #![trigger ids[i], rows.contains(r)]
            0 <= i < ids.len() && rows.contains(r) && r.pinned == 0 && !ids.contains(r.id)
                ==> evicts_no_newer_than(rows, ids[i], r),
{
    let pred = |r: ClipRow| r.pinned == 0;
    let unp = unpinned_rows(rows);
    let k = eviction_count(unp.len(), max_history) as int;
    let s = choose|s: Seq<ClipRow>|
        #[trigger] sorts(RowOrder::Age, unp, s) && ids == ids_of(s.take(k));
    assert(s.len() == unp.len()) by {
        assert(s.to_multiset().len() == unp.to_multiset().len());
    }
    // every row of `s` is a non-pinned row of `rows`
    assert forall|m: int| 0 <= m < s.len() implies rows.contains(#[trigger] s[m]) && s[m].pinned
        == 0 by {
        assert(s.to_multiset().count(s[m]) > 0);
        assert(unp.contains(s[m]));
        let idx = choose|idx: int| 0 <= idx < unp.len() && unp[idx] == s[m];
        rows.lemma_filter_pred(pred, idx);
        rows.lemma_filter_contains_rev(pred, s[m]);
    }
    assert forall|i: int| 0 <= i < ids.len() implies is_unpinned_id(rows, #[trigger] ids[i]) by {
        assert(ids[i] == s[i].id);
        assert(rows.contains(s[i]));
        let j = choose|j: int| 0 <= j < rows.len() && rows[j] == s[i];
        assert(rows[j].id == ids[i]);
    }
    assert forall|i: int, r: ClipRow|
        #![trigger ids[i], rows.contains(r)]
        0 <= i < ids.len() && rows.contains(r) && r.pinned == 0 && !ids.contains(
            r.id,
        ) implies evicts_no_newer_than(rows, ids[i], r) by {
        let j = choose|j: int| 0 <= j < rows.len() && rows[j] == r;
        rows.lemma_filter_contains(pred, j);
        assert(unp.contains(r));
        assert(s.to_multiset().count(r) > 0);
        assert(s.contains(r));
        let m = choose|m: int| 0 <= m < s.len() && s[m] == r;
        if m < k {
            assert(ids[m] == r.id);
        }
        assert(m >= k);
        assert(precedes(RowOrder::Age, s[i], s[m]));
        assert(ids[i] == s[i].id);
        assert(rows.contains(s[i]));
    }
}

// ---------------------------------------------------------------------------
// Tags
// ---------------------------------------------------------------------------

/// `tags` with `tag` added, unless it is already there.
pub open spec fn with_tag(tags: Seq<Seq<char>>, tag: Seq<char>) -> Seq<Seq<char>> {
    if tags.contains(tag) {
        tags
    } else {
        tags.push(tag)
    }
}

/// Add a tag to a clip's tags; a tag already present is not repeated.
pub fn add_tag(tags: &mut Vec<String>, tag: &str)
    ensures
        texts(final(tags)@) == with_tag(texts(old(tags)@), tag@),
{
    let mut i: usize = 0;
    while i < tags.len()
        invariant
            i <= tags.len(),
            forall|k: int| 0 <= k < i ==> #[trigger] texts(tags@)[k] != tag@,
        decreases tags.len() - i,
    {
        if str_eq(tags[i].as_str(), tag) {
            assert(texts(tags@)[i as int] == tag@);
            return;
        }
        i = i + 1;
    }
    assert(!texts(tags@).contains(tag@));
    let ghost before = tags@;
    tags.push(String::from_str(tag));
    assert(texts(tags@) =~= texts(before).push(tag@));
}

/// Adding a tag twice is the same as adding it once, and the tag is then
/// present.
pub proof fn lemma_add_tag_idempotent(tags: Seq<Seq<char>>, tag: Seq<char>)
    ensures
        with_tag(with_tag(tags, tag), tag) == with_tag(tags, tag),
        with_tag(tags, tag).contains(tag),
{
    if !tags.contains(tag) {
        assert(tags.push(tag)[tags.len() as int] == tag);
    }
}

// ---------------------------------------------------------------------------
// Full-text search term
// ---------------------------------------------------------------------------

/// The full-text query for a search term: the term as one quoted phrase,
/// with its quotes doubled.
pub open spec fn fts_phrase(term: Seq<char>) -> Seq<char> {
    quoted(term)
}

/// The quoted phrase for a full-text search term, so that the term is
/// matched literally rather than read as query syntax.
pub fn fts_query(term: &str) -> (res: String)
    ensures
        res@ == fts_phrase(term@),
{
    quote(term)
}

/// The full-text search a query asks for: none when the query is blank
/// (nothing but white space), which lists the recent clips instead;
/// otherwise the query as it was typed.
pub fn search_term(query: &str) -> (res: Option<&str>)
    ensures
        res is None <==> trimmed(query@).len() == 0,
        res matches Some(t) ==> t@ == query@,
{
    if trim(query).is_empty() {
        None
    } else {
        Some(query)
    }
}

// ---------------------------------------------------------------------------
// Rows and entries
// ---------------------------------------------------------------------------

/// Why an entry could not be turned into a row.
#[derive(Debug, Clone, Copy, PartialEq, Eq, Structural)]
pub enum StoreError {
    /// The capture time is outside what chrono can represent.
    TimestampOutOfRange,
}

/// serde_json's error type; carried and mapped to `StoreError`.
#[verifier::external_type_specification]
#[verifier::external_body]
pub struct ExJsonError(serde_json::Error);

/// The JSON text serde_json writes for an array of strings.
pub uninterp spec fn json_array_text(items: Seq<Seq<char>>) -> Seq<char>;

/// The strings serde_json reads from a JSON text, if it is an array of
/// strings.
pub uninterp spec fn json_array_items(text: Seq<char>) -> Option<Seq<Seq<char>>>;

/// Calls `serde_json::to_string` on a vector of strings. Its documentation
/// says serialization fails only where a `Serialize` impl decides to fail or
/// a map has non-string keys; strings and vectors of them do neither. The
/// contract claims success, with the named JSON text of the strings, which
/// `serde_json::from_str::<Vec<String>>` reads back as the same strings
/// (each string is written quoted with its special characters escaped, and
/// the reader undoes exactly those escapes).
#[verifier::external_body]
fn json_of_strings(items: &Vec<String>) -> (res: Result<String, serde_json::Error>)
    ensures
        res is Ok,
        res matches Ok(j) ==> j@ == json_array_text(texts(items@)),
        res matches Ok(j) ==> json_array_items(j@) == Some(texts(items@)),
{
    serde_json::to_string(items)
}

/// Calls `serde_json::from_str::<Vec<String>>`. The contract claims that
/// the result is the named reading of the text.
#[verifier::external_body]
fn strings_of_json(text: &str) -> (res: Option<Vec<String>>)
    ensures
        match res {
            Some(v) => json_array_items(text@) == Some(texts(v@)),
            None => json_array_items(text@) is None,
        },
{
    match serde_json::from_str::<Vec<String>>(text) {
        Ok(v) => Some(v),
        Err(_) => None,
    }
}

/// The JSON text stored for a list of tags.
pub fn encode_tags(tags: &Vec<String>) -> (res: String)
    ensures
        res@ == json_array_text(texts(tags@)),
        json_array_items(res@) == Some(texts(tags@)),
{
    match json_of_strings(tags) {
        Ok(j) => j,
        Err(_) => {
            proof {
                assert(false);
            }
            String::new()
        },
    }
}

/// `row` is what is stored for `entry`.
pub open spec fn row_stores(entry: ClipEntry, row: ClipRow) -> bool {
    &&& row.id == entry.id
    &&& row.content@ == entry.content@
    &&& row.content_type@ == content_type_name(entry.content_type)
    &&& row.hash@ == entry.hash@
    &&& row.source_app == entry.source_app
    &&& row.created_at@ == rfc3339_text(entry.created_at.secs, entry.created_at.nanos)
    &&& row.pinned == (if entry.pinned {
        1i64
    } else {
        0i64
    })
    &&& row.tags@ == json_array_text(texts(entry.tags@))
    &&& row.label == entry.label
    &&& json_array_items(row.tags@) == Some(texts(entry.tags@))
    &&& rfc3339_exact(entry.created_at.secs, entry.created_at.nanos) ==> rfc3339_instant(
        row.created_at@,
    ) == Some((entry.created_at.secs, entry.created_at.nanos))
}

/// The row stored for an entry: the content type by its name, the capture
/// time as RFC 3339 text, `pinned` as 1 or 0 and the tags as a JSON array.
pub fn row_for_insert(entry: &ClipEntry) -> (res: Result<ClipRow, StoreError>)
    ensures
        res is Ok <==> timestamp_in_range(entry.created_at.secs, entry.created_at.nanos),
        res matches Ok(row) ==> row_stores(*entry, row),
        res matches Err(e) ==> e == StoreError::TimestampOutOfRange,
{
    let created_at = match format_rfc3339(entry.created_at) {
        Some(t) => t,
        None => return Err(StoreError::TimestampOutOfRange),
    };
    let tags = encode_tags(&entry.tags);
    Ok(ClipRow {
        id: entry.id,
        content: entry.content.clone(),
        content_type: String::from_str(entry.content_type.as_str()),
        hash: entry.hash.clone(),
        source_app: clone_opt_string(&entry.source_app),
        created_at,
        pinned: if entry.pinned {
            1
        } else {
            0
        },
        tags,
        label: clone_opt_string(&entry.label),
    })
}

/// The tags read from their stored JSON text; none when it is unreadable.
pub open spec fn tags_read(text: Seq<char>) -> Seq<Seq<char>> {
    match json_array_items(text) {
        Some(items) => items,
        None => Seq::<Seq<char>>::empty(),
    }
}

/// `e` is an entry read from `row`: the content type by its name (an
/// unknown name reads as plain text), the capture time from its RFC 3339
/// text where that reads (a time chrono can represent in any case),
/// `pinned` as nonzero and the tags from their JSON text (none when it is
/// unreadable).
pub open spec fn entry_read_from(row: ClipRow, e: ClipEntry) -> bool {
    &&& e.id == row.id
    &&& e.content == row.content
    &&& e.content_type == content_type_of_name(row.content_type@)
    &&& e.hash == row.hash
    &&& e.source_app == row.source_app
    &&& rfc3339_instant(row.created_at@) is Some ==> rfc3339_instant(row.created_at@) == Some(
        (e.created_at.secs, e.created_at.nanos),
    )
    &&& timestamp_in_range(e.created_at.secs, e.created_at.nanos)
    &&& texts(e.tags@) == tags_read(row.tags@)
    &&& e.pinned == (row.pinned != 0)
    &&& e.label == row.label
}

/// The entry a stored row stands for. An unknown content type name reads as
/// plain text, an unreadable capture time as the current time, and
/// unreadable tags as no tags.
pub fn row_to_entry(row: ClipRow) -> (res: ClipEntry)
    ensures
        entry_read_from(row, res),
{
    let content_type = ContentType::from_str(row.content_type.as_str());
    let created_at = match parse_rfc3339(row.created_at.as_str()) {
        Some(t) => t,
        None => utc_now(),
    };
    let tags = match strings_of_json(row.tags.as_str()) {
        Some(v) => v,
        None => {
            let empty: Vec<String> = Vec::new();
            assert(texts(empty@) =~= Seq::<Seq<char>>::empty());
            empty
        },
    };
    ClipEntry {
        id: row.id,
        content: row.content,
        content_type,
        hash: row.hash,
        source_app: row.source_app,
        created_at,
        pinned: row.pinned != 0,
        tags,
        label: row.label,
    }
}

/// What storing an entry does, given the id of a stored clip with the same
/// hash, if there is one.
#[derive(Debug)]
pub enum InsertPlan {
    /// The content is already stored: move that clip to the top of the
    /// history by giving it the new capture time.
    Bump { id: i64, created_at: String },
    /// The content is new: store this row.
    Insert(ClipRow),
}

/// Decides how to store an entry: content already stored (by hash) is not
/// stored twice, its clip is bumped to the new capture time instead.
pub fn plan_insert(entry: &ClipEntry, existing: Option<i64>) -> (res: Result<InsertPlan, StoreError>)
    ensures
        res is Ok <==> timestamp_in_range(entry.created_at.secs, entry.created_at.nanos),
        res matches Err(e) ==> e == StoreError::TimestampOutOfRange,
        res matches Ok(plan) ==> match plan {
            InsertPlan::Bump { id, created_at } => existing == Some(id) && created_at@
                == rfc3339_text(entry.created_at.secs, entry.created_at.nanos),
            InsertPlan::Insert(row) => existing is None && row_stores(*entry, row),
        },
{
    match existing {
        Some(id) => match format_rfc3339(entry.created_at) {
            Some(created_at) => Ok(InsertPlan::Bump { id, created_at }),
            None => Err(StoreError::TimestampOutOfRange),
        },
        None => match row_for_insert(entry) {
            Ok(row) => Ok(InsertPlan::Insert(row)),
            Err(e) => Err(e),
        },
    }
}

/// What a read gives back of a write: the entry read from the row stored
/// for an entry is that entry again, field by field, for a capture time in
/// the years 0 to 9999 (leap seconds included).
pub proof fn lemma_store_roundtrip(entry: ClipEntry, row: ClipRow, back: ClipEntry)
    requires
        row_stores(entry, row),
        entry_read_from(row, back),
        rfc3339_exact(entry.created_at.secs, entry.created_at.nanos),
    ensures
        back.id == entry.id,
        back.content@ == entry.content@,
        back.content_type == entry.content_type,
        back.hash@ == entry.hash@,
        back.source_app == entry.source_app,
        back.created_at == entry.created_at,
        back.pinned == entry.pinned,
        texts(back.tags@) == texts(entry.tags@),
        back.label == entry.label,
{
    lemma_content_type_name_roundtrip(entry.content_type);
}

} // verus!
