//! Extracting the player count from a status-command reply.
//!
//! A reply is treated as bytes. The count is the run of decimal digits
//! between the first occurrence of the marker `"Online players ("` and the
//! first `')'` after it. Anything malformed degrades to "no value": the
//! parser never fails on empty, truncated or adversarial input.

use vstd::prelude::*;

verus! {

use vstd::string::StringSliceAdditionalSpecFns;

/// The marker that introduces the player count, as UTF-8 bytes:
/// `"Online players ("`.
pub open spec fn prefix_bytes() -> Seq<u8> {
    seq![79u8, 110u8, 108u8, 105u8, 110u8, 101u8, 32u8, 112u8, 108u8, 97u8, 121u8, 101u8, 114u8, 115u8, 32u8, 40u8]
}

/// The byte of the closing marker `')'`.
pub open spec fn close_byte() -> u8 {
    41u8
}

/// The marker occurs in `b` at position `i`.
pub open spec fn prefix_at(b: Seq<u8>, i: int) -> bool {
    0 <= i && i + 16 <= b.len() && b.subrange(i, i + 16) == prefix_bytes()
}

/// Position of the first occurrence of the marker at or after `i`.
pub open spec fn find_prefix_from(b: Seq<u8>, i: int) -> Option<int>
    decreases b.len() - i,
{
    if i < 0 || i + 16 > b.len() {
        None
    } else if prefix_at(b, i) {
        Some(i)
    } else {
        find_prefix_from(b, i + 1)
    }
}

/// Position of the first occurrence of byte `x` at or after `i`.
pub open spec fn find_byte_from(b: Seq<u8>, x: u8, i: int) -> Option<int>
    decreases b.len() - i,
{
    if i < 0 || i >= b.len() {
        None
    } else if b[i] == x {
        Some(i)
    } else {
        find_byte_from(b, x, i + 1)
    }
}

/// An ASCII decimal digit.
pub open spec fn is_digit(c: u8) -> bool {
    48 <= c <= 57
}

/// Every byte of `s` is a decimal digit.
pub open spec fn all_digits(s: Seq<u8>) -> bool {
    forall|i: int| 0 <= i < s.len() ==> is_digit(#[trigger] s[i])
}

/// Value of `s` read as decimal digits, most significant first.
pub open spec fn digits_value(s: Seq<u8>) -> int
    decreases s.len(),
{
    if s.len() == 0 {
        0
    } else {
        digits_value(s.drop_last()) * 10 + (s.last() - 48)
    }
}

/// What a run of bytes between the markers yields: the count if it is a
/// non-empty run of digits whose value fits the gauge's integer, no value
/// otherwise.
pub open spec fn spec_parse_count(s: Seq<u8>) -> Option<i64> {
    if s.len() > 0 && all_digits(s) && digits_value(s) <= i64::MAX {
        Some(digits_value(s) as i64)
    } else {
        None
    }
}

/// What a whole reply body yields: the digits between the first marker and
/// the first `')'` after it, or no value when either marker is missing or
/// the content between them is not a plain count.
pub open spec fn spec_extract(body: Seq<u8>) -> Option<i64> {
    match find_prefix_from(body, 0) {
        None => None,
        Some(p) => match find_byte_from(body, close_byte(), p + 16) {
            None => None,
            Some(e) => spec_parse_count(body.subrange(p + 16, e)),
        },
    }
}

/// `find_prefix_from` returns the least marker position at or after `i`,
/// and `None` exactly when there is none.
pub proof fn lemma_find_prefix_from_spec(b: Seq<u8>, i: int)
    requires
        0 <= i,
    ensures
        match find_prefix_from(b, i) {
            Some(k) => i <= k && prefix_at(b, k) && (forall|j: int| i <= j < k ==> !prefix_at(b, j)),
            None => forall|j: int| j >= i ==> !prefix_at(b, j),
        },
    decreases b.len() - i,
{
    if i + 16 > b.len() {
    } else if prefix_at(b, i) {
    } else {
        lemma_find_prefix_from_spec(b, i + 1);
    }
}

/// `find_byte_from` returns the least position of `x` at or after `i`,
/// and `None` exactly when there is none.
pub proof fn lemma_find_byte_from_spec(b: Seq<u8>, x: u8, i: int)
    requires
        0 <= i,
    ensures
        match find_byte_from(b, x, i) {
            Some(k) => i <= k < b.len() && b[k] == x && (forall|j: int| i <= j < k ==> b[j] != x),
            None => forall|j: int| i <= j < b.len() ==> b[j] != x,
        },
    decreases b.len() - i,
{
    if i >= b.len() {
    } else if b[i] == x {
    } else {
        lemma_find_byte_from_spec(b, x, i + 1);
    }
}

/// A run of digits has a non-negative value.
pub proof fn lemma_digits_value_nonneg(s: Seq<u8>)
    requires
        all_digits(s),
    ensures
        digits_value(s) >= 0,
    decreases s.len(),
{
    if s.len() > 0 {
        assert(all_digits(s.drop_last())) by {
            assert(forall|i: int| 0 <= i < s.drop_last().len() ==> s.drop_last()[i] == s[i]);
        }
        lemma_digits_value_nonneg(s.drop_last());
    }
}

/// Dropping digits from the end never raises the value.
pub proof fn lemma_digits_value_take_le(s: Seq<u8>, i: int)
    requires
        all_digits(s),
        0 <= i <= s.len(),
    ensures
        digits_value(s.subrange(0, i)) <= digits_value(s),
    decreases s.len() - i,
{
    if i == s.len() {
        assert(s.subrange(0, i) =~= s);
    } else {
        lemma_digits_value_take_le(s, i + 1);
        let t = s.subrange(0, i + 1);
        assert(t.drop_last() =~= s.subrange(0, i));
        assert(all_digits(t)) by {
            assert(forall|j: int| 0 <= j < t.len() ==> t[j] == s[j]);
        }
        assert(all_digits(t.drop_last())) by {
            assert(forall|j: int| 0 <= j < t.drop_last().len() ==> t.drop_last()[j] == t[j]);
        }
        lemma_digits_value_nonneg(t.drop_last());
        assert(digits_value(t) == digits_value(t.drop_last()) * 10 + (t.last() - 48));
        assert(is_digit(t.last()));
        assert(digits_value(t.drop_last()) <= digits_value(t.drop_last()) * 10) by (nonlinear_arith)
            requires digits_value(t.drop_last()) >= 0;
    }
}

/// True at `i` exactly when the marker occurs there in `b`.
fn is_prefix_at(b: &[u8], i: usize) -> (r: bool)
    requires
        i + 16 <= b@.len(),
    ensures
        r == prefix_at(b@, i as int),
{
    let r = b[i] == 79 && b[i + 1] == 110 && b[i + 2] == 108 && b[i + 3] == 105 && b[i + 4] == 110
        && b[i + 5] == 101 && b[i + 6] == 32 && b[i + 7] == 112 && b[i + 8] == 108 && b[i + 9] == 97
        && b[i + 10] == 121 && b[i + 11] == 101 && b[i + 12] == 114 && b[i + 13] == 115
        && b[i + 14] == 32 && b[i + 15] == 40;
    proof {
        if r {
            assert(b@.subrange(i as int, i as int + 16) =~= prefix_bytes());
        } else {
            if b@.subrange(i as int, i as int + 16) == prefix_bytes() {
                assert(forall|k: int| 0 <= k < 16 ==> b@.subrange(i as int, i as int + 16)[k] == prefix_bytes()[k]);
                assert(false);
            }
        }
    }
    r
}

/// Finds the first occurrence of the marker in `b`.
fn find_prefix(b: &[u8]) -> (r: Option<usize>)
    ensures
        match r {
            Some(k) => find_prefix_from(b@, 0) == Some(k as int),
            None => find_prefix_from(b@, 0) is None,
        },
{
    if b.len() < 16 {
        return None;
    }
    let mut i: usize = 0;
    while i <= b.len() - 16
        invariant
            16 <= b@.len(),
            i <= b@.len(),
            find_prefix_from(b@, 0) == find_prefix_from(b@, i as int),
        decreases b@.len() - i,
    {
        if is_prefix_at(b, i) {
            return Some(i);
        }
        i = i + 1;
    }
    None
}

/// Finds the first `')'` in `b` at or after `start`.
fn find_close(b: &[u8], start: usize) -> (r: Option<usize>)
    ensures
        match r {
            Some(k) => find_byte_from(b@, close_byte(), start as int) == Some(k as int),
            None => find_byte_from(b@, close_byte(), start as int) is None,
        },
{
    let mut i: usize = start;
    if i >= b.len() {
        return None;
    }
    while i < b.len()
        invariant
            start <= i <= b@.len(),
            find_byte_from(b@, close_byte(), start as int) == find_byte_from(b@, close_byte(), i as int),
        decreases b@.len() - i,
    {
        if b[i] == 41 {
            return Some(i);
        }
        i = i + 1;
    }
    None
}

/// Parses `b[start..end]` as a non-negative decimal count.
fn parse_count(b: &[u8], start: usize, end: usize) -> (r: Option<i64>)
    requires
        start <= end <= b@.len(),
    ensures
        r == spec_parse_count(b@.subrange(start as int, end as int)),
{
    let ghost s = b@.subrange(start as int, end as int);
    if start == end {
        return None;
    }
    let mut acc: i64 = 0;
    let mut i: usize = start;
    while i < end
        invariant
            start <= i <= end <= b@.len(),
            s == b@.subrange(start as int, end as int),
            start < end,
            all_digits(b@.subrange(start as int, i as int)),
            0 <= acc <= i64::MAX,
            acc == digits_value(b@.subrange(start as int, i as int)),
        decreases end - i,
    {
        let ghost pre = b@.subrange(start as int, i as int);
        let ghost cur = b@.subrange(start as int, i as int + 1);
        assert(cur.drop_last() =~= pre);
        assert(cur.last() == b@[i as int]);
        let c = b[i];
        if c < 48 || c > 57 {
            proof {
                assert(s[i - start] == b@[i as int]);
                assert(!is_digit(s[i - start]));
            }
            return None;
        }
        let d = (c - 48) as i64;
        proof {
            assert(all_digits(cur)) by {
                assert(forall|j: int| 0 <= j < pre.len() ==> cur[j] == pre[j]);
            }
            assert(digits_value(cur) == acc * 10 + d);
        }
        if acc > (i64::MAX - d) / 10 {
            proof {
                assert(acc * 10 + d > i64::MAX) by (nonlinear_arith)
                    requires
                        acc > (i64::MAX - d) / 10,
                        0 <= d <= 9,
                        acc >= 0;
                if all_digits(s) {
                    lemma_digits_value_take_le(s, i + 1 - start);
                    assert(s.subrange(0, i + 1 - start) =~= cur);
                    assert(digits_value(s) > i64::MAX);
                }
            }
            return None;
        }
        proof {
            assert(acc * 10 + d <= i64::MAX) by (nonlinear_arith)
                requires
                    acc <= (i64::MAX - d) / 10,
                    0 <= d <= 9,
                    acc >= 0;
            assert(acc * 10 + d >= 0) by (nonlinear_arith)
                requires
                    acc >= 0,
                    d >= 0;
        }
        acc = acc * 10 + d;
        i = i + 1;
    }
    proof {
        assert(b@.subrange(start as int, i as int) =~= s);
    }
    Some(acc)
}

/// Extracts the current player count from a reply body given as bytes;
/// any malformed body yields no value rather than an error.
pub fn extract_count(b: &[u8]) -> (r: Option<i64>)
    ensures
        r == spec_extract(b@),
{
    let n = b.len();
    match find_prefix(b) {
        None => None,
        Some(p) => {
            proof {
                lemma_find_prefix_from_spec(b@, 0);
                assert(p + 16 <= n);
            }
            let start = p + 16;
            match find_close(b, start) {
                None => None,
                Some(e) => {
                    proof {
                        lemma_find_byte_from_spec(b@, close_byte(), start as int);
                    }
                    parse_count(b, start, e)
                },
            }
        },
    }
}

/// Extracts the current player count from a status reply, as the run of
/// digits between the first `"Online players ("` and the first `')'`
/// after it; any malformed body yields no value rather than an error.
pub fn extract_online_players(s: &str) -> (r: Option<i64>)
    ensures
        r == spec_extract(s.spec_bytes()),
{
    extract_count(s.as_bytes())
}

/// `find_byte_from` finds `x` at `k` when nothing before `k` is `x`.
proof fn lemma_find_byte_from_found(b: Seq<u8>, x: u8, i: int, k: int)
    requires
        0 <= i <= k < b.len(),
        b[k] == x,
        forall|j: int| i <= j < k ==> b[j] != x,
    ensures
        find_byte_from(b, x, i) == Some(k),
    decreases k - i,
{
    if i < k {
        lemma_find_byte_from_found(b, x, i + 1, k);
    }
}

/// Law: every well-formed reply parses to its count. A body that opens
/// with the marker, then a non-empty run of digits whose value fits the
/// gauge, then `')'`, yields exactly that value — whatever follows the
/// closing marker.
pub proof fn lemma_extract_well_formed(ds: Seq<u8>, tail: Seq<u8>)
    requires
        ds.len() > 0,
        all_digits(ds),
        digits_value(ds) <= i64::MAX,
    ensures
        spec_extract(prefix_bytes() + ds + seq![close_byte()] + tail) == Some(digits_value(ds) as i64),
{
    let body = prefix_bytes() + ds + seq![close_byte()] + tail;
    assert(prefix_at(body, 0)) by {
        assert(body.subrange(0, 16) =~= prefix_bytes());
    }
    assert(find_prefix_from(body, 0) == Some(0int));
    let e = 16 + ds.len() as int;
    assert(body[e] == close_byte());
    assert forall|j: int| 16 <= j < e implies body[j] != close_byte() by {
        assert(body[j] == ds[j - 16]);
        assert(is_digit(ds[j - 16]));
    }
    lemma_find_byte_from_found(body, close_byte(), 16, e);
    assert(body.subrange(16, e) =~= ds);
    lemma_digits_value_nonneg(ds);
}

/// Law: a body in which the opening marker never occurs yields no value.
pub proof fn lemma_extract_missing_prefix(body: Seq<u8>)
    requires
        forall|i: int| !prefix_at(body, i),
    ensures
        spec_extract(body) is None,
{
    lemma_find_prefix_from_spec(body, 0);
}

/// Law: a body with the opening marker but no `')'` after it yields no
/// value.
pub proof fn lemma_extract_missing_close(body: Seq<u8>, p: int)
    requires
        find_prefix_from(body, 0) == Some(p),
        forall|j: int| p + 16 <= j < body.len() ==> body[j] != close_byte(),
    ensures
        spec_extract(body) is None,
{
    lemma_find_prefix_from_spec(body, 0);
    lemma_find_byte_from_spec(body, close_byte(), p + 16);
}

/// Law: when the run between the markers is empty or holds a non-digit,
/// the body yields no value.
pub proof fn lemma_extract_bad_content(body: Seq<u8>, p: int, e: int)
    requires
        find_prefix_from(body, 0) == Some(p),
        find_byte_from(body, close_byte(), p + 16) == Some(e),
        p + 16 == e || !all_digits(body.subrange(p + 16, e)),
    ensures
        spec_extract(body) is None,
{
    lemma_find_prefix_from_spec(body, 0);
    lemma_find_byte_from_spec(body, close_byte(), p + 16);
}

} // verus!
