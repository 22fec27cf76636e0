//! Joining the hits of a vector search with the stored chunks they name.

use vstd::prelude::*;
use crate::text::to_chars;

verus! {

/// Whether `c` is an ASCII digit.
pub open spec fn is_digit(c: char) -> bool {
    '0' <= c <= '9'
}

/// The value of a string of decimal digits.
pub open spec fn digits_value(s: Seq<char>) -> nat
    decreases s.len(),
{
    if s.len() == 0 {
        0
    } else {
        10 * digits_value(s.drop_last()) + ((s.last() as int) - ('0' as int)) as nat
    }
}

/// Whether every character of `s` is an ASCII digit.
pub open spec fn all_digits(s: Seq<char>) -> bool {
    forall|i: int| 0 <= i < s.len() ==> is_digit(#[trigger] s[i])
}

/// The length of a leading sign (`+` or `-`), 0 or 1.
pub open spec fn sign_len(s: Seq<char>) -> int {
    if s.len() > 0 && (s[0] == '-' || s[0] == '+') {
        1
    } else {
        0
    }
}

/// The text of an `i64` as `str::parse::<i64>` reads it: an optional `+` or
/// `-`, then one or more ASCII digits, with a value in range.
pub open spec fn parsed_i64(s: Seq<char>) -> Option<i64> {
    let body = s.skip(sign_len(s));
    if body.len() > 0 && all_digits(body) {
        let v: int = if s[0] == '-' {
            -(digits_value(body) as int)
        } else {
            digits_value(body) as int
        };
        if i64::MIN <= v <= i64::MAX {
            Some(v as i64)
        } else {
            None
        }
    } else {
        None
    }
}

proof fn lemma_digits_value_grows(s: Seq<char>, c: char)
    requires
        is_digit(c),
    ensures
        digits_value(s.push(c)) >= digits_value(s),
        digits_value(s.push(c)) == 10 * digits_value(s) + ((c as int) - ('0' as int)),
{
    assert(s.push(c).drop_last() =~= s);
}

/// Reads a decimal `i64` the way `str::parse::<i64>` does.
pub fn parse_i64(s: &str) -> (r: Option<i64>)
    ensures
        r == parsed_i64(s@),
{
    let v = to_chars(s);
    let n = v.len();
    let mut start: usize = 0;
    let mut neg = false;
    if n > 0 && (v[0] == '-' || v[0] == '+') {
        neg = v[0] == '-';
        start = 1;
    }
    let ghost body = s@.skip(sign_len(s@));
    assert(start == sign_len(s@));
    if start == n {
        return None;
    }
    let limit: u64 = 9223372036854775808;
    let mut acc: u64 = 0;
    let mut too_big = false;
    let mut i = start;
    assert(s@.skip(start as int).take(0) =~= Seq::<char>::empty());
    while i < n
        invariant
            v@ == s@,
            start <= i <= n == s@.len(),
            body == s@.skip(start as int),
            forall|k: int| start <= k < i ==> is_digit(#[trigger] s@[k]),
            !too_big ==> acc == digits_value(body.take(i - start)) && acc <= limit,
            too_big ==> digits_value(body.take(i - start)) > limit,
            limit == 9223372036854775808u64,
            start == sign_len(s@),
            neg == (n > 0 && s@[0] == '-'),
        decreases n - i,
    {
        let c = v[i];
        if !('0' <= c && c <= '9') {
            assert(!is_digit(body[i - start]));
            assert(!all_digits(body));
            return None;
        }
        let d = (c as u32 - '0' as u32) as u64;
        proof {
            assert(body.take(i + 1 - start) =~= body.take(i - start).push(c));
            lemma_digits_value_grows(body.take(i - start), c);
        }
        if !too_big {
            if acc > (limit - d) / 10 {
                too_big = true;
            } else {
                acc = acc * 10 + d;
            }
        }
        i += 1;
    }
    assert(body.take(n - start) =~= body);
    if too_big {
        return None;
    }
    if neg {
        if acc == limit {
            Some(i64::MIN)
        } else {
            Some(-(acc as i64))
        }
    } else {
        if acc == limit {
            None
        } else {
            Some(acc as i64)
        }
    }
}

/// The ids of a list of stored chunks that hits name, in hit order; hits
/// whose id is not a number are left out.
pub open spec fn chunk_ids_of(hits: Seq<String>) -> Seq<i64>
    decreases hits.len(),
{
    if hits.len() == 0 {
        Seq::empty()
    } else {
        match parsed_i64(hits.last()@) {
            Some(id) => chunk_ids_of(hits.drop_last()).push(id),
            None => chunk_ids_of(hits.drop_last()),
        }
    }
}

/// The chunk ids to fetch for a list of hit ids.
pub fn chunk_ids(hits: &Vec<String>) -> (ids: Vec<i64>)
    ensures
        ids@ == chunk_ids_of(hits@),
{
    let mut ids: Vec<i64> = Vec::new();
    let mut i: usize = 0;
    while i < hits.len()
        invariant
            i <= hits@.len(),
            ids@ == chunk_ids_of(hits@.take(i as int)),
        decreases hits@.len() - i,
    {
        proof {
            assert(hits@.take(i + 1).drop_last() =~= hits@.take(i as int));
        }
        match parse_i64(hits[i].as_str()) {
            Some(id) => ids.push(id),
            None => {},
        }
        i += 1;
    }
    assert(hits@.take(hits@.len() as int) =~= hits@);
    ids
}

/// The last stored row with this id, if any (when ids repeat, the later row wins).
pub open spec fn last_row_with(rows: Seq<i64>, id: i64) -> Option<int> {
    if exists|k: int| 0 <= k < rows.len() && rows[k] == id {
        Some(choose|k: int| 0 <= k < rows.len() && rows[k] == id && forall|j: int| k < j < rows.len() ==> rows[j] != id)
    } else {
        None
    }
}

/// Each hit whose id is a number with a stored row, paired with that row, in hit order.
pub open spec fn matched_hits(hits: Seq<String>, rows: Seq<i64>) -> Seq<(int, int)>
    decreases hits.len(),
{
    if hits.len() == 0 {
        Seq::empty()
    } else {
        let init = matched_hits(hits.drop_last(), rows);
        match parsed_i64(hits.last()@) {
            Some(id) => match last_row_with(rows, id) {
                Some(k) => init.push((hits.len() - 1, k)),
                None => init,
            },
            None => init,
        }
    }
}

/// Pairs each hit with the stored row of the chunk it names: the result
/// lists (hit position, row position), in hit order, leaving out hits whose
/// id is not a number or names no row; among rows with the same id the last is used.
pub fn match_hits(hits: &Vec<String>, row_ids: &Vec<i64>) -> (pairs: Vec<(usize, usize)>)
    ensures
        pairs@.len() == matched_hits(hits@, row_ids@).len(),
        forall|k: int| 0 <= k < pairs@.len() ==> (#[trigger] pairs@[k]).0 as int == matched_hits(hits@, row_ids@)[k].0
            && pairs@[k].1 as int == matched_hits(hits@, row_ids@)[k].1,
{
    let mut pairs: Vec<(usize, usize)> = Vec::new();
    let mut i: usize = 0;
    while i < hits.len()
        invariant
            i <= hits@.len(),
            pairs@.len() == matched_hits(hits@.take(i as int), row_ids@).len(),
            forall|k: int| 0 <= k < pairs@.len() ==> (#[trigger] pairs@[k]).0 as int == matched_hits(hits@.take(i as int), row_ids@)[k].0
                && pairs@[k].1 as int == matched_hits(hits@.take(i as int), row_ids@)[k].1,
        decreases hits@.len() - i,
    {
        proof {
            assert(hits@.take(i + 1).drop_last() =~= hits@.take(i as int));
            assert(hits@.take(i + 1).last() == hits@[i as int]);
        }
        match parse_i64(hits[i].as_str()) {
            Some(id) => {
                match last_index_of(row_ids, id) {
                    Some(k) => {
                        pairs.push((i, k));
                    },
                    None => {},
                }
            },
            None => {},
        }
        i += 1;
    }
    assert(hits@.take(hits@.len() as int) =~= hits@);
    pairs
}

fn last_index_of(v: &Vec<i64>, x: i64) -> (r: Option<usize>)
    ensures
        match r {
            Some(k) => last_row_with(v@, x) == Some(k as int),
            None => last_row_with(v@, x) is None,
        },
{
    let mut k = v.len();
    while k > 0
        invariant
            k <= v@.len(),
            forall|j: int| k <= j < v@.len() ==> v@[j] != x,
        decreases k,
    {
        if v[k - 1] == x {
            let found = k - 1;
            proof {
                let c = choose|c: int| 0 <= c < v@.len() && v@[c] == x && forall|j: int| c < j < v@.len() ==> v@[j] != x;
                assert(0 <= found < v@.len() && v@[found as int] == x);
                if c < found {
                    assert(v@[found as int] != x);
                } else if c > found {
                    assert(v@[c] != x);
                }
            }
            return Some(found);
        }
        k -= 1;
    }
    None
}

} // verus!
