//! The rules of the session message table: each message is stored once under
//! its position, with its role; saving appends the messages past the highest
//! stored position; compaction renumbers the rows it keeps.

use vstd::prelude::*;
use crate::errors::AppError;
use crate::history::Message;
use crate::text::{decimal, push_decimal, str_eq};

verus! {

/// The role stored with each message row.
#[derive(Debug, Clone, Copy, PartialEq, Eq, Structural)]
pub enum MessageRole {
    User,
    Assistant,
    Tool,
    System,
}

/// The stored name of a role.
pub open spec fn role_name(r: MessageRole) -> Seq<char> {
    match r {
        MessageRole::User => "User"@,
        MessageRole::Assistant => "Assistant"@,
        MessageRole::Tool => "Tool"@,
        MessageRole::System => "System"@,
    }
}

/// The role whose stored name is `s`, if any.
pub open spec fn role_named(s: Seq<char>) -> Option<MessageRole> {
    if s == "User"@ {
        Some(MessageRole::User)
    } else if s == "Assistant"@ {
        Some(MessageRole::Assistant)
    } else if s == "Tool"@ {
        Some(MessageRole::Tool)
    } else if s == "System"@ {
        Some(MessageRole::System)
    } else {
        None
    }
}

/// Message of the error for a role name that is not stored by this library.
pub open spec fn unknown_role(s: Seq<char>) -> Seq<char> {
    "Unknown message role: "@ + s
}

/// The role a message is stored with.
pub open spec fn role_of<X>(m: Message<X>) -> MessageRole {
    match m {
        Message::User { .. } => MessageRole::User,
        Message::Assistant { .. } => MessageRole::Assistant,
        Message::System { .. } => MessageRole::System,
    }
}

impl MessageRole {
    /// The stored name of the role.
    pub fn as_str(&self) -> (s: &'static str)
        ensures
            s@ == role_name(*self),
    {
        match self {
            MessageRole::User => "User",
            MessageRole::Assistant => "Assistant",
            MessageRole::Tool => "Tool",
            MessageRole::System => "System",
        }
    }

    /// The stored name of the role, as an owned string.
    pub fn to_string(&self) -> (s: String)
        ensures
            s@ == role_name(*self),
    {
        String::from_str(self.as_str())
    }

    /// The role with the stored name `s`; names are case-sensitive.
    pub fn parse_name(s: &str) -> (r: Result<MessageRole, String>)
        ensures
            match r {
                Ok(role) => role_named(s@) == Some(role),
                Err(e) => role_named(s@) is None && e@ == unknown_role(s@),
            },
    {
        if str_eq(s, "User") {
            Ok(MessageRole::User)
        } else if str_eq(s, "Assistant") {
            Ok(MessageRole::Assistant)
        } else if str_eq(s, "Tool") {
            Ok(MessageRole::Tool)
        } else if str_eq(s, "System") {
            Ok(MessageRole::System)
        } else {
            let mut e = String::from_str("Unknown message role: ");
            e.append(s);
            Err(e)
        }
    }
}

impl std::str::FromStr for MessageRole {
    type Err = String;

    fn from_str(s: &str) -> (r: Result<MessageRole, String>)
        ensures
            match r {
                Ok(role) => role_named(s@) == Some(role),
                Err(e) => role_named(s@) is None && e@ == unknown_role(s@),
            },
    {
        MessageRole::parse_name(s)
    }
}

/// The role a message is stored with.
pub fn message_role<X>(m: &Message<X>) -> (r: MessageRole)
    ensures
        r == role_of(*m),
{
    match m {
        Message::User { .. } => MessageRole::User,
        Message::Assistant { .. } => MessageRole::Assistant,
        Message::System { .. } => MessageRole::System,
    }
}

/// One message row to insert: the message at `index` of the history, under `seq`.
pub struct RowPlan {
    pub index: usize,
    pub seq: i32,
    pub role: MessageRole,
}

/// The position from which a save inserts messages, given the highest stored position.
pub open spec fn first_unsaved(max_seq: Option<i32>) -> usize {
    match max_seq {
        Some(s) => (s + 1) as usize,
        None => 0,
    }
}

/// The rows a save inserts: each message from `first_unsaved(max_seq)` on,
/// under its position in the history.
pub open spec fn planned_rows<X>(h: Seq<Message<X>>, from: int, rows: Seq<RowPlan>) -> bool {
    &&& rows.len() == if from < h.len() {
        h.len() - from
    } else {
        0
    }
    &&& forall|k: int|
        0 <= k < rows.len() ==> {
            &&& #[trigger] rows[k].index == from + k
            &&& rows[k].seq == #[verifier::truncate] (rows[k].index as i32)
            &&& rows[k].role == role_of(h[from + k])
        }
}

/// The rows to insert when saving `history` over a table whose highest
/// stored position is `max_seq`: only the messages past it.
pub fn rows_to_save<X>(history: &Vec<Message<X>>, max_seq: Option<i32>) -> (rows: Vec<RowPlan>)
    requires
        max_seq != Some(i32::MAX),
    ensures
        planned_rows(history@, first_unsaved(max_seq) as int, rows@),
{
    let start: usize = match max_seq {
        Some(s) => (s + 1) as usize,
        None => 0,
    };
    rows_from(history, start)
}

/// The rows for every message from `start` on, under its position.
pub fn rows_from<X>(history: &Vec<Message<X>>, start: usize) -> (rows: Vec<RowPlan>)
    ensures
        planned_rows(history@, start as int, rows@),
{
    let mut rows: Vec<RowPlan> = Vec::new();
    let mut i = start;
    while i < history.len()
        invariant
            start <= i,
            i <= history@.len() || i == start,
            rows@.len() == i - start,
            forall|k: int| 0 <= k < rows@.len() ==> #[trigger] rows@[k].index == start + k,
            forall|k: int| 0 <= k < rows@.len() ==> #[trigger] rows@[k].seq == #[verifier::truncate] (rows@[k].index as i32),
            forall|k: int| 0 <= k < rows@.len() ==> #[trigger] rows@[k].role == role_of(history@[start + k]),
        decreases history@.len() - i,
    {
        let row = RowPlan { index: i, seq: #[verifier::truncate] (i as i32), role: message_role(&history[i]) };
        let ghost before = rows@;
        rows.push(row);
        proof {
            assert(rows@[rows@.len() - 1] == row);
            assert(forall|k: int| 0 <= k < before.len() ==> rows@[k] == before[k]);
        }
        i += 1;
    }
    rows
}

/// Whether a stored row cannot be read: its role is unknown or its message did not decode.
pub open spec fn row_fails<M>(row: (String, Result<M, AppError>)) -> bool {
    role_named(row.0@) is None || row.1 is Err
}

/// The error reading a failing row gives: the unknown role, or else the decoding error.
pub open spec fn row_error<M>(row: (String, Result<M, AppError>), e: AppError) -> bool {
    if role_named(row.0@) is None {
        e is SystemError && e.message() == unknown_role(row.0@)
    } else {
        e == row.1->Err_0
    }
}

/// Reads stored rows in order: each row's role must be known and its message
/// must have decoded; the first row that fails gives the error.
pub fn decode_rows<M>(rows: Vec<(String, Result<M, AppError>)>) -> (r: Result<Vec<M>, AppError>)
    ensures
        r is Ok <==> forall|k: int| 0 <= k < rows@.len() ==> !row_fails(#[trigger] rows@[k]),
        r matches Ok(v) ==> v@.len() == rows@.len() && forall|k: int|
            0 <= k < rows@.len() ==> rows@[k].1 == Ok::<M, AppError>(#[trigger] v@[k]),
        r matches Err(e) ==> exists|k: int|
            0 <= k < rows@.len() && row_fails(#[trigger] rows@[k]) && row_error(rows@[k], e)
                && forall|j: int| 0 <= j < k ==> !row_fails(#[trigger] rows@[j]),
{
    let ghost all = rows@;
    let total = rows.len();
    let mut rest = rows;
    let mut out: Vec<M> = Vec::new();
    let mut i: usize = 0;
    while rest.len() > 0
        invariant
            i + rest@.len() == all.len(),
            all.len() == total,
            all == rows@,
            rest@ == all.skip(i as int),
            out@.len() == i,
            forall|k: int| 0 <= k < i ==> !row_fails(#[trigger] all[k]),
            forall|k: int| 0 <= k < i ==> all[k].1 == Ok::<M, AppError>(#[trigger] out@[k]),
        decreases rest@.len(),
    {
        let (role, msg) = rest.remove(0);
        proof {
            assert(all[i as int] == (role, msg));
            assert(rest@ =~= all.skip(i + 1));
        }
        match MessageRole::parse_name(role.as_str()) {
            Err(e) => {
                let err = AppError::SystemError(e);
                assert(row_fails(all[i as int]) && row_error(all[i as int], err));
                assert(!(forall|k: int| 0 <= k < all.len() ==> !row_fails(#[trigger] all[k])));
                assert(exists|k: int|
                    0 <= k < all.len() && row_fails(#[trigger] all[k]) && row_error(all[k], err)
                        && forall|j: int| 0 <= j < k ==> !row_fails(#[trigger] all[j]));
                return Err(err);
            },
            Ok(_) => {},
        }
        match msg {
            Ok(m) => {
                out.push(m);
            },
            Err(e) => {
                assert(row_fails(all[i as int]) && row_error(all[i as int], e));
                assert(!(forall|k: int| 0 <= k < all.len() ==> !row_fails(#[trigger] all[k])));
                assert(exists|k: int|
                    0 <= k < all.len() && row_fails(#[trigger] all[k]) && row_error(all[k], e)
                        && forall|j: int| 0 <= j < k ==> !row_fails(#[trigger] all[j]));
                return Err(e);
            },
        }
        i += 1;
    }
    Ok(out)
}


/// Message of the error for a session that does not exist.
pub open spec fn session_not_found() -> Seq<char> {
    "Session not found"@
}

/// The error for a session that does not exist.
pub fn session_not_found_error() -> (e: AppError)
    ensures
        e is SystemError && e.message() == session_not_found(),
{
    AppError::SystemError(String::from_str("Session not found"))
}

/// An update or delete of a session must have touched a row; none means the session does not exist.
pub fn require_session_touched(rows_affected: usize) -> (r: Result<(), AppError>)
    ensures
        r is Ok <==> rows_affected > 0,
        r matches Err(e) ==> e is SystemError && e.message() == session_not_found(),
{
    if rows_affected == 0 {
        Err(session_not_found_error())
    } else {
        Ok(())
    }
}

/// The decimal representation of a signed integer, with a leading `-` when negative.
pub open spec fn signed_decimal(n: int) -> Seq<char> {
    if n < 0 {
        "-"@ + decimal((-n) as nat)
    } else {
        decimal(n as nat)
    }
}

/// The statement that renumbers the rows kept by a compaction: every
/// position drops by `up_to_seq`, so the first kept row comes right after
/// the summary at position 0.
pub open spec fn shift_statement(up_to_seq: i32) -> Seq<char> {
    "UPDATE session_messages SET seq = seq - "@ + signed_decimal(up_to_seq as int)
        + " WHERE session_id = ?1"@
}

/// The statement that renumbers the rows kept by a compaction.
pub fn compaction_shift_sql(up_to_seq: i32) -> (s: String)
    ensures
        s@ == shift_statement(up_to_seq),
{
    let mut s = String::from_str("UPDATE session_messages SET seq = seq - ");
    if up_to_seq < 0 {
        s.append("-");
        let magnitude: i64 = -(up_to_seq as i64);
        push_decimal(&mut s, magnitude as u64);
    } else {
        push_decimal(&mut s, up_to_seq as u64);
    }
    s.append(" WHERE session_id = ?1");
    s
}

/// Every role's stored name reads back as that role, and no two roles share a name.
pub proof fn law_role_names_read_back(r: MessageRole)
    ensures
        role_named(role_name(r)) == Some(r),
{
    reveal_strlit("User");
    reveal_strlit("Assistant");
    reveal_strlit("Tool");
    reveal_strlit("System");
    assert("User"@[0] != "Tool"@[0]);
    assert("User"@.len() != "Assistant"@.len());
    assert("User"@.len() != "System"@.len());
    assert("Assistant"@.len() != "Tool"@.len());
    assert("Assistant"@.len() != "System"@.len());
    assert("Tool"@.len() != "System"@.len());
    match r {
        MessageRole::User => {},
        MessageRole::Assistant => {},
        MessageRole::Tool => {},
        MessageRole::System => {},
    }
}

/// Saving a history again right after it was saved inserts nothing: each
/// message is stored once.
pub proof fn law_saved_history_not_saved_twice<X>(h: Seq<Message<X>>, rows: Seq<RowPlan>)
    requires
        1 <= h.len() <= i32::MAX + 1,
        planned_rows(h, first_unsaved(Some((h.len() - 1) as i32)) as int, rows),
    ensures
        rows.len() == 0,
{
}

/// A first save of a history inserts every message, each under its position.
pub proof fn law_first_save_stores_all<X>(h: Seq<Message<X>>, rows: Seq<RowPlan>, k: int)
    requires
        planned_rows(h, first_unsaved(None) as int, rows),
        0 <= k < h.len(),
    ensures
        rows.len() == h.len(),
        rows[k].index == k,
        rows[k].role == role_of(h[k]),
{
    assert(first_unsaved(None) == 0);
    assert(rows[k].index == 0 + k);
}

/// A stored message row of a session: its position and its message.
pub type StoredRow<X> = (int, Message<X>);

/// The rows a plan stores for history `h`.
pub open spec fn planned_table<X>(h: Seq<Message<X>>, rows: Seq<RowPlan>) -> Seq<StoredRow<X>> {
    rows.map_values(|r: RowPlan| (r.seq as int, h[r.index as int]))
}

/// The stored rows, in position order, hold `h`: message `k` at position `k`.
pub open spec fn holds_history<X>(t: Seq<StoredRow<X>>, h: Seq<Message<X>>) -> bool {
    &&& t.len() == h.len()
    &&& forall|k: int| 0 <= k < t.len() ==> #[trigger] t[k] == (k, h[k])
}

/// The messages the rows give back when read in position order.
pub open spec fn messages_of<X>(t: Seq<StoredRow<X>>) -> Seq<Message<X>> {
    t.map_values(|r: StoredRow<X>| r.1)
}

/// The highest stored position, if any row is stored (rows in position order).
pub open spec fn highest_stored<X>(t: Seq<StoredRow<X>>) -> Option<i32> {
    if t.len() == 0 {
        None
    } else {
        Some(t.last().0 as i32)
    }
}

/// Whether a row is kept by a compaction up to position `up_to`.
pub open spec fn kept_after<X>(up_to: int) -> spec_fn(StoredRow<X>) -> bool {
    |r: StoredRow<X>| r.0 > up_to
}

/// The rows after compacting up to position `up_to` with `summary`: the rows
/// at or before `up_to` are deleted, the others move down by `up_to`, and the
/// summary is stored at position 0.
pub open spec fn compacted<X>(t: Seq<StoredRow<X>>, summary: Message<X>, up_to: int) -> Seq<StoredRow<X>> {
    seq![(0int, summary)] + t.filter(kept_after(up_to)).map_values(|r: StoredRow<X>| (r.0 - up_to, r.1))
}

proof fn lemma_holds_reads_back<X>(t: Seq<StoredRow<X>>, h: Seq<Message<X>>)
    requires
        holds_history(t, h),
    ensures
        messages_of(t) == h,
{
    assert(messages_of(t) =~= h);
}

proof fn lemma_filter_positions<X>(t: Seq<StoredRow<X>>, up_to: int)
    requires
        forall|k: int| 0 <= k < t.len() ==> (#[trigger] t[k]).0 == k,
        0 <= up_to,
    ensures
        t.filter(kept_after(up_to)) == if up_to + 1 <= t.len() {
            t.skip(up_to + 1)
        } else {
            Seq::<StoredRow<X>>::empty()
        },
    decreases t.len(),
{
    broadcast use Seq::lemma_filter_push;
    if t.len() == 0 {
        assert(t.filter(kept_after(up_to)) =~= Seq::<StoredRow<X>>::empty());
    } else {
        let init = t.drop_last();
        assert forall|k: int| 0 <= k < init.len() implies (#[trigger] init[k]).0 == k by {
            assert(init[k] == t[k]);
        }
        lemma_filter_positions(init, up_to);
        assert(init.push(t.last()) =~= t);
        assert(t.last().0 == t.len() - 1);
        if up_to + 1 <= init.len() {
            assert(init.skip(up_to + 1).push(t.last()) =~= t.skip(up_to + 1));
        } else if up_to + 1 == t.len() {
            assert(t.skip(up_to + 1) =~= Seq::<StoredRow<X>>::empty());
        }
    }
}

/// Saving a history whose first messages are stored in order appends the
/// rest under the next positions: afterwards the rows hold the whole history,
/// message `k` at position `k`, the earlier rows untouched, and reading them
/// back gives the history.
pub proof fn law_save_appends_in_order<X>(t: Seq<StoredRow<X>>, h: Seq<Message<X>>, k: int, rows: Seq<RowPlan>)
    requires
        0 <= k <= h.len() <= i32::MAX as int + 1,
        holds_history(t, h.take(k)),
        planned_rows(h, first_unsaved(highest_stored(t)) as int, rows),
    ensures
        holds_history(t + planned_table(h, rows), h),
        (t + planned_table(h, rows)).take(t.len() as int) == t,
        messages_of(t + planned_table(h, rows)) == h,
{
    assert(first_unsaved(highest_stored(t)) == k) by {
        if k > 0 {
            assert(t.last() == (k - 1, h.take(k)[k - 1]));
        }
    }
    let u = t + planned_table(h, rows);
    assert forall|j: int| 0 <= j < u.len() implies #[trigger] u[j] == (j, h[j]) by {
        if j < k {
            assert(t[j] == (j, h.take(k)[j]));
        } else {
            assert(rows[j - k].index == k + (j - k));
            assert(rows[j - k].seq as int == j);
        }
    }
    assert(u.take(t.len() as int) =~= t);
    lemma_holds_reads_back(u, h);
}

/// A history read from the old single-record store is copied into rows, one
/// per message at its position, so reading the rows again gives the same
/// messages (and, rows being there, nothing is copied a second time).
pub proof fn law_backfill_reads_back<X>(h: Seq<Message<X>>, rows: Seq<RowPlan>)
    requires
        h.len() <= i32::MAX as int + 1,
        planned_rows(h, 0, rows),
    ensures
        holds_history(planned_table(h, rows), h),
        messages_of(planned_table(h, rows)) == h,
        h.len() > 0 ==> planned_table(h, rows).len() > 0,
{
    assert(h.take(0) =~= Seq::<Message<X>>::empty());
    let t = Seq::<StoredRow<X>>::empty();
    assert(first_unsaved(highest_stored(t)) == 0);
    law_save_appends_in_order(t, h, 0, rows);
    assert(t + planned_table(h, rows) =~= planned_table(h, rows));
}

/// Compacting a stored history up to position `up_to` leaves the summary at
/// position 0 followed by the messages after `up_to`, renumbered from 1 with
/// no gap and no two rows at one position.
pub proof fn law_compaction_renumbers<X>(t: Seq<StoredRow<X>>, h: Seq<Message<X>>, summary: Message<X>, up_to: int)
    requires
        holds_history(t, h),
        0 <= up_to < h.len(),
    ensures
        holds_history(compacted(t, summary, up_to), seq![summary] + h.skip(up_to + 1)),
        messages_of(compacted(t, summary, up_to)) == seq![summary] + h.skip(up_to + 1),
{
    lemma_filter_positions(t, up_to);
    let c = compacted(t, summary, up_to);
    let g = seq![summary] + h.skip(up_to + 1);
    assert forall|j: int| 0 <= j < c.len() implies #[trigger] c[j] == (j, g[j]) by {
        if j > 0 {
            assert(t.skip(up_to + 1)[j - 1] == t[up_to + j]);
            assert(t[up_to + j] == (up_to + j, h[up_to + j]));
        }
    }
    lemma_holds_reads_back(c, g);
}

} // verus!
