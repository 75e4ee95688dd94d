//! The tables of the storage engine as mathematical values, and what each
//! operation does to them.

use vstd::prelude::*;
use crate::models::TokenInfoView;
use crate::text::{lemma_text_le_total, lemma_text_le_transitive, text_le};

verus! {

/// One row of the requests table. Every column is text; headers, query
/// parameters and the parsed body are held as JSON.
pub struct RequestRowView {
    pub id: Seq<char>,
    pub date: Seq<char>,
    pub token_id: Seq<char>,
    pub method: Seq<char>,
    pub value: Seq<char>,
    pub headers: Seq<char>,
    pub query_parameters: Seq<char>,
    pub body: Option<Seq<char>>,
    pub body_object: Option<Seq<char>>,
    pub message: Option<Seq<char>>,
}

/// The two tables. Both list their rows newest first.
pub struct Store {
    pub tokens: Seq<TokenInfoView>,
    pub requests: Seq<RequestRowView>,
}

/// The creation time of a token.
pub open spec fn created_at() -> spec_fn(TokenInfoView) -> Seq<char> {
    |t: TokenInfoView| t.created_at
}

/// The capture time of a request.
pub open spec fn captured_at() -> spec_fn(RequestRowView) -> Seq<char> {
    |r: RequestRowView| r.date
}

/// The tokens other than `id`.
pub open spec fn other_than(id: Seq<char>) -> spec_fn(TokenInfoView) -> bool {
    |t: TokenInfoView| t.token != id
}

/// The requests that belong to the token `id`.
pub open spec fn owned_by(id: Seq<char>) -> spec_fn(RequestRowView) -> bool {
    |r: RequestRowView| r.token_id == id
}

/// The requests that belong to tokens other than `id`.
pub open spec fn not_owned_by(id: Seq<char>) -> spec_fn(RequestRowView) -> bool {
    |r: RequestRowView| r.token_id != id
}

/// Whether `rows` stand newest first: no row is older than a row after it.
pub open spec fn newest_first<T>(rows: Seq<T>, time: spec_fn(T) -> Seq<char>) -> bool {
    forall|i: int, j: int|
        0 <= i < j < rows.len() ==> text_le(time(#[trigger] rows[j]), time(#[trigger] rows[i]))
}

/// Where a row of time `at` goes: before the first row that is not newer.
/// Of rows of one time, the one stored last comes first.
pub open spec fn slot<T>(rows: Seq<T>, time: spec_fn(T) -> Seq<char>, at: Seq<char>) -> int
    decreases rows.len(),
{
    if rows.len() == 0 || text_le(time(rows[0]), at) {
        0
    } else {
        1 + slot(rows.drop_first(), time, at)
    }
}

impl Store {
    /// No tokens and no requests.
    pub open spec fn empty() -> Store {
        Store { tokens: Seq::empty(), requests: Seq::empty() }
    }

    /// Whether a token `id` is there.
    pub open spec fn has_token(self, id: Seq<char>) -> bool {
        exists|i: int| 0 <= i < self.tokens.len() && (#[trigger] self.tokens[i]).token == id
    }

    /// Whether a request `id` is there.
    pub open spec fn has_request(self, id: Seq<char>) -> bool {
        exists|i: int| 0 <= i < self.requests.len() && (#[trigger] self.requests[i]).id == id
    }

    /// What holds of the tables at all times: no identifier occurs twice,
    /// every request belongs to a token that is there, and both tables list
    /// their rows newest first.
    pub open spec fn wf(self) -> bool {
        &&& forall|i: int, j: int|
            0 <= i < j < self.tokens.len() ==> (#[trigger] self.tokens[i]).token
                != (#[trigger] self.tokens[j]).token
        &&& forall|i: int, j: int|
            0 <= i < j < self.requests.len() ==> (#[trigger] self.requests[i]).id
                != (#[trigger] self.requests[j]).id
        &&& forall|i: int|
            0 <= i < self.requests.len() ==> self.has_token((#[trigger] self.requests[i]).token_id)
        &&& newest_first(self.tokens, created_at())
        &&& newest_first(self.requests, captured_at())
    }

    /// The tables with the token `token` added.
    pub open spec fn with_token(self, token: TokenInfoView) -> Store {
        Store {
            tokens: self.tokens.insert(slot(self.tokens, created_at(), token.created_at), token),
            requests: self.requests,
        }
    }

    /// The tables without the token `id` and without its requests.
    pub open spec fn without_token(self, id: Seq<char>) -> Store {
        Store {
            tokens: self.tokens.filter(other_than(id)),
            requests: self.requests.filter(not_owned_by(id)),
        }
    }

    /// The tables with the request `row` added.
    pub open spec fn with_request(self, row: RequestRowView) -> Store {
        Store {
            tokens: self.tokens,
            requests: self.requests.insert(slot(self.requests, captured_at(), row.date), row),
        }
    }

    /// The requests of the token `id`, newest first.
    pub open spec fn requests_of(self, id: Seq<char>) -> Seq<RequestRowView> {
        self.requests.filter(owned_by(id))
    }

    /// The newest `limit` requests of the token `id`, or all of them where
    /// there are fewer.
    pub open spec fn newest_requests(self, id: Seq<char>, limit: nat) -> Seq<RequestRowView> {
        let all = self.requests_of(id);
        if limit < all.len() {
            all.take(limit as int)
        } else {
            all
        }
    }
}

/// `slot` stays within the rows; the rows before it are newer than `at`,
/// and the row at it is not.
pub proof fn lemma_slot<T>(rows: Seq<T>, time: spec_fn(T) -> Seq<char>, at: Seq<char>)
    ensures
        0 <= slot(rows, time, at) <= rows.len(),
        forall|j: int| 0 <= j < slot(rows, time, at) ==> !text_le(time(#[trigger] rows[j]), at),
        slot(rows, time, at) < rows.len() ==> text_le(time(rows[slot(rows, time, at)]), at),
    decreases rows.len(),
{
    if rows.len() == 0 || text_le(time(rows[0]), at) {
    } else {
        let rest = rows.drop_first();
        lemma_slot(rest, time, at);
        let k = slot(rows, time, at);
        assert forall|j: int| 0 <= j < k implies !text_le(time(#[trigger] rows[j]), at) by {
            if j > 0 {
                assert(rows[j] == rest[j - 1]);
            }
        }
        if k < rows.len() {
            assert(rows[k] == rest[k - 1]);
        }
    }
}

/// An index whose earlier rows are newer than `at`, and whose own row is
/// not, is `slot`.
pub proof fn lemma_slot_is<T>(rows: Seq<T>, time: spec_fn(T) -> Seq<char>, at: Seq<char>, k: int)
    requires
        0 <= k <= rows.len(),
        forall|j: int| 0 <= j < k ==> !text_le(time(#[trigger] rows[j]), at),
        k < rows.len() ==> text_le(time(rows[k]), at),
    ensures
        slot(rows, time, at) == k,
{
    lemma_slot(rows, time, at);
    let s = slot(rows, time, at);
    if s < k {
        assert(!text_le(time(rows[s]), at));
    } else if k < s {
        assert(!text_le(time(rows[k]), at));
    }
}

/// A row put at its slot leaves the rows newest first.
pub proof fn lemma_insert_keeps_order<T>(rows: Seq<T>, time: spec_fn(T) -> Seq<char>, row: T)
    requires
        newest_first(rows, time),
    ensures
        newest_first(rows.insert(slot(rows, time, time(row)), row), time),
{
    let at = time(row);
    let k = slot(rows, time, at);
    lemma_slot(rows, time, at);
    let after = rows.insert(k, row);
    assert forall|i: int, j: int| 0 <= i < j < after.len() implies text_le(
        time(#[trigger] after[j]),
        time(#[trigger] after[i]),
    ) by {
        if j < k {
            assert(after[i] == rows[i] && after[j] == rows[j]);
        } else if j == k {
            assert(after[i] == rows[i]);
            assert(!text_le(time(rows[i]), at));
            lemma_text_le_total(time(rows[i]), at);
        } else if i < k {
            assert(after[i] == rows[i] && after[j] == rows[j - 1]);
        } else if i == k {
            assert(after[j] == rows[j - 1]);
            if j - 1 > k {
                assert(text_le(time(rows[j - 1]), time(rows[k])));
                lemma_text_le_transitive(time(rows[j - 1]), time(rows[k]), at);
            }
        } else {
            assert(after[i] == rows[i - 1] && after[j] == rows[j - 1]);
        }
    }
}

/// Each row that a filter keeps is a row of the table that meets the test.
pub proof fn lemma_filter_source<T>(rows: Seq<T>, keep: spec_fn(T) -> bool, a: int)
    requires
        0 <= a < rows.filter(keep).len(),
    ensures
        exists|i: int| 0 <= i < rows.len() && #[trigger] rows[i] == rows.filter(keep)[a] && keep(rows[i]),
    decreases rows.len(),
{
    reveal(Seq::filter);
    if rows.len() > 0 {
        let front = rows.drop_last();
        let kept = front.filter(keep);
        if a < kept.len() {
            lemma_filter_source(front, keep, a);
            let i = choose|i: int| 0 <= i < front.len() && #[trigger] front[i] == kept[a] && keep(front[i]);
            assert(rows[i] == front[i]);
        } else {
            assert(rows[rows.len() - 1] == rows.filter(keep)[a]);
        }
    }
}

/// Two rows that a filter keeps stand in the table in the same order.
pub proof fn lemma_filter_order<T>(rows: Seq<T>, keep: spec_fn(T) -> bool, a: int, b: int)
    requires
        0 <= a < b < rows.filter(keep).len(),
    ensures
        exists|i: int, j: int|
            0 <= i < j < rows.len() && #[trigger] rows[i] == rows.filter(keep)[a]
                && #[trigger] rows[j] == rows.filter(keep)[b],
    decreases rows.len(),
{
    reveal(Seq::filter);
    if rows.len() > 0 {
        let front = rows.drop_last();
        let kept = front.filter(keep);
        if b < kept.len() {
            lemma_filter_order(front, keep, a, b);
            let (i, j) = choose|i: int, j: int|
                0 <= i < j < front.len() && #[trigger] front[i] == kept[a] && #[trigger] front[j]
                    == kept[b];
            assert(rows[i] == front[i] && rows[j] == front[j]);
        } else {
            lemma_filter_source(front, keep, a);
            let i = choose|i: int| 0 <= i < front.len() && #[trigger] front[i] == kept[a] && keep(front[i]);
            assert(rows[i] == front[i]);
            assert(rows[rows.len() - 1] == rows.filter(keep)[b]);
        }
    }
}

/// Each row of the table that meets the test is kept.
pub proof fn lemma_filter_keeps<T>(rows: Seq<T>, keep: spec_fn(T) -> bool, i: int)
    requires
        0 <= i < rows.len(),
        keep(rows[i]),
    ensures
        exists|a: int| 0 <= a < rows.filter(keep).len() && #[trigger] rows.filter(keep)[a] == rows[i],
    decreases rows.len(),
{
    reveal(Seq::filter);
    let front = rows.drop_last();
    let kept = front.filter(keep);
    if i < rows.len() - 1 {
        lemma_filter_keeps(front, keep, i);
        let a = choose|a: int| 0 <= a < kept.len() && #[trigger] kept[a] == front[i];
        assert(rows.filter(keep)[a] == rows[i]);
    } else {
        assert(rows.filter(keep)[kept.len() as int] == rows[i]);
    }
}

/// A filter leaves the rows newest first.
pub proof fn lemma_filter_keeps_order<T>(
    rows: Seq<T>,
    time: spec_fn(T) -> Seq<char>,
    keep: spec_fn(T) -> bool,
)
    requires
        newest_first(rows, time),
    ensures
        newest_first(rows.filter(keep), time),
{
    let kept = rows.filter(keep);
    assert forall|a: int, b: int| 0 <= a < b < kept.len() implies text_le(
        time(#[trigger] kept[b]),
        time(#[trigger] kept[a]),
    ) by {
        lemma_filter_order(rows, keep, a, b);
        let (i, j) = choose|i: int, j: int|
            0 <= i < j < rows.len() && #[trigger] rows[i] == kept[a] && #[trigger] rows[j]
                == kept[b];
        assert(text_le(time(rows[j]), time(rows[i])));
    }
}

/// A filter that keeps every row changes nothing.
pub proof fn lemma_filter_all<T>(rows: Seq<T>, keep: spec_fn(T) -> bool)
    requires
        forall|i: int| 0 <= i < rows.len() ==> keep(#[trigger] rows[i]),
    ensures
        rows.filter(keep) == rows,
    decreases rows.len(),
{
    reveal(Seq::filter);
    if rows.len() > 0 {
        let front = rows.drop_last();
        assert forall|i: int| 0 <= i < front.len() implies keep(#[trigger] front[i]) by {
            assert(front[i] == rows[i]);
        }
        lemma_filter_all(front, keep);
        assert(front.push(rows.last()) =~= rows);
    }
}

/// A filter that keeps no row leaves none.
pub proof fn lemma_filter_none<T>(rows: Seq<T>, keep: spec_fn(T) -> bool)
    requires
        forall|i: int| 0 <= i < rows.len() ==> !keep(#[trigger] rows[i]),
    ensures
        rows.filter(keep) == Seq::<T>::empty(),
    decreases rows.len(),
{
    reveal(Seq::filter);
    if rows.len() > 0 {
        let front = rows.drop_last();
        assert forall|i: int| 0 <= i < front.len() implies !keep(#[trigger] front[i]) by {
            assert(front[i] == rows[i]);
        }
        lemma_filter_none(front, keep);
    } else {
        assert(rows =~= Seq::<T>::empty());
    }
}

/// The filtered rows of a table with one row more.
pub proof fn lemma_filter_insert<T>(rows: Seq<T>, keep: spec_fn(T) -> bool, k: int, row: T)
    requires
        0 <= k <= rows.len(),
    ensures
        rows.insert(k, row).filter(keep) == rows.take(k).filter(keep) + (if keep(row) {
            seq![row]
        } else {
            Seq::empty()
        }) + rows.skip(k).filter(keep),
        rows.filter(keep) == rows.take(k).filter(keep) + rows.skip(k).filter(keep),
{
    let head = rows.take(k);
    let tail = rows.skip(k);
    assert(rows.insert(k, row) =~= head + (seq![row] + tail));
    assert(rows =~= head + tail);
    Seq::filter_distributes_over_add(head, seq![row] + tail, keep);
    Seq::filter_distributes_over_add(head, tail, keep);
    tail.lemma_filter_prepend(row, keep);
    assert(head.filter(keep) + ((if keep(row) {
        seq![row]
    } else {
        Seq::empty()
    }) + tail.filter(keep)) =~= head.filter(keep) + (if keep(row) {
        seq![row]
    } else {
        Seq::empty()
    }) + tail.filter(keep));
}

/// The empty tables are well formed.
pub proof fn empty_store_is_well_formed()
    ensures
        Store::empty().wf(),
{
}

/// A token whose identifier is new leaves the tables well formed.
pub proof fn with_token_keeps_well_formed(s: Store, token: TokenInfoView)
    requires
        s.wf(),
        !s.has_token(token.token),
    ensures
        s.with_token(token).wf(),
{
    let k = slot(s.tokens, created_at(), token.created_at);
    lemma_slot(s.tokens, created_at(), token.created_at);
    lemma_insert_keeps_order(s.tokens, created_at(), token);
    let after = s.with_token(token);
    assert forall|i: int, j: int| 0 <= i < j < after.tokens.len() implies (
    #[trigger] after.tokens[i]).token != (#[trigger] after.tokens[j]).token by {
        let a = if i < k { i } else { i - 1 };
        let b = if j < k { j } else { j - 1 };
        if i != k && j != k {
            assert(after.tokens[i] == s.tokens[a] && after.tokens[j] == s.tokens[b]);
        } else if i == k {
            assert(after.tokens[j] == s.tokens[b]);
        } else {
            assert(after.tokens[i] == s.tokens[a]);
        }
    }
    assert forall|i: int| 0 <= i < after.requests.len() implies after.has_token(
        (#[trigger] after.requests[i]).token_id,
    ) by {
        let id = s.requests[i].token_id;
        assert(s.has_token(id));
        let a = choose|a: int| 0 <= a < s.tokens.len() && (#[trigger] s.tokens[a]).token == id;
        let b = if a < k { a } else { a + 1 };
        assert(after.tokens[b] == s.tokens[a]);
    }
}

/// A token that was created is there, and is listed as it was given.
pub proof fn created_token_is_listed(s: Store, token: TokenInfoView)
    ensures
        s.with_token(token).has_token(token.token),
        s.with_token(token).tokens.contains(token),
        s.with_token(token).tokens.len() == s.tokens.len() + 1,
{
    let k = slot(s.tokens, created_at(), token.created_at);
    lemma_slot(s.tokens, created_at(), token.created_at);
    let after = s.with_token(token);
    assert(after.tokens[k] == token);
}

/// The tokens that were there stay there when another is created.
pub proof fn created_token_keeps_others(s: Store, token: TokenInfoView, id: Seq<char>)
    requires
        s.has_token(id),
    ensures
        s.with_token(token).has_token(id),
        s.with_token(token).requests == s.requests,
{
    let k = slot(s.tokens, created_at(), token.created_at);
    lemma_slot(s.tokens, created_at(), token.created_at);
    let a = choose|a: int| 0 <= a < s.tokens.len() && (#[trigger] s.tokens[a]).token == id;
    let b = if a < k { a } else { a + 1 };
    assert(s.with_token(token).tokens[b] == s.tokens[a]);
}

/// Deleting a token leaves the tables well formed.
pub proof fn without_token_keeps_well_formed(s: Store, id: Seq<char>)
    requires
        s.wf(),
    ensures
        s.without_token(id).wf(),
{
    let after = s.without_token(id);
    lemma_filter_keeps_order(s.tokens, created_at(), other_than(id));
    lemma_filter_keeps_order(s.requests, captured_at(), not_owned_by(id));
    assert forall|a: int, b: int| 0 <= a < b < after.tokens.len() implies (
    #[trigger] after.tokens[a]).token != (#[trigger] after.tokens[b]).token by {
        lemma_filter_order(s.tokens, other_than(id), a, b);
        let (i, j) = choose|i: int, j: int|
            0 <= i < j < s.tokens.len() && #[trigger] s.tokens[i] == after.tokens[a]
                && #[trigger] s.tokens[j] == after.tokens[b];
        assert(s.tokens[i].token != s.tokens[j].token);
    }
    assert forall|a: int, b: int| 0 <= a < b < after.requests.len() implies (
    #[trigger] after.requests[a]).id != (#[trigger] after.requests[b]).id by {
        lemma_filter_order(s.requests, not_owned_by(id), a, b);
        let (i, j) = choose|i: int, j: int|
            0 <= i < j < s.requests.len() && #[trigger] s.requests[i] == after.requests[a]
                && #[trigger] s.requests[j] == after.requests[b];
        assert(s.requests[i].id != s.requests[j].id);
    }
    assert forall|a: int| 0 <= a < after.requests.len() implies after.has_token(
        (#[trigger] after.requests[a]).token_id,
    ) by {
        lemma_filter_source(s.requests, not_owned_by(id), a);
        let i = choose|i: int|
            0 <= i < s.requests.len() && #[trigger] s.requests[i] == after.requests[a]
                && not_owned_by(id)(s.requests[i]);
        let owner = s.requests[i].token_id;
        assert(s.has_token(owner));
        let t = choose|t: int| 0 <= t < s.tokens.len() && (#[trigger] s.tokens[t]).token == owner;
        assert(other_than(id)(s.tokens[t]));
        lemma_filter_keeps(s.tokens, other_than(id), t);
        let u = choose|u: int|
            0 <= u < after.tokens.len() && #[trigger] after.tokens[u] == s.tokens[t];
        assert(after.tokens[u].token == owner);
    }
}

/// After a token is deleted it is not there, and it has no requests left,
/// whatever it had before.
pub proof fn deleted_token_is_gone(s: Store, id: Seq<char>, limit: nat)
    ensures
        !s.without_token(id).has_token(id),
        s.without_token(id).requests_of(id) == Seq::<RequestRowView>::empty(),
        s.without_token(id).newest_requests(id, limit) == Seq::<RequestRowView>::empty(),
{
    let after = s.without_token(id);
    if after.has_token(id) {
        let a = choose|a: int| 0 <= a < after.tokens.len() && (#[trigger] after.tokens[a]).token == id;
        lemma_filter_source(s.tokens, other_than(id), a);
    }
    assert forall|a: int| 0 <= a < after.requests.len() implies !owned_by(id)(
        #[trigger] after.requests[a],
    ) by {
        lemma_filter_source(s.requests, not_owned_by(id), a);
    }
    lemma_filter_none(after.requests, owned_by(id));
}

/// Deleting a token a second time changes nothing.
pub proof fn delete_twice_is_delete_once(s: Store, id: Seq<char>)
    ensures
        s.without_token(id).without_token(id) == s.without_token(id),
{
    let once = s.without_token(id);
    assert forall|a: int| 0 <= a < once.tokens.len() implies other_than(id)(
        #[trigger] once.tokens[a],
    ) by {
        lemma_filter_source(s.tokens, other_than(id), a);
    }
    assert forall|a: int| 0 <= a < once.requests.len() implies not_owned_by(id)(
        #[trigger] once.requests[a],
    ) by {
        lemma_filter_source(s.requests, not_owned_by(id), a);
    }
    lemma_filter_all(once.tokens, other_than(id));
    lemma_filter_all(once.requests, not_owned_by(id));
}

/// Deleting a token that is not there changes nothing.
pub proof fn delete_of_absent_token_changes_nothing(s: Store, id: Seq<char>)
    requires
        s.wf(),
        !s.has_token(id),
    ensures
        s.without_token(id) == s,
{
    assert forall|i: int| 0 <= i < s.requests.len() implies not_owned_by(id)(
        #[trigger] s.requests[i],
    ) by {
        assert(s.has_token(s.requests[i].token_id));
    }
    lemma_filter_all(s.tokens, other_than(id));
    lemma_filter_all(s.requests, not_owned_by(id));
}

/// Deleting a token leaves every other token, and its requests, as they
/// were.
pub proof fn delete_keeps_other_tokens(s: Store, id: Seq<char>, other: Seq<char>)
    requires
        other != id,
    ensures
        s.without_token(id).has_token(other) == s.has_token(other),
        s.without_token(id).requests_of(other) == s.requests_of(other),
{
    let after = s.without_token(id);
    if s.has_token(other) {
        let t = choose|t: int| 0 <= t < s.tokens.len() && (#[trigger] s.tokens[t]).token == other;
        lemma_filter_keeps(s.tokens, other_than(id), t);
        let u = choose|u: int|
            0 <= u < after.tokens.len() && #[trigger] after.tokens[u] == s.tokens[t];
        assert(after.tokens[u].token == other);
    }
    if after.has_token(other) {
        let a = choose|a: int|
            0 <= a < after.tokens.len() && (#[trigger] after.tokens[a]).token == other;
        lemma_filter_source(s.tokens, other_than(id), a);
    }
    lemma_filter_twice(s.requests, not_owned_by(id), owned_by(other));
}

/// A filter after a filter that keeps all that the second keeps is the
/// second filter alone.
pub proof fn lemma_filter_twice<T>(rows: Seq<T>, first: spec_fn(T) -> bool, second: spec_fn(T) -> bool)
    requires
        forall|x: T| #[trigger] second(x) ==> first(x),
    ensures
        rows.filter(first).filter(second) == rows.filter(second),
    decreases rows.len(),
{
    reveal(Seq::filter);
    if rows.len() > 0 {
        let front = rows.drop_last();
        lemma_filter_twice(front, first, second);
        if first(rows.last()) {
            assert(front.filter(first).push(rows.last()).drop_last() =~= front.filter(first));
        }
    } else {
        assert(rows.filter(first) =~= Seq::<T>::empty());
    }
}

/// A request with a new identifier, for a token that is there, leaves the
/// tables well formed.
pub proof fn with_request_keeps_well_formed(s: Store, row: RequestRowView)
    requires
        s.wf(),
        s.has_token(row.token_id),
        !s.has_request(row.id),
    ensures
        s.with_request(row).wf(),
{
    let k = slot(s.requests, captured_at(), row.date);
    lemma_slot(s.requests, captured_at(), row.date);
    lemma_insert_keeps_order(s.requests, captured_at(), row);
    let after = s.with_request(row);
    assert forall|i: int, j: int| 0 <= i < j < after.requests.len() implies (
    #[trigger] after.requests[i]).id != (#[trigger] after.requests[j]).id by {
        let a = if i < k { i } else { i - 1 };
        let b = if j < k { j } else { j - 1 };
        if i != k && j != k {
            assert(after.requests[i] == s.requests[a] && after.requests[j] == s.requests[b]);
        } else if i == k {
            assert(after.requests[j] == s.requests[b]);
        } else {
            assert(after.requests[i] == s.requests[a]);
        }
    }
    assert forall|i: int| 0 <= i < after.requests.len() implies after.has_token(
        (#[trigger] after.requests[i]).token_id,
    ) by {
        if i != k {
            let a = if i < k { i } else { i - 1 };
            assert(after.requests[i] == s.requests[a]);
        } else {
            assert(after.requests[i] == row);
        }
        let owner = after.requests[i].token_id;
        assert(s.has_token(owner));
        let t = choose|t: int| 0 <= t < s.tokens.len() && (#[trigger] s.tokens[t]).token == owner;
        assert(after.tokens[t].token == owner);
    }
}

/// A stored request is there, among the requests of its token.
pub proof fn stored_request_is_kept(s: Store, row: RequestRowView)
    ensures
        s.with_request(row).has_request(row.id),
        s.with_request(row).requests_of(row.token_id).contains(row),
        s.with_request(row).requests_of(row.token_id).len() == s.requests_of(row.token_id).len() + 1,
        s.with_request(row).tokens == s.tokens,
{
    let k = slot(s.requests, captured_at(), row.date);
    lemma_slot(s.requests, captured_at(), row.date);
    let after = s.with_request(row);
    assert(after.requests[k] == row);
    lemma_filter_insert(s.requests, owned_by(row.token_id), k, row);
    let head = s.requests.take(k).filter(owned_by(row.token_id));
    assert(after.requests_of(row.token_id)[head.len() as int] == row);
}

/// A stored request leaves every request that was there before it.
pub proof fn stored_request_keeps_earlier_requests(s: Store, row: RequestRowView, i: int)
    requires
        0 <= i < s.requests.len(),
    ensures
        s.with_request(row).requests.contains(s.requests[i]),
        s.with_request(row).requests.len() == s.requests.len() + 1,
{
    let k = slot(s.requests, captured_at(), row.date);
    lemma_slot(s.requests, captured_at(), row.date);
    let after = s.with_request(row);
    let j = if i < k { i } else { i + 1 };
    assert(after.requests[j] == s.requests[i]);
}

/// A stored request leaves the requests of other tokens as they were.
pub proof fn stored_request_keeps_other_tokens(s: Store, row: RequestRowView, other: Seq<char>)
    requires
        other != row.token_id,
    ensures
        s.with_request(row).requests_of(other) == s.requests_of(other),
{
    let k = slot(s.requests, captured_at(), row.date);
    lemma_slot(s.requests, captured_at(), row.date);
    lemma_filter_insert(s.requests, owned_by(other), k, row);
    assert(s.requests.take(k).filter(owned_by(other)) + Seq::<RequestRowView>::empty()
        =~= s.requests.take(k).filter(owned_by(other)));
}

/// Requests are read back newest first, and no more of them than were
/// asked for.
pub proof fn requests_come_newest_first(s: Store, id: Seq<char>, limit: nat)
    requires
        s.wf(),
    ensures
        newest_first(s.newest_requests(id, limit), captured_at()),
        s.newest_requests(id, limit).len() <= limit,
        s.newest_requests(id, limit).len() <= s.requests_of(id).len(),
{
    lemma_filter_keeps_order(s.requests, captured_at(), owned_by(id));
    let all = s.requests_of(id);
    let got = s.newest_requests(id, limit);
    assert forall|i: int, j: int| 0 <= i < j < got.len() implies text_le(
        captured_at()(#[trigger] got[j]),
        captured_at()(#[trigger] got[i]),
    ) by {
        assert(got[i] == all[i] && got[j] == all[j]);
    }
}

/// A request that is no older than any request stored before it is read
/// back first, before those that its token had, in their earlier order.
pub proof fn latest_request_comes_first(s: Store, row: RequestRowView)
    requires
        forall|i: int| 0 <= i < s.requests.len() ==> text_le((#[trigger] s.requests[i]).date, row.date),
    ensures
        s.with_request(row).requests_of(row.token_id) == seq![row] + s.requests_of(row.token_id),
{
    lemma_slot(s.requests, captured_at(), row.date);
    let k = slot(s.requests, captured_at(), row.date);
    if k > 0 {
        assert(!text_le(captured_at()(s.requests[0]), row.date));
    }
    lemma_filter_insert(s.requests, owned_by(row.token_id), 0, row);
    assert(s.requests.take(0) =~= Seq::<RequestRowView>::empty());
    lemma_filter_none(s.requests.take(0), owned_by(row.token_id));
    assert(s.requests.skip(0) =~= s.requests);
    assert(Seq::<RequestRowView>::empty() + seq![row] + s.requests_of(row.token_id) =~= seq![row]
        + s.requests_of(row.token_id));
}

/// The first request that is stored for a token is the one request that is
/// read back for it.
pub proof fn only_request_is_read_back(s: Store, row: RequestRowView, limit: nat)
    requires
        s.requests_of(row.token_id).len() == 0,
        limit >= 1,
    ensures
        s.with_request(row).requests_of(row.token_id) == seq![row],
        s.with_request(row).newest_requests(row.token_id, limit) == seq![row],
{
    let k = slot(s.requests, captured_at(), row.date);
    lemma_slot(s.requests, captured_at(), row.date);
    let keep = owned_by(row.token_id);
    lemma_filter_insert(s.requests, keep, k, row);
    let head = s.requests.take(k).filter(keep);
    let tail = s.requests.skip(k).filter(keep);
    assert(head.len() == 0 && tail.len() == 0) by {
        assert((head + tail).len() == head.len() + tail.len());
    }
    assert(head + seq![row] + tail =~= seq![row]);
}

/// A request that is no older than any request stored before it leaves
/// every stored request no newer than itself.
proof fn lemma_latest_stays_latest(s: Store, row: RequestRowView, later: Seq<char>)
    requires
        forall|i: int| 0 <= i < s.requests.len() ==> text_le((#[trigger] s.requests[i]).date, row.date),
        text_le(row.date, later),
    ensures
        forall|i: int|
            0 <= i < s.with_request(row).requests.len() ==> text_le(
                (#[trigger] s.with_request(row).requests[i]).date,
                later,
            ),
{
    let k = slot(s.requests, captured_at(), row.date);
    lemma_slot(s.requests, captured_at(), row.date);
    let after = s.with_request(row);
    assert forall|i: int| 0 <= i < after.requests.len() implies text_le(
        (#[trigger] after.requests[i]).date,
        later,
    ) by {
        if i == k {
            assert(after.requests[i] == row);
        } else {
            let j = if i < k { i } else { i - 1 };
            assert(after.requests[i] == s.requests[j]);
            lemma_text_le_transitive(s.requests[j].date, row.date, later);
        }
    }
}

/// Three requests of one token, stored one after another, none older than
/// what was stored before it, are read back newest first: the third, the
/// second, the first.
pub proof fn three_requests_come_back_newest_first(
    s: Store,
    first: RequestRowView,
    second: RequestRowView,
    third: RequestRowView,
)
    requires
        second.token_id == first.token_id,
        third.token_id == first.token_id,
        forall|i: int| 0 <= i < s.requests.len() ==> text_le((#[trigger] s.requests[i]).date, first.date),
        text_le(first.date, second.date),
        text_le(second.date, third.date),
    ensures
        s.with_request(first).with_request(second).with_request(third).newest_requests(
            first.token_id,
            3,
        ) == seq![third, second, first],
{
    let token = first.token_id;
    let s1 = s.with_request(first);
    let s2 = s1.with_request(second);
    let s3 = s2.with_request(third);
    latest_request_comes_first(s, first);
    lemma_latest_stays_latest(s, first, second.date);
    latest_request_comes_first(s1, second);
    lemma_latest_stays_latest(s1, second, third.date);
    latest_request_comes_first(s2, third);
    let earlier = s.requests_of(token);
    assert(s3.requests_of(token) =~= seq![third, second, first] + earlier);
    assert((seq![third, second, first] + earlier).take(3) =~= seq![third, second, first]);
    if earlier.len() == 0 {
        assert(seq![third, second, first] + earlier =~= seq![third, second, first]);
    }
}

} // verus!
