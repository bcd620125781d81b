//! Replay detection: finding in the transfer log the earlier transfer that a
//! dated request repeats.

use crate::config::Config;
use crate::ledger::{log_view, Ledger, TransferLog, TransferLogView};
use crate::types::{blob_view, Account, Blob};
use vstd::prelude::*;

verus! {

/// The first position of `s` whose element satisfies `p`, if there is one.
pub open spec fn first_where<T>(s: Seq<T>, p: spec_fn(T) -> bool) -> Option<int>
    decreases s.len(),
{
    if s.len() == 0 {
        None
    } else {
        match first_where(s.drop_last(), p) {
            Some(i) => Some(i),
            None => if p(s.last()) {
                Some(s.len() - 1)
            } else {
                None
            },
        }
    }
}

/// `first_where` finds a position that satisfies `p` and has none before it
/// that does, and finds none only where no position does.
pub proof fn lemma_first_where<T>(s: Seq<T>, p: spec_fn(T) -> bool)
    ensures
        match first_where(s, p) {
            Some(i) => 0 <= i < s.len() && p(s[i]) && forall|j: int| 0 <= j < i ==> !p(#[trigger] s[j]),
            None => forall|j: int| 0 <= j < s.len() ==> !p(#[trigger] s[j]),
        },
    decreases s.len(),
{
    if s.len() > 0 {
        lemma_first_where(s.drop_last(), p);
        assert forall|j: int| 0 <= j < s.len() - 1 implies s.drop_last()[j] == s[j] by {}
        match first_where(s.drop_last(), p) {
            Some(i) => {
                assert(s.drop_last()[i] == s[i]);
                assert forall|j: int| 0 <= j < i implies !p(#[trigger] s[j]) by {
                    assert(s.drop_last()[j] == s[j]);
                }
            },
            None => {
                assert forall|j: int| 0 <= j < s.len() - 1 implies !p(#[trigger] s[j]) by {
                    assert(s.drop_last()[j] == s[j]);
                }
            },
        }
    }
}

/// The position that satisfies `p` with none before it that does is the one
/// that `first_where` finds.
pub proof fn lemma_first_where_is<T>(s: Seq<T>, p: spec_fn(T) -> bool, i: int)
    requires
        0 <= i < s.len(),
        p(s[i]),
        forall|j: int| 0 <= j < i ==> !p(#[trigger] s[j]),
    ensures
        first_where(s, p) == Some(i),
{
    lemma_first_where(s, p);
}

/// Where no position satisfies `p`, `first_where` finds none.
pub proof fn lemma_first_where_none<T>(s: Seq<T>, p: spec_fn(T) -> bool)
    requires
        forall|j: int| 0 <= j < s.len() ==> !p(#[trigger] s[j]),
    ensures
        first_where(s, p) is None,
{
    lemma_first_where(s, p);
}

/// Whether a log entry records the very transfer that a request dated
/// `created_at` asks for, and is younger than `floor`.
pub open spec fn replays(
    entry: TransferLogView,
    floor: int,
    created_at: u64,
    memo: Option<Seq<u8>>,
    id: u128,
    from: Account,
    to: Account,
) -> bool {
    &&& entry.at > floor
    &&& entry.id == id
    &&& entry.at == created_at
    &&& entry.memo == memo
    &&& entry.from == from
    &&& entry.to == to
}

/// `replays` as a predicate on log entries.
pub open spec fn replayed(
    floor: int,
    created_at: u64,
    memo: Option<Seq<u8>>,
    id: u128,
    from: Account,
    to: Account,
) -> spec_fn(TransferLogView) -> bool {
    |entry: TransferLogView| replays(entry, floor, created_at, memo, id, from, to)
}

/// Whether two byte strings hold the same.
fn blob_eq(a: &Blob, b: &Blob) -> (r: bool)
    ensures
        r == (a@ == b@),
{
    if a.len() != b.len() {
        return false;
    }
    let mut i: usize = 0;
    while i < a.len()
        invariant
            i <= a@.len(),
            a@.len() == b@.len(),
            forall|j: int| 0 <= j < i ==> a@[j] == b@[j],
        decreases a@.len() - i,
    {
        if a[i] != b[i] {
            return false;
        }
        i += 1;
    }
    assert(a@ =~= b@);
    true
}

/// Whether two optional byte strings hold the same.
fn memo_eq(a: &Option<Blob>, b: &Option<Blob>) -> (r: bool)
    ensures
        r == (blob_view(*a) == blob_view(*b)),
{
    match (a, b) {
        (None, None) => true,
        (Some(x), Some(y)) => blob_eq(x, y),
        _ => false,
    }
}

/// The first entry of `log` that `replays` the request, with a `floor` that
/// may lie before the first instant a timestamp can name.
pub(crate) fn find_replay(
    log: &Vec<TransferLog>,
    floor: i128,
    created_at: u64,
    memo: &Option<Blob>,
    id: u128,
    from: &Account,
    to: &Account,
) -> (r: Option<usize>)
    ensures
        match r {
            Some(k) => first_where(
                log_view(log@),
                replayed(floor as int, created_at, blob_view(*memo), id, *from, *to),
            ) == Some(k as int),
            None => first_where(
                log_view(log@),
                replayed(floor as int, created_at, blob_view(*memo), id, *from, *to),
            ) is None,
        },
{
    let ghost p = replayed(floor as int, created_at, blob_view(*memo), id, *from, *to);
    let mut i: usize = 0;
    while i < log.len()
        invariant
            i <= log@.len(),
            p == replayed(floor as int, created_at, blob_view(*memo), id, *from, *to),
            forall|j: int| 0 <= j < i ==> !p(#[trigger] log_view(log@)[j]),
        decreases log@.len() - i,
    {
        let entry = &log[i];
        if entry.at as i128 > floor && entry.id == id && entry.at == created_at && memo_eq(
            &entry.memo,
            memo,
        ) && entry.from == *from && entry.to == *to {
            proof {
                assert(log_view(log@)[i as int] == log@[i as int]@);
                lemma_first_where_is(log_view(log@), p, i as int);
            }
            return Some(i);
        }
        assert(log_view(log@)[i as int] == log@[i as int]@);
        i += 1;
    }
    proof {
        lemma_first_where_none(log_view(log@), p);
    }
    None
}

impl Config {
    /// The first logged transfer younger than `permitted_past_time` that
    /// moved the token `id` at `created_at_time` with this memo from `caller`
    /// to `to`.
    pub fn tx_deduplication_check(
        &self,
        ledger: &Ledger,
        permitted_past_time: u64,
        created_at_time: u64,
        memo: &Option<Blob>,
        id: u128,
        caller: &Account,
        to: &Account,
    ) -> (r: Option<usize>)
        ensures
            match r {
                Some(k) => first_where(
                    ledger@.log,
                    replayed(
                        permitted_past_time as int,
                        created_at_time,
                        blob_view(*memo),
                        id,
                        *caller,
                        *to,
                    ),
                ) == Some(k as int),
                None => first_where(
                    ledger@.log,
                    replayed(
                        permitted_past_time as int,
                        created_at_time,
                        blob_view(*memo),
                        id,
                        *caller,
                        *to,
                    ),
                ) is None,
            },
    {
        find_replay(&ledger.log, permitted_past_time as i128, created_at_time, memo, id, caller, to)
    }
}

} // verus!
