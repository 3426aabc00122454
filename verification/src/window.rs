//! A settlement step reads a part of the store only.
//!
//! Of the ledger it reads the first rows, as many as its limit; of the offer, the
//! tokens that the registry named. So a caller that keeps the store elsewhere may
//! hand the step that part alone, and put back what the step changed in it: the
//! cost of a step is bounded by its limit, however large the store is.

use crate::contract::taken;
use crate::entry::reads_tokens;
use crate::ledger::{
    drop_entries, ledger_wf, lemma_flat_nonempty, lemma_flat_prefix, lemma_wf_drop_first,
    row_keys, take_entries, RowView,
};
use crate::msg::{EnvView, ExecuteMsg, InfoView};
use crate::order::ascending;
use crate::settlement::{batch_limit, end_sale_outcome, first};
use crate::settling::lemma_taken_contains;
use crate::state::StoreView;
use crate::tokens::lemma_without_key;
use vstd::prelude::*;

verus! {

/// The store `part` holds what a settlement step with `limit`, answered with
/// `owned`, reads of the store `s`: the first rows of the ledger, as many as the
/// limit; of the offer, tokens of `s` only, and every token that the step may
/// release; and everything else as `s` has it.
pub open spec fn covers(part: StoreView, s: StoreView, limit: Option<u32>, owned: Seq<Seq<char>>) -> bool {
    let k = batch_limit(limit);
    let named = first(owned, k);
    &&& part == (StoreView {
        purchases: first(s.purchases, k),
        available_tokens: part.available_tokens,
        ..s
    })
    &&& ascending(part.available_tokens)
    &&& forall|x: Seq<char>| part.available_tokens.contains(x) ==> s.available_tokens.contains(x)
    &&& forall|i: int|
        0 <= i < named.len() && s.available_tokens.contains(#[trigger] named[i])
            ==> part.available_tokens.contains(named[i])
}

/// The store `whole` is the store `s` with what a step changed in the part `part` of
/// it, which it left as `after`: the rows of the part are replaced by those that the
/// step left of them; a token of the part that the step took off the offer is off
/// the offer; and everything else is as the step left it.
pub open spec fn put_back(s: StoreView, part: StoreView, after: StoreView, whole: StoreView) -> bool {
    &&& whole == (StoreView {
        purchases: after.purchases + s.purchases.skip(part.purchases.len() as int),
        available_tokens: whole.available_tokens,
        ..after
    })
    &&& ascending(whole.available_tokens)
    &&& forall|x: Seq<char>|
        whole.available_tokens.contains(x) <==> s.available_tokens.contains(x) && (
        part.available_tokens.contains(x) ==> after.available_tokens.contains(x))
}

/// The first purchases of a ledger lie in its first rows, as many rows as
/// purchases: taking them from those rows, or out of them, comes to the same as
/// for the whole ledger.
pub proof fn lemma_entries_of_first_rows(rows: Seq<RowView>, n: int, m: int)
    requires
        ledger_wf(rows),
        0 <= n,
        0 <= m <= rows.len(),
        m == rows.len() || n <= m,
    ensures
        take_entries(rows.take(m), n) == take_entries(rows, n),
        drop_entries(rows.take(m), n) + rows.skip(m) == drop_entries(rows, n),
    decreases rows.len(),
{
    let head = rows.take(m);
    assert(ledger_wf(head)) by {
        assert forall|i: int| 0 <= i < head.len() implies (#[trigger] head[i]) == rows[i] by {}
        assert(row_keys(head) =~= row_keys(rows).take(m));
    }
    lemma_flat_prefix(rows, m);
    lemma_flat_nonempty(head);
    if m == rows.len() {
        assert(head =~= rows);
    }
    assert(take_entries(head, n) =~= take_entries(rows, n));
    if n <= 0 || rows.len() == 0 || m == 0 {
        assert(drop_entries(head, n) + rows.skip(m) =~= drop_entries(rows, n));
    } else if rows[0].purchases.len() <= n {
        let rest = rows.drop_first();
        let less = n - rows[0].purchases.len();
        lemma_wf_drop_first(rows);
        lemma_entries_of_first_rows(rest, less, m - 1);
        assert(head[0] == rows[0]);
        assert(head.drop_first() =~= rest.take(m - 1));
        assert(rest.skip(m - 1) =~= rows.skip(m));
    } else {
        assert(head[0] == rows[0]);
        assert(drop_entries(head, n) + rows.skip(m) =~= drop_entries(rows, n));
    }
}

/// Taking tokens off two offers that agree on which of the tokens they hold
/// shortens both by as many.
pub proof fn lemma_taken_counts(all: Seq<Seq<char>>, part: Seq<Seq<char>>, ids: Seq<Seq<char>>)
    requires
        ascending(all),
        ascending(part),
        forall|i: int| 0 <= i < ids.len() ==> (all.contains(#[trigger] ids[i]) <==> part.contains(ids[i])),
    ensures
        all.len() - taken(all, ids).len() == part.len() - taken(part, ids).len(),
    decreases ids.len(),
{
    if ids.len() > 0 {
        let rest = ids.drop_last();
        let id = ids.last();
        assert forall|i: int| 0 <= i < rest.len() implies (all.contains(#[trigger] rest[i])
            <==> part.contains(rest[i])) by {
            assert(rest[i] == ids[i]);
        }
        lemma_taken_counts(all, part, rest);
        lemma_taken_contains(all, rest);
        lemma_taken_contains(part, rest);
        lemma_without_key(taken(all, rest), id);
        lemma_without_key(taken(part, rest), id);
        assert(ids[ids.len() - 1] == id);
    }
}

/// Whether a settlement step reads the registry's answer, and how much of it, shows
/// in the first rows of the ledger: the offer and the rows after them do not matter.
pub proof fn the_first_rows_tell_what_a_step_asks(
    s: StoreView,
    part: StoreView,
    env: EnvView,
    info: InfoView,
    limit: Option<u32>,
)
    requires
        part == (StoreView {
            purchases: first(s.purchases, batch_limit(limit)),
            available_tokens: part.available_tokens,
            ..s
        }),
    ensures
        reads_tokens(part, env, info, ExecuteMsg::EndSale { limit }) == reads_tokens(
            s,
            env,
            info,
            ExecuteMsg::EndSale { limit },
        ),
{
    let rows = first(s.purchases, batch_limit(limit));
    assert(first(rows, batch_limit(limit)) =~= rows);
}

/// A settlement step reads a part of the store only. On a part that holds what the
/// step reads, it answers as on the whole store, and the whole store after the step
/// is the store before it with what the step changed in the part.
pub proof fn a_settlement_step_reads_a_part_of_the_store(
    s: StoreView,
    part: StoreView,
    env: EnvView,
    info: InfoView,
    limit: Option<u32>,
    owned: Seq<Seq<char>>,
)
    requires
        ledger_wf(s.purchases),
        ascending(s.available_tokens),
        covers(part, s, limit, owned),
    ensures
        end_sale_outcome(part, env, info, limit, owned).result == end_sale_outcome(
            s,
            env,
            info,
            limit,
            owned,
        ).result,
        put_back(
            s,
            part,
            end_sale_outcome(part, env, info, limit, owned).store,
            end_sale_outcome(s, env, info, limit, owned).store,
        ),
{
    let k = batch_limit(limit);
    let named = first(owned, k);
    let rows = first(s.purchases, k);
    let on_part = end_sale_outcome(part, env, info, limit, owned);
    let on_whole = end_sale_outcome(s, env, info, limit, owned);
    let m = rows.len() as int;
    assert(rows + s.purchases.skip(m) =~= s.purchases);
    assert(rows =~= s.purchases.take(m));
    assert(first(rows, k) =~= rows);
    assert(rows.skip(m) + s.purchases.skip(m) =~= s.purchases.skip(m));
    if k > 0 {
        lemma_entries_of_first_rows(s.purchases, k, m);
    }
    lemma_taken_contains(s.available_tokens, named);
    lemma_taken_contains(part.available_tokens, named);
    lemma_taken_counts(s.available_tokens, part.available_tokens, named);
    assert forall|x: Seq<char>| named.contains(x) && s.available_tokens.contains(x)
        implies part.available_tokens.contains(x) by {
        let i = choose|i: int| 0 <= i < named.len() && named[i] == x;
        assert(part.available_tokens.contains(named[i]));
    }
}

} // verus!
