//! The purchase ledger: for each buyer the purchases that wait for settlement, in the
//! order in which they were made; buyers in ascending key order.

use crate::msg::{Instruction, InstructionView};
use crate::order::{
    ascending, key_equal, key_less, key_lt, lemma_key_lt_irreflexive, lemma_key_lt_total,
    lemma_key_lt_transitive,
};
use crate::tokens::{lemma_rank, lemma_rank_of_member, rank};
use vstd::prelude::*;

verus! {

/// One token bought and not yet settled.
#[derive(Debug, PartialEq, Eq)]
pub struct Purchase {
    /// The token bought.
    pub token_id: String,
    /// The tax paid on top of the price.
    pub tax_amount: u128,
    /// What the fee collaborator asked to be carried out when the token is handed over.
    pub msgs: Vec<Instruction>,
    /// Who bought it.
    pub purchaser: String,
}

/// What a [`Purchase`] stands for.
pub struct PurchaseView {
    pub token_id: Seq<char>,
    pub tax_amount: u128,
    pub msgs: Seq<InstructionView>,
    pub purchaser: Seq<char>,
}

impl DeepView for Purchase {
    type V = PurchaseView;

    open spec fn deep_view(&self) -> PurchaseView {
        PurchaseView {
            token_id: self.token_id@,
            tax_amount: self.tax_amount,
            msgs: self.msgs.deep_view(),
            purchaser: self.purchaser@,
        }
    }
}

impl View for Purchase {
    type V = PurchaseView;

    open spec fn view(&self) -> PurchaseView {
        self.deep_view()
    }
}

impl Clone for Purchase {
    fn clone(&self) -> (r: Self)
        ensures
            r@ == self@,
    {
        Purchase {
            token_id: self.token_id.clone(),
            tax_amount: self.tax_amount,
            msgs: crate::msg::clone_instructions(&self.msgs),
            purchaser: self.purchaser.clone(),
        }
    }
}

/// The purchases of one buyer.
pub struct RowView {
    pub purchaser: Seq<char>,
    pub purchases: Seq<PurchaseView>,
}

/// The buyers of a ledger, in its order.
pub open spec fn row_keys(rows: Seq<RowView>) -> Seq<Seq<char>> {
    rows.map_values(|r: RowView| r.purchaser)
}

/// What holds of every ledger: the buyers ascend, so each has one row; no row is
/// empty; and a row holds the purchases of its buyer only.
pub open spec fn ledger_wf(rows: Seq<RowView>) -> bool {
    &&& ascending(row_keys(rows))
    &&& forall|i: int| 0 <= i < rows.len() ==> (#[trigger] rows[i]).purchases.len() > 0
    &&& forall|i: int, j: int|
        0 <= i < rows.len() && 0 <= j < rows[i].purchases.len() ==> (
        #[trigger] rows[i].purchases[j]).purchaser == rows[i].purchaser
}

/// All purchases of the ledger, buyer by buyer.
pub open spec fn flat(rows: Seq<RowView>) -> Seq<PurchaseView>
    decreases rows.len(),
{
    if rows.len() == 0 {
        Seq::empty()
    } else {
        rows[0].purchases + flat(rows.drop_first())
    }
}

/// The purchases that wait for `purchaser`; none where the ledger has no row for them.
pub open spec fn purchases_of(rows: Seq<RowView>, purchaser: Seq<char>) -> Seq<PurchaseView> {
    if row_keys(rows).contains(purchaser) {
        rows[rank(row_keys(rows), purchaser)].purchases
    } else {
        Seq::empty()
    }
}

/// The ledger with one more purchase, at the end of its buyer's row.
pub open spec fn recorded(rows: Seq<RowView>, p: PurchaseView) -> Seq<RowView> {
    let at = rank(row_keys(rows), p.purchaser);
    if row_keys(rows).contains(p.purchaser) {
        rows.update(
            at,
            RowView { purchaser: p.purchaser, purchases: rows[at].purchases.push(p) },
        )
    } else {
        rows.insert(at, RowView { purchaser: p.purchaser, purchases: seq![p] })
    }
}

/// The ledger without the row of `purchaser`.
pub open spec fn without_row(rows: Seq<RowView>, purchaser: Seq<char>) -> Seq<RowView> {
    if row_keys(rows).contains(purchaser) {
        rows.remove(rank(row_keys(rows), purchaser))
    } else {
        rows
    }
}

/// The first `n` purchases of the ledger, or all of them where it holds fewer.
pub open spec fn take_entries(rows: Seq<RowView>, n: int) -> Seq<PurchaseView> {
    let all = flat(rows);
    if n <= 0 {
        Seq::empty()
    } else if all.len() <= n {
        all
    } else {
        all.take(n)
    }
}

/// The ledger without its first `n` purchases: a row that they cover is gone, and
/// the row that they end in, if they end inside one, keeps what comes after them.
pub open spec fn drop_entries(rows: Seq<RowView>, n: int) -> Seq<RowView>
    decreases rows.len(),
{
    if n <= 0 || rows.len() == 0 {
        rows
    } else if rows[0].purchases.len() <= n {
        drop_entries(rows.drop_first(), n - rows[0].purchases.len())
    } else {
        rows.update(
            0,
            RowView { purchaser: rows[0].purchaser, purchases: rows[0].purchases.skip(n) },
        )
    }
}

/// The buyer of the last purchase of a batch of `n` goes on after the batch: the
/// purchase after it is theirs too.
pub open spec fn goes_on(rows: Seq<RowView>, n: int) -> bool {
    let all = flat(rows);
    0 < n < all.len() && all[n].purchaser == all[n - 1].purchaser
}

/// The longest row's length is at most `cap`.
pub open spec fn rows_within(rows: Seq<RowView>, cap: int) -> bool {
    forall|i: int| 0 <= i < rows.len() ==> (#[trigger] rows[i]).purchases.len() <= cap
}

pub proof fn lemma_flat_len(rows: Seq<RowView>)
    ensures
        rows.len() == 0 ==> flat(rows).len() == 0,
        rows.len() > 0 ==> flat(rows).len() == rows[0].purchases.len() + flat(
            rows.drop_first(),
        ).len(),
{
}

/// The purchases of a ledger with one more row at its end.
pub proof fn lemma_flat_push(rows: Seq<RowView>, row: RowView)
    ensures
        flat(rows.push(row)) == flat(rows) + row.purchases,
    decreases rows.len(),
{
    let longer = rows.push(row);
    if rows.len() == 0 {
        assert(longer.drop_first() =~= Seq::<RowView>::empty());
        assert(flat(longer.drop_first()) =~= Seq::<PurchaseView>::empty());
        assert(flat(longer) =~= row.purchases);
        assert(flat(rows) + row.purchases =~= row.purchases);
    } else {
        lemma_flat_push(rows.drop_first(), row);
        assert(longer.drop_first() =~= rows.drop_first().push(row));
        assert(flat(longer) =~= flat(rows) + row.purchases);
    }
}

/// The first rows of a ledger hold no more purchases than all of it.
pub proof fn lemma_flat_prefix(rows: Seq<RowView>, i: int)
    requires
        0 <= i <= rows.len(),
    ensures
        flat(rows.take(i)).len() <= flat(rows).len(),
        flat(rows.take(i)) == flat(rows).take(flat(rows.take(i)).len() as int),
    decreases rows.len() - i,
{
    if i < rows.len() {
        lemma_flat_prefix(rows, i + 1);
        lemma_flat_push(rows.take(i), rows[i]);
        assert(rows.take(i).push(rows[i]) =~= rows.take(i + 1));
        assert(flat(rows.take(i)) =~= flat(rows).take(flat(rows.take(i)).len() as int));
    } else {
        assert(rows.take(i) =~= rows);
        assert(flat(rows) =~= flat(rows).take(flat(rows).len() as int));
    }
}

/// A well-formed ledger holds at least one purchase per row.
pub proof fn lemma_flat_nonempty(rows: Seq<RowView>)
    requires
        ledger_wf(rows),
    ensures
        flat(rows).len() >= rows.len(),
    decreases rows.len(),
{
    if rows.len() > 0 {
        lemma_wf_drop_first(rows);
        lemma_flat_nonempty(rows.drop_first());
    }
}

/// Without its first row a well-formed ledger is well-formed.
pub proof fn lemma_wf_drop_first(rows: Seq<RowView>)
    requires
        ledger_wf(rows),
        rows.len() > 0,
    ensures
        ledger_wf(rows.drop_first()),
{
    let t = rows.drop_first();
    assert forall|i: int, j: int| 0 <= i < j < row_keys(t).len() implies key_lt(
        row_keys(t)[i],
        row_keys(t)[j],
    ) by {
        assert(key_lt(row_keys(rows)[i + 1], row_keys(rows)[j + 1]));
    }
    assert forall|i: int| 0 <= i < t.len() implies (#[trigger] t[i]).purchases.len() > 0 by {
        assert(t[i] == rows[i + 1]);
    }
    assert forall|i: int, j: int| 0 <= i < t.len() && 0 <= j < t[i].purchases.len() implies (
    #[trigger] t[i].purchases[j]).purchaser == t[i].purchaser by {
        assert(t[i] == rows[i + 1]);
    }
}

/// The first row of a ledger is that of its buyer: their purchases are those of the
/// row, and without them the ledger is the rows after it.
pub proof fn lemma_first_row(rows: Seq<RowView>)
    requires
        ledger_wf(rows),
        rows.len() > 0,
    ensures
        rows[0].purchases.len() > 0,
        rows[0].purchases[0].purchaser == rows[0].purchaser,
        purchases_of(rows, rows[0].purchaser) == rows[0].purchases,
        without_row(rows, rows[0].purchaser) == rows.drop_first(),
{
    let keys = row_keys(rows);
    assert(keys[0] == rows[0].purchaser);
    lemma_rank_of_member(keys, 0);
    assert(rows.remove(0) =~= rows.drop_first());
}

/// Recording a purchase keeps the ledger well-formed, adds the purchase at the end
/// of its buyer's purchases and leaves every other buyer's as they were.
pub proof fn lemma_recorded(rows: Seq<RowView>, p: PurchaseView)
    requires
        ledger_wf(rows),
    ensures
        ledger_wf(recorded(rows, p)),
        purchases_of(recorded(rows, p), p.purchaser) == purchases_of(rows, p.purchaser).push(p),
        forall|k: Seq<char>|
            k != p.purchaser ==> purchases_of(recorded(rows, p), k) == purchases_of(rows, k),
        forall|cap: int|
            rows_within(rows, cap) && purchases_of(rows, p.purchaser).len() < cap
                ==> #[trigger] rows_within(recorded(rows, p), cap),
{
    let keys = row_keys(rows);
    let k = p.purchaser;
    let at = rank(keys, k);
    let t = recorded(rows, p);
    let tkeys = row_keys(t);
    crate::tokens::lemma_rank_splits(keys, k);
    crate::tokens::lemma_with_key(keys, k);
    if keys.contains(k) {
        let i = choose|i: int| 0 <= i < keys.len() && keys[i] == k;
        lemma_rank_of_member(keys, i);
        assert(tkeys =~= keys);
        assert(ledger_wf(t)) by {
            assert forall|a: int| 0 <= a < t.len() implies (#[trigger] t[a]).purchases.len()
                > 0 by {
                if a != at {
                    assert(t[a] == rows[a]);
                }
            }
            assert forall|a: int, b: int|
                0 <= a < t.len() && 0 <= b < t[a].purchases.len() implies (
            #[trigger] t[a].purchases[b]).purchaser == t[a].purchaser by {
                if a != at {
                    assert(t[a] == rows[a]);
                } else if b < rows[at].purchases.len() {
                    assert(t[a].purchases[b] == rows[at].purchases[b]);
                }
            }
        }
        assert forall|x: Seq<char>| x != k implies purchases_of(t, x) == purchases_of(
            rows,
            x,
        ) by {
            if keys.contains(x) {
                let j = choose|j: int| 0 <= j < keys.len() && keys[j] == x;
                lemma_rank_of_member(keys, j);
            }
        }
        assert forall|cap: int|
            rows_within(rows, cap) && purchases_of(rows, k).len() < cap implies #[trigger] rows_within(
            t,
            cap,
        ) by {
            assert forall|a: int| 0 <= a < t.len() implies (#[trigger] t[a]).purchases.len()
                <= cap by {
                if a != at {
                    assert(t[a] == rows[a]);
                }
            }
        }
    } else {
        assert(tkeys =~= keys.insert(at, k));
        assert(tkeys == crate::tokens::with_key(keys, k));
        assert(tkeys[at] == k);
        lemma_rank_of_member(tkeys, at);
        assert(ledger_wf(t)) by {
            assert forall|a: int| 0 <= a < t.len() implies (#[trigger] t[a]).purchases.len()
                > 0 by {
                if a < at {
                    assert(t[a] == rows[a]);
                } else if a > at {
                    assert(t[a] == rows[a - 1]);
                }
            }
            assert forall|a: int, b: int|
                0 <= a < t.len() && 0 <= b < t[a].purchases.len() implies (
            #[trigger] t[a].purchases[b]).purchaser == t[a].purchaser by {
                if a < at {
                    assert(t[a] == rows[a]);
                } else if a > at {
                    assert(t[a] == rows[a - 1]);
                }
            }
        }
        assert(purchases_of(t, k) =~= purchases_of(rows, k).push(p));
        assert forall|x: Seq<char>| x != k implies purchases_of(t, x) == purchases_of(
            rows,
            x,
        ) by {
            if keys.contains(x) {
                let j = choose|j: int| 0 <= j < keys.len() && keys[j] == x;
                lemma_rank_of_member(keys, j);
                let j2 = if j < at { j } else { j + 1 };
                assert(tkeys[j2] == x);
                lemma_rank_of_member(tkeys, j2);
            }
        }
        assert forall|cap: int|
            rows_within(rows, cap) && purchases_of(rows, k).len() < cap implies #[trigger] rows_within(
            t,
            cap,
        ) by {
            assert forall|a: int| 0 <= a < t.len() implies (#[trigger] t[a]).purchases.len()
                <= cap by {
                if a < at {
                    assert(t[a] == rows[a]);
                } else if a > at {
                    assert(t[a] == rows[a - 1]);
                }
            }
        }
    }
}

/// Taking the row at `at` out of a well-formed ledger leaves a well-formed ledger.
pub proof fn lemma_remove_row_wf(rows: Seq<RowView>, at: int)
    requires
        ledger_wf(rows),
        0 <= at < rows.len(),
    ensures
        ledger_wf(rows.remove(at)),
        row_keys(rows.remove(at)) == row_keys(rows).remove(at),
{
    let keys = row_keys(rows);
    let t = rows.remove(at);
    let tkeys = row_keys(t);
    assert(tkeys =~= keys.remove(at));
    assert forall|a: int, b: int| 0 <= a < b < tkeys.len() implies key_lt(tkeys[a], tkeys[b]) by {
        let a2 = if a < at { a } else { a + 1 };
        let b2 = if b < at { b } else { b + 1 };
        assert(key_lt(keys[a2], keys[b2]));
    }
    assert forall|a: int| 0 <= a < t.len() implies (#[trigger] t[a]).purchases.len() > 0 by {
        let a2 = if a < at { a } else { a + 1 };
        assert(t[a] == rows[a2]);
    }
    assert forall|a: int, b: int|
        0 <= a < t.len() && 0 <= b < t[a].purchases.len() implies (
    #[trigger] t[a].purchases[b]).purchaser == t[a].purchaser by {
        let a2 = if a < at { a } else { a + 1 };
        assert(t[a] == rows[a2]);
    }
}

/// Taking a row out keeps the ledger well-formed and within any cap it was within,
/// and leaves nothing waiting for that buyer.
pub proof fn lemma_without_row(rows: Seq<RowView>, k: Seq<char>)
    requires
        ledger_wf(rows),
    ensures
        ledger_wf(without_row(rows, k)),
        purchases_of(without_row(rows, k), k).len() == 0,
        forall|cap: int| rows_within(rows, cap) ==> #[trigger] rows_within(without_row(rows, k), cap),
{
    let keys = row_keys(rows);
    let t = without_row(rows, k);
    if keys.contains(k) {
        let at = rank(keys, k);
        let i = choose|i: int| 0 <= i < keys.len() && keys[i] == k;
        lemma_rank_of_member(keys, i);
        lemma_remove_row_wf(rows, at);
        crate::tokens::lemma_without_key(keys, k);
        assert(row_keys(t) == crate::tokens::without_key(keys, k));
        assert forall|cap: int| rows_within(rows, cap) implies #[trigger] rows_within(
            t,
            cap,
        ) by {
            assert forall|a: int| 0 <= a < t.len() implies (#[trigger] t[a]).purchases.len()
                <= cap by {
                let a2 = if a < at { a } else { a + 1 };
                assert(t[a] == rows[a2]);
            }
        }
    }
}

/// Dropping the first purchases keeps the ledger well-formed and within any cap,
/// and takes away exactly those purchases.
pub proof fn lemma_drop_entries(rows: Seq<RowView>, n: int)
    requires
        ledger_wf(rows),
    ensures
        ledger_wf(drop_entries(rows, n)),
        take_entries(rows, n) + flat(drop_entries(rows, n)) == flat(rows),
        forall|cap: int| rows_within(rows, cap) ==> #[trigger] rows_within(drop_entries(rows, n), cap),
    decreases rows.len(),
{
    let t = drop_entries(rows, n);
    if n <= 0 || rows.len() == 0 {
        assert(take_entries(rows, n) + flat(t) =~= flat(rows));
    } else if rows[0].purchases.len() <= n {
        let rest = rows.drop_first();
        let m = n - rows[0].purchases.len();
        lemma_wf_drop_first(rows);
        lemma_drop_entries(rest, m);
        assert(take_entries(rows, n) =~= rows[0].purchases + take_entries(rest, m));
        assert(take_entries(rows, n) + flat(t) =~= flat(rows));
        assert forall|cap: int| rows_within(rows, cap) implies #[trigger] rows_within(
            t,
            cap,
        ) by {
            assert forall|a: int| 0 <= a < rest.len() implies (
            #[trigger] rest[a]).purchases.len() <= cap by {
                assert(rest[a] == rows[a + 1]);
            }
            assert(rows_within(rest, cap));
        }
    } else {
        assert(row_keys(t) =~= row_keys(rows));
        assert forall|a: int| 0 <= a < t.len() implies (#[trigger] t[a]).purchases.len() > 0 by {
            if a > 0 {
                assert(t[a] == rows[a]);
            }
        }
        assert forall|a: int, b: int|
            0 <= a < t.len() && 0 <= b < t[a].purchases.len() implies (
        #[trigger] t[a].purchases[b]).purchaser == t[a].purchaser by {
            if a > 0 {
                assert(t[a] == rows[a]);
            } else {
                assert(t[0].purchases[b] == rows[0].purchases[b + n]);
            }
        }
        assert(t.drop_first() =~= rows.drop_first());
        assert(take_entries(rows, n) =~= rows[0].purchases.take(n));
        assert(take_entries(rows, n) + flat(t) =~= flat(rows));
        assert forall|cap: int| rows_within(rows, cap) implies #[trigger] rows_within(
            t,
            cap,
        ) by {
            assert forall|a: int| 0 <= a < t.len() implies (#[trigger] t[a]).purchases.len()
                <= cap by {
                if a > 0 {
                    assert(t[a] == rows[a]);
                }
            }
        }
    }
}

/// How a batch of `n` purchases meets the first row. Where the row is shorter, the
/// batch goes on in the rows after it, and the buyer at its end goes on after it as
/// in the batch that is left for those rows. Where the batch ends in the row, the
/// buyer goes on exactly where the row is longer than the batch.
pub proof fn lemma_row_ends(rows: Seq<RowView>, n: int)
    requires
        ledger_wf(rows),
        rows.len() > 0,
        n > 0,
    ensures
        rows[0].purchases.len() < n ==> goes_on(rows, n) == goes_on(
            rows.drop_first(),
            n - rows[0].purchases.len(),
        ),
        rows[0].purchases.len() >= n ==> goes_on(rows, n) == (rows[0].purchases.len() > n),
{
    let all = flat(rows);
    let row = rows[0].purchases;
    let rest = rows.drop_first();
    let keys = row_keys(rows);
    lemma_wf_drop_first(rows);
    assert(all == row + flat(rest));
    if row.len() < n {
        let m = n - row.len();
        if m < flat(rest).len() {
            assert(all[n] == flat(rest)[m]);
            assert(all[n - 1] == flat(rest)[m - 1]);
        }
    } else {
        assert(all[n - 1] == row[n - 1]);
        assert(row[n - 1].purchaser == keys[0]);
        if row.len() > n {
            assert(all[n] == row[n]);
        } else if n < all.len() {
            lemma_flat_len(rest);
            assert(rest.len() > 0);
            assert(all[n] == flat(rest)[0]);
            assert(flat(rest) == rest[0].purchases + flat(rest.drop_first()));
            assert(flat(rest)[0] == rest[0].purchases[0]);
            assert(rest[0].purchases[0].purchaser == rest[0].purchaser);
            assert(rest[0].purchaser == keys[1]);
            assert(key_lt(keys[0], keys[1]));
            lemma_key_lt_irreflexive(keys[0]);
        }
    }
}

/// The row at the end of a batch. After a batch of `n` purchases, the buyer of its
/// last purchase still has purchases waiting exactly where the purchase after the
/// batch is theirs too; the first that waits is then that purchase. Where the ledger
/// ends with the batch, or the next purchase is another buyer's, their row is gone.
pub proof fn boundary_row_is_kept_where_its_buyer_goes_on(rows: Seq<RowView>, n: int)
    requires
        ledger_wf(rows),
        0 < n <= flat(rows).len(),
    ensures
        ({
            let all = flat(rows);
            let kept = purchases_of(drop_entries(rows, n), all[n - 1].purchaser);
            &&& goes_on(rows, n) <==> kept.len() > 0
            &&& goes_on(rows, n) ==> kept[0] == all[n]
        }),
    decreases rows.len(),
{
    let all = flat(rows);
    let last = all[n - 1].purchaser;
    let t = drop_entries(rows, n);
    let keys = row_keys(rows);
    lemma_drop_entries(rows, n);
    lemma_wf_drop_first(rows);
    let rest = rows.drop_first();
    if rows[0].purchases.len() < n {
        let m = n - rows[0].purchases.len();
        boundary_row_is_kept_where_its_buyer_goes_on(rest, m);
        assert(all[n - 1] == flat(rest)[m - 1]);
        if n < all.len() {
            assert(all[n] == flat(rest)[m]);
        }
    } else if rows[0].purchases.len() == n {
        assert(drop_entries(rest, 0) == rest);
        assert(t == rest);
        assert(all[n - 1] == rows[0].purchases[n - 1]);
        assert(last == keys[0]);
        assert(!row_keys(rest).contains(last)) by {
            if row_keys(rest).contains(last) {
                let j = choose|j: int| 0 <= j < rest.len() && row_keys(rest)[j] == last;
                assert(key_lt(keys[0], keys[j + 1]));
                lemma_key_lt_irreflexive(last);
            }
        }
        if n < all.len() {
            lemma_flat_len(rest);
            assert(rest.len() > 0);
            assert(all[n] == flat(rest)[0]);
            assert(flat(rest)[0] == rest[0].purchases[0]);
            assert(rest[0].purchases[0].purchaser == rest[0].purchaser);
            assert(rest[0].purchaser == keys[1]);
            assert(key_lt(keys[0], keys[1]));
            lemma_key_lt_irreflexive(last);
        }
    } else {
        assert(all[n - 1] == rows[0].purchases[n - 1]);
        assert(all[n] == rows[0].purchases[n]);
        assert(last == keys[0]);
        assert(row_keys(t) =~= keys);
        lemma_rank_of_member(keys, 0);
    }
}

#[derive(Debug, Clone, PartialEq, Eq)]
struct LedgerRow {
    purchaser: String,
    purchases: Vec<Purchase>,
}

impl DeepView for LedgerRow {
    type V = RowView;

    closed spec fn deep_view(&self) -> RowView {
        RowView { purchaser: self.purchaser@, purchases: self.purchases.deep_view() }
    }
}

/// The purchases that wait for settlement.
#[derive(Debug, Clone, PartialEq, Eq)]
pub struct Ledger {
    rows: Vec<LedgerRow>,
}

impl View for Ledger {
    type V = Seq<RowView>;

    /// The rows, buyers ascending.
    closed spec fn view(&self) -> Seq<RowView> {
        self.rows.deep_view()
    }
}

impl Ledger {
    /// See [`ledger_wf`].
    pub open spec fn wf(&self) -> bool {
        ledger_wf(self@)
    }

    /// The ledger without a purchase.
    pub fn new() -> (r: Self)
        ensures
            r@ == Seq::<RowView>::empty(),
            r.wf(),
    {
        let r = Ledger { rows: Vec::new() };
        assert(r@ =~= Seq::<RowView>::empty());
        assert(row_keys(r@) =~= Seq::<Seq<char>>::empty());
        r
    }

    /// Whether no purchase waits.
    pub fn is_empty(&self) -> (r: bool)
        ensures
            r == (self@.len() == 0),
    {
        self.rows.len() == 0
    }

    /// How many buyers have purchases waiting.
    pub fn len(&self) -> (r: usize)
        ensures
            r == self@.len(),
    {
        self.rows.len()
    }

    /// The purchases of the buyer at place `i` in the order of buyers.
    pub fn row(&self, i: usize) -> (r: &Vec<Purchase>)
        requires
            i < self@.len(),
        ensures
            r.deep_view() == self@[i as int].purchases,
    {
        &self.rows[i].purchases
    }

    /// The first `limit` purchases of the ledger, in the order of buyers and, for one
    /// buyer, of purchase: all of them where it holds no more. The ledger keeps them.
    pub fn peek(&self, limit: usize) -> (r: Vec<Purchase>)
        ensures
            r.deep_view() == take_entries(self@, limit as int),
    {
        let mut out: Vec<Purchase> = Vec::new();
        let mut i: usize = 0;
        proof {
            assert(self@.take(0) =~= Seq::<RowView>::empty());
            assert(out.deep_view() =~= Seq::<PurchaseView>::empty());
        }
        while i < self.rows.len() && out.len() < limit
            invariant
                i <= self.rows.len(),
                self@.len() == self.rows.len(),
                out.len() <= limit,
                out.deep_view() == take_entries(self@.take(i as int), limit as int),
            decreases self.rows.len() - i,
        {
            let row = &self.rows[i].purchases;
            let room = limit - out.len();
            let m = if row.len() <= room { row.len() } else { room };
            let ghost done = out.deep_view();
            let ghost these = row.deep_view();
            proof {
                lemma_flat_push(self@.take(i as int), self@[i as int]);
                assert(self@.take(i as int).push(self@[i as int]) =~= self@.take(i + 1));
                assert(self@[i as int].purchases == these);
                assert(done == flat(self@.take(i as int)));
                assert(done + these.take(0) =~= done);
            }
            let mut j: usize = 0;
            while j < m
                invariant
                    j <= m,
                    m <= row.len(),
                    these == row.deep_view(),
                    out.deep_view() == done + these.take(j as int),
                decreases m - j,
            {
                let ghost before = out.deep_view();
                out.push(row[j].clone());
                proof {
                    assert(out.deep_view() =~= before.push(row[j as int]@));
                    assert(these.take(j + 1) =~= these.take(j as int).push(these[j as int]));
                    assert(out.deep_view() =~= done + these.take(j + 1));
                }
                j += 1;
            }
            proof {
                if row.len() <= room {
                    assert(these.take(m as int) =~= these);
                } else {
                    assert((done + these).take(limit as int) =~= done + these.take(m as int));
                }
            }
            i += 1;
        }
        proof {
            if i < self.rows.len() {
                lemma_flat_prefix(self@, i as int);
            } else {
                assert(self@.take(i as int) =~= self@);
            }
        }
        out
    }

    /// The index of the row of `purchaser`, or the number of rows where there is none.
    fn find(&self, purchaser: &str) -> (i: usize)
        requires
            self.wf(),
        ensures
            i <= self@.len(),
            i < self@.len() <==> row_keys(self@).contains(purchaser@),
            i < self@.len() ==> rank(row_keys(self@), purchaser@) == i && self@[i as int].purchaser
                == purchaser@,
    {
        let ghost keys = row_keys(self@);
        let mut i: usize = 0;
        while i < self.rows.len()
            invariant
                i <= self.rows.len(),
                self@.len() == self.rows.len(),
                keys == row_keys(self@),
                ascending(keys),
                forall|j: int| 0 <= j < i ==> keys[j] != purchaser@,
            decreases self.rows.len() - i,
        {
            if key_equal(self.rows[i].purchaser.as_str(), purchaser) {
                proof {
                    assert(keys[i as int] == purchaser@);
                    lemma_rank_of_member(keys, i as int);
                }
                return i;
            }
            i += 1;
        }
        i
    }

    /// Whether purchases wait for `purchaser`.
    pub fn has(&self, purchaser: &str) -> (r: bool)
        requires
            self.wf(),
        ensures
            r == (purchases_of(self@, purchaser@).len() > 0),
    {
        let i = self.find(purchaser);
        i < self.rows.len()
    }

    /// How many purchases wait for `purchaser`.
    pub fn count_of(&self, purchaser: &str) -> (r: usize)
        requires
            self.wf(),
        ensures
            r == purchases_of(self@, purchaser@).len(),
    {
        let i = self.find(purchaser);
        if i < self.rows.len() {
            self.rows[i].purchases.len()
        } else {
            0
        }
    }

    /// The purchases that wait for `purchaser`, oldest first.
    pub fn load(&self, purchaser: &str) -> (r: Option<&Vec<Purchase>>)
        requires
            self.wf(),
        ensures
            r is Some <==> purchases_of(self@, purchaser@).len() > 0,
            r is Some ==> r->0.deep_view() == purchases_of(self@, purchaser@),
    {
        let i = self.find(purchaser);
        if i < self.rows.len() {
            Some(&self.rows[i].purchases)
        } else {
            None
        }
    }

    /// Adds a purchase at the end of its buyer's purchases.
    pub fn record(&mut self, purchase: Purchase)
        requires
            old(self).wf(),
        ensures
            final(self).wf(),
            final(self)@ == recorded(old(self)@, purchase@),
    {
        let ghost before = self@;
        let ghost keys = row_keys(self@);
        let ghost p = purchase@;
        proof {
            lemma_recorded(before, p);
        }
        let mut i: usize = 0;
        while i < self.rows.len() && key_less(
            self.rows[i].purchaser.as_str(),
            purchase.purchaser.as_str(),
        )
            invariant
                i <= self.rows.len(),
                *self == *old(self),
                self@.len() == self.rows.len(),
                keys == row_keys(self@),
                forall|j: int| 0 <= j < i ==> key_lt(keys[j], purchase.purchaser@),
            decreases self.rows.len() - i,
        {
            i += 1;
        }
        proof {
            assert(i < self.rows.len() ==> keys[i as int] == self.rows[i as int].purchaser@);
            lemma_rank(keys, p.purchaser, i as int);
        }
        if i < self.rows.len() && key_equal(
            self.rows[i].purchaser.as_str(),
            purchase.purchaser.as_str(),
        ) {
            assert(keys[i as int] == p.purchaser);
            let mut row = self.rows.remove(i);
            row.purchases.push(purchase);
            assert(row.purchases.deep_view() =~= before[i as int].purchases.push(p));
            self.rows.insert(i, row);
            assert(self@ =~= recorded(before, p));
        } else {
            proof {
                assert(!keys.contains(p.purchaser)) by {
                    assert forall|j: int| 0 <= j < keys.len() implies keys[j] != p.purchaser by {
                        lemma_key_lt_irreflexive(p.purchaser);
                        if j >= i {
                            lemma_key_lt_total(p.purchaser, keys[i as int]);
                            if j > i {
                                lemma_key_lt_transitive(p.purchaser, keys[i as int], keys[j]);
                            }
                        }
                    }
                }
            }
            let purchaser = purchase.purchaser.clone();
            let mut purchases: Vec<Purchase> = Vec::new();
            purchases.push(purchase);
            assert(purchases.deep_view() =~= seq![p]);
            self.rows.insert(i, LedgerRow { purchaser, purchases });
            assert(self@ =~= recorded(before, p));
        }
    }

    /// Takes the purchases of `purchaser` out of the ledger.
    pub fn remove(&mut self, purchaser: &str) -> (r: Option<Vec<Purchase>>)
        requires
            old(self).wf(),
        ensures
            final(self).wf(),
            final(self)@ == without_row(old(self)@, purchaser@),
            r is Some <==> purchases_of(old(self)@, purchaser@).len() > 0,
            r is Some ==> r->0.deep_view() == purchases_of(old(self)@, purchaser@),
    {
        proof {
            lemma_without_row(self@, purchaser@);
        }
        let i = self.find(purchaser);
        if i < self.rows.len() {
            let ghost before = self@;
            let row = self.rows.remove(i);
            assert(self@ =~= before.remove(i as int));
            Some(row.purchases)
        } else {
            None
        }
    }

    /// Reads a batch with a lookahead: the first `limit` purchases of the ledger, and
    /// one more to see whether the buyer at the end of the batch goes on after it. Says
    /// whether they do; see [`goes_on`]. The ledger keeps its purchases.
    pub fn lookahead(&self, limit: usize) -> (r: (Vec<Purchase>, bool))
        requires
            self.wf(),
            limit < usize::MAX,
        ensures
            r.0.deep_view() == take_entries(self@, limit as int),
            r.1 == goes_on(self@, limit as int),
    {
        if limit == 0 {
            return (Vec::new(), false);
        }
        let ghost all = flat(self@);
        let mut ahead = self.peek(limit + 1);
        if ahead.len() == limit + 1 {
            let goes_on = key_equal(
                ahead[limit].purchaser.as_str(),
                ahead[limit - 1].purchaser.as_str(),
            );
            proof {
                let read = ahead.deep_view();
                assert(read == take_entries(self@, limit + 1));
                assert(read[limit as int] == ahead[limit as int]@);
                assert(read[limit - 1] == ahead[limit - 1]@);
                assert(read[limit as int] == all[limit as int]);
                assert(read[limit - 1] == all[limit - 1]);
            }
            let ghost read = ahead.deep_view();
            ahead.pop();
            assert(ahead.deep_view() =~= read.take(limit as int));
            assert(ahead.deep_view() =~= all.take(limit as int));
            (ahead, goes_on)
        } else {
            assert(ahead.deep_view() =~= all);
            (ahead, false)
        }
    }

    /// Takes the first `limit` purchases out of the ledger, once it is known whether
    /// the buyer at the end of the batch goes on after it. Every row before goes. The
    /// row at the end goes too where its buyer does not go on; where they do, the row
    /// keeps what comes after the batch.
    pub(crate) fn drop_front(&mut self, limit: usize, keep_boundary: bool)
        requires
            old(self).wf(),
            keep_boundary == goes_on(old(self)@, limit as int),
        ensures
            final(self).wf(),
            final(self)@ == drop_entries(old(self)@, limit as int),
    {
        let ghost before = self@;
        let mut budget: usize = limit;
        proof {
            lemma_drop_entries(before, limit as int);
        }
        while budget > 0 && self.rows.len() > 0
            invariant
                self.wf(),
                self@.len() == self.rows.len(),
                drop_entries(self@, budget as int) == drop_entries(before, limit as int),
                budget > 0 ==> keep_boundary == goes_on(self@, budget as int),
            decreases self.rows.len(), budget,
        {
            let ghost rows = self@;
            let ghost rest = rows.drop_first();
            proof {
                lemma_wf_drop_first(rows);
                lemma_flat_len(rows);
                lemma_flat_len(rest);
                lemma_row_ends(rows, budget as int);
            }
            let mut row = self.rows.remove(0);
            assert(self@ =~= rest);
            assert(row.deep_view() == rows[0]);
            if row.purchases.len() < budget {
                budget -= row.purchases.len();
            } else {
                // The batch ends in this row.
                if keep_boundary {
                    let kept = row.purchases.split_off(budget);
                    assert(kept.deep_view() =~= rows[0].purchases.skip(budget as int));
                    self.rows.insert(0, LedgerRow { purchaser: row.purchaser, purchases: kept });
                    assert(self@ =~= drop_entries(rows, budget as int));
                } else {
                    assert(drop_entries(rest, 0) == rest);
                }
                proof {
                    lemma_drop_entries(rows, budget as int);
                }
                budget = 0;
            }
        }
    }

    /// Takes the first `limit` purchases out of the ledger, in the order of buyers and,
    /// for one buyer, of purchase: all of them where it holds no more. A row that is
    /// used up goes; a row that the batch ends inside keeps the rest.
    pub fn drain(&mut self, limit: usize) -> (r: Vec<Purchase>)
        requires
            old(self).wf(),
            limit < usize::MAX,
        ensures
            final(self).wf(),
            r.deep_view() == take_entries(old(self)@, limit as int),
            final(self)@ == drop_entries(old(self)@, limit as int),
    {
        let (batch, keep_boundary) = self.lookahead(limit);
        self.drop_front(limit, keep_boundary);
        batch
    }
}

} // verus!
