use crate::coin::{clone_payments, view_seq, Payment, PaymentView};
use crate::registry::{after_n, first_n};
use vstd::prelude::*;

verus! {

/// The record of one purchased token.
#[derive(Debug, PartialEq, Eq)]
pub struct Purchase {
    /// The token that was purchased.
    pub token_id: String,
    /// The tax paid on top of the price.
    pub tax_amount: u128,
    /// The payments that the split of the price calls for at settlement.
    pub msgs: Vec<Payment>,
    /// The buyer.
    pub purchaser: String,
}

pub struct PurchaseView {
    pub token_id: Seq<char>,
    pub tax_amount: nat,
    pub msgs: Seq<PaymentView>,
    pub purchaser: Seq<char>,
}

impl View for Purchase {
    type V = PurchaseView;

    open spec fn view(&self) -> PurchaseView {
        PurchaseView {
            token_id: self.token_id@,
            tax_amount: self.tax_amount as nat,
            msgs: view_seq(self.msgs@),
            purchaser: self.purchaser@,
        }
    }
}

impl Clone for Purchase {
    fn clone(&self) -> (r: Self)
        ensures
            r@ == self@,
    {
        Purchase {
            token_id: self.token_id.clone(),
            tax_amount: self.tax_amount,
            msgs: clone_payments(&self.msgs),
            purchaser: self.purchaser.clone(),
        }
    }
}

/// All purchases of one buyer, in the order in which they were made.
#[derive(Debug, PartialEq, Eq)]
pub struct LedgerEntry {
    pub buyer: String,
    pub purchases: Vec<Purchase>,
}

pub struct LedgerEntryView {
    pub buyer: Seq<char>,
    pub purchases: Seq<PurchaseView>,
}

impl View for LedgerEntry {
    type V = LedgerEntryView;

    open spec fn view(&self) -> LedgerEntryView {
        LedgerEntryView { buyer: self.buyer@, purchases: view_seq(self.purchases@) }
    }
}

/// Whether `b` has an entry in the ledger `l`.
pub open spec fn has_buyer(l: Seq<LedgerEntryView>, b: Seq<char>) -> bool {
    exists|i: int| 0 <= i < l.len() && (#[trigger] l[i]).buyer == b
}

/// The place of the entry of `b` in the ledger `l`, where it has one.
pub open spec fn entry_index(l: Seq<LedgerEntryView>, b: Seq<char>) -> int {
    choose|i: int| 0 <= i < l.len() && (#[trigger] l[i]).buyer == b
}

/// The purchases that the ledger `l` holds for `b`.
pub open spec fn purchases_of(l: Seq<LedgerEntryView>, b: Seq<char>) -> Seq<PurchaseView> {
    if has_buyer(l, b) {
        l[entry_index(l, b)].purchases
    } else {
        Seq::empty()
    }
}

/// The ledger `l` after `b` made the purchases `ps`: they follow the earlier
/// purchases of `b`, and a buyer without any gets the last entry.
pub open spec fn with_purchases(
    l: Seq<LedgerEntryView>,
    b: Seq<char>,
    ps: Seq<PurchaseView>,
) -> Seq<LedgerEntryView> {
    if has_buyer(l, b) {
        let i = entry_index(l, b);
        l.update(i, LedgerEntryView { buyer: b, purchases: l[i].purchases + ps })
    } else {
        l.push(LedgerEntryView { buyer: b, purchases: ps })
    }
}

/// The ledger `l` without the entry of `b`.
pub open spec fn without_buyer(l: Seq<LedgerEntryView>, b: Seq<char>) -> Seq<LedgerEntryView> {
    if has_buyer(l, b) {
        l.remove(entry_index(l, b))
    } else {
        l
    }
}

/// Whether every buyer has one entry, every entry holds a purchase, and
/// every purchase names the buyer of its entry.
pub open spec fn ledger_wf(l: Seq<LedgerEntryView>) -> bool {
    &&& forall|i: int, j: int|
        0 <= i < j < l.len() ==> (#[trigger] l[i]).buyer != (#[trigger] l[j]).buyer
    &&& forall|i: int| 0 <= i < l.len() ==> (#[trigger] l[i]).purchases.len() > 0
    &&& forall|i: int, a: int|
        0 <= i < l.len() && 0 <= a < l[i].purchases.len() ==> (#[trigger] l[i].purchases[a]).purchaser
            == l[i].buyer
}

/// In a well-formed ledger the entry of a buyer is found at one place only.
pub proof fn lemma_entry_index(l: Seq<LedgerEntryView>, b: Seq<char>, i: int)
    requires
        ledger_wf(l),
        0 <= i < l.len(),
        l[i].buyer == b,
    ensures
        has_buyer(l, b),
        entry_index(l, b) == i,
{
    let k = entry_index(l, b);
    if k < i {
        assert(l[k].buyer != l[i].buyer);
    } else if i < k {
        assert(l[i].buyer != l[k].buyer);
    }
}

/// Recording purchases of a buyer keeps a ledger well-formed.
pub proof fn lemma_with_purchases_wf(l: Seq<LedgerEntryView>, b: Seq<char>, ps: Seq<PurchaseView>)
    requires
        ledger_wf(l),
        ps.len() > 0,
        forall|a: int| 0 <= a < ps.len() ==> (#[trigger] ps[a]).purchaser == b,
    ensures
        ledger_wf(with_purchases(l, b, ps)),
{
    let r = with_purchases(l, b, ps);
    if has_buyer(l, b) {
        let k = entry_index(l, b);
        assert forall|i: int, j: int| 0 <= i < j < r.len() implies (#[trigger] r[i]).buyer != (
        #[trigger] r[j]).buyer by {
            assert(r[i].buyer == l[i].buyer && r[j].buyer == l[j].buyer);
        }
        assert forall|i: int, a: int|
            0 <= i < r.len() && 0 <= a < r[i].purchases.len() implies (
        #[trigger] r[i].purchases[a]).purchaser == r[i].buyer by {
            if i == k {
                if a < l[k].purchases.len() {
                    assert(r[i].purchases[a] == l[k].purchases[a]);
                } else {
                    assert(r[i].purchases[a] == ps[a - l[k].purchases.len()]);
                }
            } else {
                assert(r[i].purchases[a] == l[i].purchases[a]);
            }
        }
        assert forall|i: int| 0 <= i < r.len() implies (#[trigger] r[i]).purchases.len() > 0 by {
            if i != k {
                assert(r[i] == l[i]);
            }
        }
    } else {
        assert forall|i: int, j: int| 0 <= i < j < r.len() implies (#[trigger] r[i]).buyer != (
        #[trigger] r[j]).buyer by {
            if j < l.len() {
                assert(r[i] == l[i] && r[j] == l[j]);
            } else {
                assert(r[i] == l[i]);
            }
        }
        assert forall|i: int, a: int|
            0 <= i < r.len() && 0 <= a < r[i].purchases.len() implies (
        #[trigger] r[i].purchases[a]).purchaser == r[i].buyer by {
            if i < l.len() {
                assert(r[i].purchases[a] == l[i].purchases[a]);
            }
        }
        assert forall|i: int| 0 <= i < r.len() implies (#[trigger] r[i]).purchases.len() > 0 by {
            if i < l.len() {
                assert(r[i] == l[i]);
            }
        }
    }
}

/// Any stretch of a well-formed ledger is well-formed.
pub proof fn lemma_subrange_ledger_wf(l: Seq<LedgerEntryView>, from: int, to: int)
    requires
        ledger_wf(l),
        0 <= from <= to <= l.len(),
    ensures
        ledger_wf(l.subrange(from, to)),
{
    let r = l.subrange(from, to);
    assert forall|i: int, j: int| 0 <= i < j < r.len() implies (#[trigger] r[i]).buyer != (
    #[trigger] r[j]).buyer by {
        assert(r[i] == l[from + i] && r[j] == l[from + j]);
    }
    assert forall|i: int, a: int|
        0 <= i < r.len() && 0 <= a < r[i].purchases.len() implies (
    #[trigger] r[i].purchases[a]).purchaser == r[i].buyer by {
        assert(r[i].purchases[a] == l[from + i].purchases[a]);
    }
    assert forall|i: int| 0 <= i < r.len() implies (#[trigger] r[i]).purchases.len() > 0 by {
        assert(r[i] == l[from + i]);
    }
}

/// A well-formed ledger stays well-formed when an entry leaves.
pub proof fn lemma_remove_ledger_wf(l: Seq<LedgerEntryView>, k: int)
    requires
        ledger_wf(l),
        0 <= k < l.len(),
    ensures
        ledger_wf(l.remove(k)),
{
    let r = l.remove(k);
    assert forall|i: int, j: int| 0 <= i < j < r.len() implies (#[trigger] r[i]).buyer != (
    #[trigger] r[j]).buyer by {
        let a = if i < k { i } else { i + 1 };
        let b = if j < k { j } else { j + 1 };
        assert(r[i] == l[a] && r[j] == l[b]);
    }
    assert forall|i: int, a: int|
        0 <= i < r.len() && 0 <= a < r[i].purchases.len() implies (
    #[trigger] r[i].purchases[a]).purchaser == r[i].buyer by {
        let b = if i < k { i } else { i + 1 };
        assert(r[i].purchases[a] == l[b].purchases[a]);
    }
    assert forall|i: int| 0 <= i < r.len() implies (#[trigger] r[i]).purchases.len() > 0 by {
        let b = if i < k { i } else { i + 1 };
        assert(r[i] == l[b]);
    }
}

/// The purchases of all buyers, in the order in which the buyers first bought.
#[derive(Debug, PartialEq, Eq)]
pub struct Ledger {
    pub entries: Vec<LedgerEntry>,
}

impl View for Ledger {
    type V = Seq<LedgerEntryView>;

    open spec fn view(&self) -> Seq<LedgerEntryView> {
        view_seq(self.entries@)
    }
}

impl Ledger {
    /// Whether the ledger is well-formed.
    pub open spec fn wf(&self) -> bool {
        ledger_wf(self@)
    }

    /// A ledger without entries.
    pub fn new() -> (r: Ledger)
        ensures
            r.wf(),
            r@ == Seq::<LedgerEntryView>::empty(),
    {
        let r = Ledger { entries: Vec::new() };
        assert(r@ =~= Seq::<LedgerEntryView>::empty());
        r
    }

    /// The number of entries.
    pub fn len(&self) -> (n: usize)
        ensures
            n == self@.len(),
    {
        self.entries.len()
    }

    /// The place of the entry of `buyer`, if there is one.
    pub fn position(&self, buyer: &String) -> (r: Option<usize>)
        ensures
            match r {
                Some(i) => i < self@.len() && self@[i as int].buyer == buyer@,
                None => !has_buyer(self@, buyer@),
            },
    {
        let mut i: usize = 0;
        while i < self.entries.len()
            invariant
                i <= self.entries@.len(),
                forall|j: int| 0 <= j < i ==> (#[trigger] self@[j]).buyer != buyer@,
            decreases self.entries@.len() - i,
        {
            if self.entries[i].buyer == *buyer {
                return Some(i);
            }
            i += 1;
        }
        None
    }

    /// The number of purchases recorded for `buyer`.
    pub fn purchased_by(&self, buyer: &String) -> (n: usize)
        requires
            self.wf(),
        ensures
            n == purchases_of(self@, buyer@).len(),
    {
        match self.position(buyer) {
            Some(i) => {
                proof {
                    lemma_entry_index(self@, buyer@, i as int);
                }
                self.entries[i].purchases.len()
            },
            None => 0,
        }
    }

    /// Records the purchases of `buyer`.
    pub fn record(&mut self, buyer: String, purchases: Vec<Purchase>)
        requires
            old(self).wf(),
            purchases@.len() > 0,
            forall|a: int| 0 <= a < purchases@.len() ==> (#[trigger] purchases@[a]).purchaser@ == buyer@,
        ensures
            final(self).wf(),
            final(self)@ == with_purchases(old(self)@, buyer@, view_seq(purchases@)),
    {
        let ghost l = self@;
        let ghost ps = view_seq(purchases@);
        proof {
            assert forall|a: int| 0 <= a < ps.len() implies (#[trigger] ps[a]).purchaser
                == buyer@ by {
                assert(ps[a] == purchases@[a]@);
            }
            lemma_with_purchases_wf(l, buyer@, ps);
        }
        let mut purchases = purchases;
        match self.position(&buyer) {
            Some(i) => {
                proof {
                    lemma_entry_index(l, buyer@, i as int);
                }
                let mut entry = self.entries.remove(i);
                entry.purchases.append(&mut purchases);
                assert(entry@.purchases =~= l[i as int].purchases + ps);
                self.entries.insert(i, entry);
                assert(self@ =~= with_purchases(l, buyer@, ps));
            },
            None => {
                self.entries.push(LedgerEntry { buyer, purchases });
                assert(self@ =~= with_purchases(l, buyer@, ps));
            },
        }
    }

    /// Takes the entry of `buyer` out of the ledger, if there is one.
    pub fn remove(&mut self, buyer: &String) -> (r: Option<LedgerEntry>)
        requires
            old(self).wf(),
        ensures
            final(self).wf(),
            final(self)@ == without_buyer(old(self)@, buyer@),
            match r {
                Some(e) => has_buyer(old(self)@, buyer@) && e@ == old(self)@[entry_index(
                    old(self)@,
                    buyer@,
                )],
                None => !has_buyer(old(self)@, buyer@),
            },
    {
        let ghost l = self@;
        match self.position(buyer) {
            Some(i) => {
                proof {
                    lemma_entry_index(l, buyer@, i as int);
                    lemma_remove_ledger_wf(l, i as int);
                }
                let entry = self.entries.remove(i);
                assert(self@ =~= l.remove(i as int));
                Some(entry)
            },
            None => None,
        }
    }

    /// Takes the first `n` entries, or all of them where there are fewer.
    pub fn take_first(&mut self, n: usize) -> (taken: Vec<LedgerEntry>)
        requires
            old(self).wf(),
        ensures
            final(self).wf(),
            view_seq(taken@) == first_n(old(self)@, n as int),
            final(self)@ == after_n(old(self)@, n as int),
    {
        let ghost l = self@;
        if n < self.entries.len() {
            let rest = self.entries.split_off(n);
            let mut taken = rest;
            std::mem::swap(&mut self.entries, &mut taken);
            proof {
                lemma_subrange_ledger_wf(l, n as int, l.len() as int);
                assert(self@ =~= l.skip(n as int));
                assert(view_seq(taken@) =~= l.take(n as int));
            }
            taken
        } else {
            let mut taken: Vec<LedgerEntry> = Vec::new();
            std::mem::swap(&mut self.entries, &mut taken);
            assert(self@ =~= Seq::<LedgerEntryView>::empty());
            taken
        }
    }
}

} // verus!
