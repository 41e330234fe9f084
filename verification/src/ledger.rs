//! The ledger of credit that banks could not use, and its transfer to the
//! banks that the catalog's overflow edges name.

use vstd::prelude::*;
use crate::catalog::{overflows_view, CreditOverflow, CreditOverflowView};
use crate::course::{texts_view, Credit};
use crate::text::{overflow_message, overflow_message_string};

verus! {

/// The surplus that one bank has on offer.
#[derive(Debug)]
pub struct LedgerEntry {
    pub bank: String,
    pub amount: Credit,
}

/// The mathematical value of a [`LedgerEntry`].
pub struct LedgerEntryView {
    pub bank: Seq<char>,
    pub amount: nat,
}

impl View for LedgerEntry {
    type V = LedgerEntryView;

    open spec fn view(&self) -> LedgerEntryView {
        LedgerEntryView { bank: self.bank@, amount: self.amount as nat }
    }
}

/// The surplus of each bank that has recorded one, by bank name.
#[derive(Debug)]
pub struct OverflowLedger {
    pub entries: Vec<LedgerEntry>,
}

impl View for OverflowLedger {
    type V = Seq<LedgerEntryView>;

    open spec fn view(&self) -> Seq<LedgerEntryView> {
        Seq::new(self.entries@.len(), |i: int| self.entries@[i]@)
    }
}

/// No bank has two entries.
pub open spec fn distinct_banks(entries: Seq<LedgerEntryView>) -> bool {
    forall|i: int, j: int|
        0 <= i < j < entries.len() ==> (#[trigger] entries[i]).bank != (#[trigger] entries[j]).bank
}

/// Whether the bank has an entry.
pub open spec fn has_bank(entries: Seq<LedgerEntryView>, bank: Seq<char>) -> bool {
    exists|i: int| 0 <= i < entries.len() && (#[trigger] entries[i]).bank == bank
}

/// The place of the bank's entry.
pub open spec fn bank_index(entries: Seq<LedgerEntryView>, bank: Seq<char>) -> int {
    choose|i: int| 0 <= i < entries.len() && (#[trigger] entries[i]).bank == bank
}

/// The surplus that the bank has on offer: none where it has no entry.
pub open spec fn ledger_amount(entries: Seq<LedgerEntryView>, bank: Seq<char>) -> nat {
    if has_bank(entries, bank) {
        entries[bank_index(entries, bank)].amount
    } else {
        0
    }
}

/// The sum of all amounts on offer.
pub open spec fn ledger_balance(entries: Seq<LedgerEntryView>) -> nat
    decreases entries.len(),
{
    if entries.len() == 0 {
        0
    } else {
        ledger_balance(entries.drop_last()) + entries.last().amount
    }
}

/// The ledger after `bank` has recorded the surplus `amount`, which replaces
/// what the bank had on offer before.
pub open spec fn recorded(entries: Seq<LedgerEntryView>, bank: Seq<char>, amount: nat) -> Seq<
    LedgerEntryView,
> {
    if has_bank(entries, bank) {
        entries.update(bank_index(entries, bank), LedgerEntryView { bank, amount })
    } else {
        entries.push(LedgerEntryView { bank, amount })
    }
}

/// What taking the incoming overflow of one bank does.
pub struct Consumption {
    /// The ledger afterwards.
    pub entries: Seq<LedgerEntryView>,
    /// The messages that record the transfers, in the order of the edges.
    pub messages: Seq<Seq<char>>,
    /// The credit transferred.
    pub total: nat,
}

/// Taking the overflow that the edges `edges` bring to `bank`: for every edge
/// to the bank, in order, whose source has a positive amount on offer, the
/// amount is transferred, a message records it, and the source is left with
/// nothing.
pub open spec fn consumption(
    entries: Seq<LedgerEntryView>,
    edges: Seq<CreditOverflowView>,
    bank: Seq<char>,
) -> Consumption
    decreases edges.len(),
{
    if edges.len() == 0 {
        Consumption { entries, messages: Seq::empty(), total: 0 }
    } else {
        let before = consumption(entries, edges.drop_last(), bank);
        let edge = edges.last();
        let amount = ledger_amount(before.entries, edge.from);
        if edge.to == bank && amount > 0 {
            Consumption {
                entries: recorded(before.entries, edge.from, 0),
                messages: before.messages.push(overflow_message(amount, edge.from, edge.to)),
                total: before.total + amount,
            }
        } else {
            before
        }
    }
}

/// With distinct banks, the entry of a bank is the one at any place that
/// holds the bank.
pub proof fn lemma_bank_index(entries: Seq<LedgerEntryView>, bank: Seq<char>, i: int)
    requires
        distinct_banks(entries),
        0 <= i < entries.len(),
        entries[i].bank == bank,
    ensures
        has_bank(entries, bank),
        bank_index(entries, bank) == i,
        ledger_amount(entries, bank) == entries[i].amount,
{
    let c = bank_index(entries, bank);
    assert(0 <= c < entries.len() && entries[c].bank == bank);
    if c < i {
        assert(entries[c].bank != entries[i].bank);
    }
    if i < c {
        assert(entries[i].bank != entries[c].bank);
    }
}

/// Replacing one entry changes the balance by the difference of the amounts.
pub proof fn lemma_balance_update(entries: Seq<LedgerEntryView>, i: int, entry: LedgerEntryView)
    requires
        0 <= i < entries.len(),
    ensures
        ledger_balance(entries.update(i, entry)) + entries[i].amount == ledger_balance(entries)
            + entry.amount,
    decreases entries.len(),
{
    let after = entries.update(i, entry);
    if i == entries.len() - 1 {
        assert(after.drop_last() =~= entries.drop_last());
    } else {
        lemma_balance_update(entries.drop_last(), i, entry);
        assert(after.drop_last() =~= entries.drop_last().update(i, entry));
    }
}

/// Recording a surplus keeps the banks distinct and changes the balance by
/// the difference between the new amount and what the bank had on offer.
pub proof fn lemma_recorded(entries: Seq<LedgerEntryView>, bank: Seq<char>, amount: nat)
    requires
        distinct_banks(entries),
    ensures
        distinct_banks(recorded(entries, bank, amount)),
        ledger_balance(recorded(entries, bank, amount)) + ledger_amount(entries, bank)
            == ledger_balance(entries) + amount,
        ledger_amount(recorded(entries, bank, amount), bank) == amount,
        forall|other: Seq<char>|
            other != bank ==> #[trigger] ledger_amount(recorded(entries, bank, amount), other)
                == ledger_amount(entries, other),
{
    let after = recorded(entries, bank, amount);
    let entry = LedgerEntryView { bank, amount };
    if has_bank(entries, bank) {
        let i = bank_index(entries, bank);
        lemma_balance_update(entries, i, entry);
        assert forall|a: int, b: int| 0 <= a < b < after.len() implies (#[trigger] after[a]).bank
            != (#[trigger] after[b]).bank by {
            assert(after[a].bank == entries[a].bank && after[b].bank == entries[b].bank);
        }
        lemma_bank_index(after, bank, i);
    } else {
        assert(after.drop_last() =~= entries);
        assert forall|a: int, b: int| 0 <= a < b < after.len() implies (#[trigger] after[a]).bank
            != (#[trigger] after[b]).bank by {
            if b == entries.len() {
                assert(entries[a].bank != bank);
            } else {
                assert(after[a] == entries[a] && after[b] == entries[b]);
            }
        }
        lemma_bank_index(after, bank, entries.len() as int);
    }
    assert forall|other: Seq<char>| other != bank implies #[trigger] ledger_amount(after, other)
        == ledger_amount(entries, other) by {
        if has_bank(entries, other) {
            let k = bank_index(entries, other);
            assert(after[k] == entries[k]);
            lemma_bank_index(entries, other, k);
            lemma_bank_index(after, other, k);
        } else {
            if has_bank(after, other) {
                let k = bank_index(after, other);
                if k < entries.len() {
                    assert(entries[k].bank == other);
                }
            }
        }
    }
}

/// Taking the overflow of a bank keeps the banks distinct, and the credit
/// transferred is what leaves the ledger.
pub proof fn lemma_consumption(
    entries: Seq<LedgerEntryView>,
    edges: Seq<CreditOverflowView>,
    bank: Seq<char>,
)
    requires
        distinct_banks(entries),
    ensures
        distinct_banks(consumption(entries, edges, bank).entries),
        ledger_balance(consumption(entries, edges, bank).entries) + consumption(
            entries,
            edges,
            bank,
        ).total == ledger_balance(entries),
    decreases edges.len(),
{
    if edges.len() > 0 {
        lemma_consumption(entries, edges.drop_last(), bank);
        let before = consumption(entries, edges.drop_last(), bank);
        lemma_recorded(before.entries, edges.last().from, 0);
    }
}

impl OverflowLedger {
    /// Whether the ledger is in order: no bank has two entries, and the
    /// balance is within the range of a credit amount.
    pub open spec fn well_formed(&self) -> bool {
        &&& distinct_banks(self@)
        &&& ledger_balance(self@) <= u64::MAX
    }

    /// A ledger without entries.
    pub fn new() -> (r: OverflowLedger)
        ensures
            r@ == Seq::<LedgerEntryView>::empty(),
            r.well_formed(),
    {
        let r = OverflowLedger { entries: Vec::new() };
        assert(r@ =~= Seq::empty());
        r
    }

    /// The place of the entry of the bank `bank_name`.
    pub fn position_of_bank(&self, bank_name: &String) -> (r: Option<usize>)
        ensures
            match r {
                Some(i) => i < self@.len() && self@[i as int].bank == bank_name@,
                None => !has_bank(self@, bank_name@),
            },
    {
        let mut i: usize = 0;
        while i < self.entries.len()
            invariant
                i <= self.entries@.len(),
                forall|j: int| 0 <= j < i ==> (#[trigger] self@[j]).bank != bank_name@,
            decreases self.entries@.len() - i,
        {
            if self.entries[i].bank == *bank_name {
                return Some(i);
            }
            i += 1;
        }
        None
    }

    /// The surplus that the bank `bank_name` has on offer: none where the
    /// bank has recorded none.
    pub fn amount_of(&self, bank_name: &String) -> (r: Credit)
        requires
            self.well_formed(),
        ensures
            r == ledger_amount(self@, bank_name@),
    {
        match self.position_of_bank(bank_name) {
            Some(i) => {
                proof {
                    lemma_bank_index(self@, bank_name@, i as int);
                }
                self.entries[i].amount
            },
            None => 0,
        }
    }

    /// Records `amount` as the surplus of the bank `bank_name`, in place of
    /// what the bank had on offer before.
    pub fn record_surplus(&mut self, bank_name: String, amount: Credit)
        requires
            old(self).well_formed(),
            ledger_balance(old(self)@) - ledger_amount(old(self)@, bank_name@) + amount
                <= u64::MAX,
        ensures
            final(self).well_formed(),
            final(self)@ == recorded(old(self)@, bank_name@, amount as nat),
            ledger_amount(final(self)@, bank_name@) == amount,
            forall|other: Seq<char>|
                other != bank_name@ ==> #[trigger] ledger_amount(final(self)@, other)
                    == ledger_amount(old(self)@, other),
            ledger_balance(final(self)@) + ledger_amount(old(self)@, bank_name@)
                == ledger_balance(old(self)@) + amount,
    {
        proof {
            lemma_recorded(self@, bank_name@, amount as nat);
        }
        match self.position_of_bank(&bank_name) {
            Some(i) => {
                proof {
                    lemma_bank_index(self@, bank_name@, i as int);
                }
                self.entries[i].amount = amount;
                assert(self@ =~= recorded(old(self)@, bank_name@, amount as nat));
            },
            None => {
                self.entries.push(LedgerEntry { bank: bank_name, amount });
                assert(self@ =~= recorded(old(self)@, bank_name@, amount as nat));
            },
        }
    }

    /// Takes the overflow that the edges `edges` bring to the bank
    /// `bank_name`, appends the messages that record the transfers to
    /// `messages`, and returns the credit transferred.
    pub fn consume_for(
        &mut self,
        bank_name: &String,
        edges: &Vec<CreditOverflow>,
        messages: &mut Vec<String>,
    ) -> (total: Credit)
        requires
            old(self).well_formed(),
        ensures
            final(self).well_formed(),
            final(self)@ == consumption(old(self)@, overflows_view(edges@), bank_name@).entries,
            texts_view(final(messages)@) == texts_view(old(messages)@) + consumption(
                old(self)@,
                overflows_view(edges@),
                bank_name@,
            ).messages,
            total == consumption(old(self)@, overflows_view(edges@), bank_name@).total,
            ledger_balance(final(self)@) + total == ledger_balance(old(self)@),
    {
        let mut total: Credit = 0;
        let mut k: usize = 0;
        let ghost all = overflows_view(edges@);
        assert(texts_view(messages@) =~= texts_view(old(messages)@) + Seq::empty());
        assert(all.take(0) =~= Seq::empty());
        while k < edges.len()
            invariant
                k <= edges@.len(),
                all == overflows_view(edges@),
                old(self).well_formed(),
                self.well_formed(),
                self@ == consumption(old(self)@, all.take(k as int), bank_name@).entries,
                texts_view(messages@) == texts_view(old(messages)@) + consumption(
                    old(self)@,
                    all.take(k as int),
                    bank_name@,
                ).messages,
                total == consumption(old(self)@, all.take(k as int), bank_name@).total,
            decreases edges@.len() - k,
        {
            let ghost before = consumption(old(self)@, all.take(k as int), bank_name@);
            let ghost shown = texts_view(messages@);
            proof {
                assert(all.take(k + 1).drop_last() =~= all.take(k as int));
                lemma_consumption(old(self)@, all.take(k as int), bank_name@);
                lemma_consumption(old(self)@, all.take(k + 1), bank_name@);
            }
            let edge = &edges[k];
            if edge.to == *bank_name {
                let amount = self.amount_of(&edge.from);
                if amount > 0 {
                    messages.push(overflow_message_string(amount, &edge.from, &edge.to));
                    self.record_surplus(edge.from.clone(), 0);
                    total = total + amount;
                    assert(texts_view(messages@) =~= shown.push(
                        overflow_message(amount as nat, edge.from@, edge.to@),
                    ));
                    assert(shown.push(overflow_message(amount as nat, edge.from@, edge.to@))
                        =~= texts_view(old(messages)@) + before.messages.push(
                        overflow_message(amount as nat, edge.from@, edge.to@),
                    ));
                }
            }
            k += 1;
        }
        assert(all.take(k as int) =~= all);
        proof {
            lemma_consumption(old(self)@, all, bank_name@);
        }
        total
    }
}

} // verus!
