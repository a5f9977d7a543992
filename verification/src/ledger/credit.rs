//! Shop credit: a per-customer, per-shop stored-value balance.
//!
//! Shop credit is scoped to a single shop, so it can only ever pay for that
//! shop's share of an order. The engine enforces this when it builds a tender
//! plan, which stops the classic marketplace bug where credit issued by one
//! vendor silently pays another vendor's invoice.

use vstd::prelude::*;

use crate::cart::next_version;
use crate::error::{outcome, Error, ErrorView};
use crate::folds::lemma_error_stays;
use crate::ids::{is_generated, CustomerId, LedgerEntryId, OrderId, ShopId};
use crate::money::{Currency, Money};
use crate::payment::split::at_least_nothing;
use crate::sums::{lemma_sum_push, sum};
use crate::text::{join, join3, optional_text, same_text};
use crate::time::Timestamp;

verus! {

/// Why a credit balance changed.
#[derive(Debug, PartialEq)]
pub enum CreditEntryKind {
    /// The shop granted credit (goodwill, loyalty, promotion).
    Grant {
        /// Why it was granted.
        reason: String,
    },
    /// Credit was spent on an order.
    Redemption {
        /// The order it paid for.
        order_id: OrderId,
    },
    /// A redemption was reversed, e.g. because the order was refunded.
    Reversal {
        /// The order whose redemption is being undone.
        order_id: OrderId,
    },
    /// A refund was issued as store credit instead of to the original method.
    RefundToCredit {
        /// The refunded order.
        order_id: OrderId,
    },
    /// Credit lapsed.
    Expiry,
    /// Manual correction by an operator.
    Adjustment {
        /// Audit note.
        note: String,
    },
}

impl Clone for CreditEntryKind {
    fn clone(&self) -> (kind: Self)
        ensures
            kind == *self,
    {
        match self {
            CreditEntryKind::Grant { reason } => CreditEntryKind::Grant { reason: reason.clone() },
            CreditEntryKind::Redemption { order_id } => CreditEntryKind::Redemption {
                order_id: order_id.clone(),
            },
            CreditEntryKind::Reversal { order_id } => CreditEntryKind::Reversal {
                order_id: order_id.clone(),
            },
            CreditEntryKind::RefundToCredit { order_id } => CreditEntryKind::RefundToCredit {
                order_id: order_id.clone(),
            },
            CreditEntryKind::Expiry => CreditEntryKind::Expiry,
            CreditEntryKind::Adjustment { note } => CreditEntryKind::Adjustment {
                note: note.clone(),
            },
        }
    }
}

/// One immutable movement on a credit account.
#[derive(Debug, PartialEq)]
pub struct CreditEntry {
    /// Identifier.
    pub id: LedgerEntryId,
    /// Signed amount: positive adds credit, negative spends it.
    pub amount: Money,
    /// Why it happened.
    pub kind: CreditEntryKind,
    /// Balance after this entry, stored so history can be rendered cheaply.
    pub balance_after: Money,
    /// When it happened.
    pub created_at: Timestamp,
    /// Idempotency key of the operation that produced the entry, if any.
    pub idempotency_key: Option<String>,
}

impl Clone for CreditEntry {
    fn clone(&self) -> (entry: Self)
        ensures
            entry == *self,
    {
        CreditEntry {
            id: self.id.clone(),
            amount: self.amount,
            kind: self.kind.clone(),
            balance_after: self.balance_after,
            created_at: self.created_at,
            idempotency_key: self.idempotency_key.clone(),
        }
    }
}

/// A customer's credit balance at one shop.
#[derive(Debug, Clone, PartialEq)]
pub struct ShopCreditAccount {
    /// Owner of the balance.
    pub customer_id: CustomerId,
    /// Shop the credit can be spent at.
    pub shop_id: ShopId,
    /// Currency of the balance. Credit never crosses currencies.
    pub currency: Currency,
    /// Append-only history.
    pub entries: Vec<CreditEntry>,
    /// Optimistic concurrency token.
    pub version: u64,
}

/// The amounts of a list of entries, in minor units.
pub open spec fn movements(entries: Seq<CreditEntry>) -> Seq<int> {
    entries.map_values(|entry: CreditEntry| entry.amount.minor as int)
}

/// An amount without its sign.
pub open spec fn size_of_amount(amount: Money) -> Money {
    if amount.minor < 0 {
        Money { minor: (-amount.minor) as i64, currency: amount.currency }
    } else {
        amount
    }
}

/// What the first `n` entries spent on an order, less what they gave back.
pub open spec fn spent_on(
    entries: Seq<CreditEntry>,
    order: Seq<char>,
    currency: Currency,
    n: int,
) -> Result<Money, ErrorView>
    decreases n,
{
    if n <= 0 {
        Ok(Money { minor: 0, currency })
    } else {
        match spent_on(entries, order, currency, n - 1) {
            Err(error) => Err(error),
            Ok(before) => match entries[n - 1].kind {
                CreditEntryKind::Redemption { order_id } => if order_id@ == order {
                    before.plus(size_of_amount(entries[n - 1].amount))
                } else {
                    Ok(before)
                },
                CreditEntryKind::Reversal { order_id } => if order_id@ == order {
                    before.minus(size_of_amount(entries[n - 1].amount))
                } else {
                    Ok(before)
                },
                _ => Ok(before),
            },
        }
    }
}

/// Whether no idempotency key occurs twice.
pub open spec fn distinct_keys(entries: Seq<CreditEntry>) -> bool {
    forall|i: int, j: int|
        0 <= i < j < entries.len() && (#[trigger] entries[i]).idempotency_key is Some ==> optional_text(
            entries[i].idempotency_key,
        ) != optional_text((#[trigger] entries[j]).idempotency_key)
}

/// Whether an entry gives credit back for an order under a key.
pub open spec fn gives_back(entry: CreditEntry, order: Seq<char>, key: Seq<char>) -> bool {
    &&& optional_text(entry.idempotency_key) == Some(key)
    &&& entry.kind matches CreditEntryKind::Reversal { order_id } && order_id@ == order
}

proof fn lemma_spent_on_prefix(
    entries: Seq<CreditEntry>,
    longer: Seq<CreditEntry>,
    order: Seq<char>,
    currency: Currency,
    n: int,
)
    requires
        0 <= n <= entries.len() <= longer.len(),
        forall|i: int| 0 <= i < entries.len() ==> entries[i] == #[trigger] longer[i],
    ensures
        spent_on(entries, order, currency, n) == spent_on(longer, order, currency, n),
    decreases n,
{
    if n > 0 {
        lemma_spent_on_prefix(entries, longer, order, currency, n - 1);
        assert(entries[n - 1] == longer[n - 1]);
    }
}

impl ShopCreditAccount {
    /// The balance that the entries leave.
    pub open spec fn remaining(self) -> Money {
        if self.entries@.len() == 0 {
            Money { minor: 0, currency: self.currency }
        } else {
            self.entries@.last().balance_after
        }
    }

    /// Whether an operation with a key was recorded.
    pub open spec fn keyed(self, key: Seq<char>) -> bool {
        exists|i: int|
            0 <= i < self.entries@.len() && optional_text(
                (#[trigger] self.entries@[i]).idempotency_key,
            ) == Some(key)
    }

    /// Whether every balance is the sum of the movements up to it, in the account's
    /// currency and never negative, and no idempotency key was applied twice.
    pub open spec fn sound(self) -> bool {
        &&& forall|i: int|
            0 <= i < self.entries@.len() ==> {
                let entry = #[trigger] self.entries@[i];
                &&& entry.amount.currency == self.currency
                &&& entry.balance_after.currency == self.currency
                &&& entry.amount.minor > i64::MIN
                &&& entry.balance_after.minor >= 0
                &&& entry.balance_after.minor == sum(movements(self.entries@.take(i + 1)))
            }
        &&& distinct_keys(self.entries@)
    }

    /// Whether the size of every movement is representable.
    pub open spec fn sized(self) -> bool {
        forall|i: int|
            0 <= i < self.entries@.len() ==> (#[trigger] self.entries@[i]).amount.minor > i64::MIN
    }

    /// An empty account.
    pub fn new(customer_id: CustomerId, shop_id: ShopId, currency: Currency) -> (account: Self)
        ensures
            account.customer_id == customer_id,
            account.shop_id == shop_id,
            account.currency == currency,
            account.entries@.len() == 0,
            account.version == 0,
            account.sound(),
    {
        ShopCreditAccount { customer_id, shop_id, currency, entries: Vec::new(), version: 0 }
    }

    /// Current balance, derived from the entries.
    pub fn balance(&self) -> (amount: Money)
        ensures
            amount == self.remaining(),
    {
        if self.entries.len() == 0 {
            Money::zero(self.currency)
        } else {
            self.entries[self.entries.len() - 1].balance_after
        }
    }

    /// What appending a movement of an amount gives: the balance after it, or the reason
    /// why it is refused.
    pub open spec fn appending(self, amount: Money, key: Option<Seq<char>>) -> Result<
        Money,
        ErrorView,
    > {
        let after = self.remaining().plus(amount);
        if amount.currency != self.currency {
            Err(
                ErrorView::CurrencyMismatch { expected: amount.currency, actual: self.currency },
            )
        } else if key is Some && self.keyed(key->0) {
            Err(
                ErrorView::Conflict {
                    kind: "shop credit"@,
                    id: self.shop_id@,
                    message: "idempotency key '"@ + key->0 + "' already applied"@,
                },
            )
        } else if after is Err {
            after
        } else if after->Ok_0.minor < 0 {
            Err(ErrorView::Internal("credit ledger would go negative"@))
        } else {
            after
        }
    }

    /// The account after a movement was appended that left a balance.
    pub open spec fn extended(
        self,
        amount: Money,
        kind: CreditEntryKind,
        key: Option<String>,
        balance: Money,
        after: ShopCreditAccount,
    ) -> bool {
        &&& after == (ShopCreditAccount {
            entries: after.entries,
            version: next_version(self.version),
            ..self
        })
        &&& after.entries@.len() == self.entries@.len() + 1
        &&& after.entries@.drop_last() == self.entries@
        &&& is_generated(after.entries@.last().id@, "led"@)
        &&& after.entries@.last() == (CreditEntry {
            id: after.entries@.last().id,
            created_at: after.entries@.last().created_at,
            amount,
            kind,
            balance_after: balance,
            idempotency_key: key,
        })
    }

    /// What granting credit gives.
    pub open spec fn granting(self, amount: Money, key: Option<Seq<char>>) -> Result<
        Money,
        ErrorView,
    > {
        if amount.minor <= 0 {
            Err(ErrorView::Validation("granted credit must be positive"@))
        } else {
            self.appending(amount, key)
        }
    }

    /// Add credit. `amount` must be positive.
    pub fn grant(&mut self, amount: Money, reason: &str, idempotency_key: Option<String>) -> (
    done: Result<&CreditEntry, Error>)
        ensures
            match done {
                Ok(entry) => {
                    &&& *entry == final(self).entries@.last()
                    &&& old(self).granting(amount, optional_text(idempotency_key)) is Ok
                    &&& final(self).entries@.last().kind matches CreditEntryKind::Grant {
                        reason: noted,
                    } && noted@ == reason@
                    &&& old(self).extended(
                        amount,
                        final(self).entries@.last().kind,
                        idempotency_key,
                        old(self).granting(amount, optional_text(idempotency_key))->Ok_0,
                        *final(self),
                    )
                },
                Err(error) => *final(self) == *old(self) && old(self).granting(
                    amount,
                    optional_text(idempotency_key),
                ) == Err::<Money, ErrorView>(error@),
            },
            old(self).sound() ==> final(self).sound(),
    {
        if !amount.is_positive() {
            return Err(Error::validation("granted credit must be positive"));
        }
        self.append(amount, CreditEntryKind::Grant { reason: reason.to_owned() }, idempotency_key)
    }

    /// What spending credit gives.
    pub open spec fn redeeming(self, amount: Money, key: Option<Seq<char>>) -> Result<
        Money,
        ErrorView,
    > {
        let balance = self.remaining();
        if amount.minor <= 0 {
            Err(ErrorView::Validation("redeemed credit must be positive"@))
        } else if balance.currency != amount.currency {
            Err(
                ErrorView::CurrencyMismatch {
                    expected: balance.currency,
                    actual: amount.currency,
                },
            )
        } else if amount.more_than(balance) {
            Err(
                ErrorView::InsufficientFunds {
                    source_name: "shop credit at "@ + self.shop_id@,
                    available: balance,
                    required: amount,
                },
            )
        } else {
            self.appending(
                Money { minor: (-amount.minor) as i64, currency: amount.currency },
                key,
            )
        }
    }

    /// Spend credit against an order. `amount` must be positive and available.
    pub fn redeem(&mut self, amount: Money, order_id: OrderId, idempotency_key: Option<String>) -> (
    done: Result<&CreditEntry, Error>)
        ensures
            match done {
                Ok(entry) => {
                    &&& *entry == final(self).entries@.last()
                    &&& old(self).redeeming(amount, optional_text(idempotency_key)) is Ok
                    &&& old(self).extended(
                        Money { minor: (-amount.minor) as i64, currency: amount.currency },
                        CreditEntryKind::Redemption { order_id },
                        idempotency_key,
                        old(self).redeeming(amount, optional_text(idempotency_key))->Ok_0,
                        *final(self),
                    )
                },
                Err(error) => *final(self) == *old(self) && old(self).redeeming(
                    amount,
                    optional_text(idempotency_key),
                ) == Err::<Money, ErrorView>(error@),
            },
            old(self).sound() ==> final(self).sound(),
    {
        if !amount.is_positive() {
            return Err(Error::validation("redeemed credit must be positive"));
        }
        let balance = self.balance();
        match balance.assert_same_currency(amount) {
            Ok(_) => {},
            Err(error) => return Err(error),
        }
        if amount.exceeds(balance) {
            return Err(
                Error::InsufficientFunds {
                    source_name: join("shop credit at ", self.shop_id.as_str()),
                    available: balance,
                    required: amount,
                },
            );
        }
        self.append(amount.negate(), CreditEntryKind::Redemption { order_id }, idempotency_key)
    }

    /// What this account spent on an order, net of reversals and never negative.
    pub open spec fn spent(self, order: Seq<char>) -> Result<Money, ErrorView> {
        match spent_on(self.entries@, order, self.currency, self.entries@.len() as int) {
            Err(error) => Err(error),
            Ok(amount) => Ok(at_least_nothing(amount)),
        }
    }

    /// What giving back credit gives.
    pub open spec fn reversing(
        self,
        amount: Money,
        order: Seq<char>,
        key: Option<Seq<char>>,
    ) -> Result<Money, ErrorView> {
        if amount.minor <= 0 {
            Err(ErrorView::Validation("reversed credit must be positive"@))
        } else {
            match self.spent(order) {
                Err(error) => Err(error),
                Ok(spent) => if amount.more_than(spent) {
                    Err(
                        ErrorView::Validation(
                            "cannot reverse "@ + amount.text() + " of credit: only "@
                                + spent.text() + " was redeemed for "@ + order,
                        ),
                    )
                } else {
                    self.appending(amount, key)
                },
            }
        }
    }

    /// Give back credit that was spent on an order.
    pub fn reverse(&mut self, amount: Money, order_id: OrderId, idempotency_key: Option<String>) -> (
    done: Result<&CreditEntry, Error>)
        requires
            old(self).sized(),
        ensures
            match done {
                Ok(entry) => {
                    &&& *entry == final(self).entries@.last()
                    &&& old(self).reversing(
                        amount,
                        order_id@,
                        optional_text(idempotency_key),
                    ) is Ok
                    &&& old(self).extended(
                        amount,
                        CreditEntryKind::Reversal { order_id },
                        idempotency_key,
                        old(self).reversing(
                            amount,
                            order_id@,
                            optional_text(idempotency_key),
                        )->Ok_0,
                        *final(self),
                    )
                },
                Err(error) => *final(self) == *old(self) && old(self).reversing(
                    amount,
                    order_id@,
                    optional_text(idempotency_key),
                ) == Err::<Money, ErrorView>(error@),
            },
            old(self).sound() ==> final(self).sound(),
    {
        if !amount.is_positive() {
            return Err(Error::validation("reversed credit must be positive"));
        }
        let redeemed = match self.redeemed_for(&order_id) {
            Ok(redeemed) => redeemed,
            Err(error) => return Err(error),
        };
        if amount.exceeds(redeemed) {
            let mut message = join3(
                "cannot reverse ",
                amount.to_text().as_str(),
                " of credit: only ",
            );
            message.append(redeemed.to_text().as_str());
            message.append(" was redeemed for ");
            message.append(order_id.as_str());
            return Err(Error::validation(message.as_str()));
        }
        self.append(amount, CreditEntryKind::Reversal { order_id }, idempotency_key)
    }

    /// Whether credit was given back for an order under a key.
    pub open spec fn reversed_under(self, order: Seq<char>, key: Seq<char>) -> bool {
        exists|i: int|
            0 <= i < self.entries@.len() && gives_back(#[trigger] self.entries@[i], order, key)
    }

    /// Whether credit was already given back for an order under this idempotency key.
    pub fn is_reversed(&self, order_id: &OrderId, key: &str) -> (found: bool)
        ensures
            found == self.reversed_under(order_id@, key@),
    {
        let mut i: usize = 0;
        while i < self.entries.len()
            invariant
                i <= self.entries@.len(),
                forall|j: int|
                    0 <= j < i ==> !gives_back(#[trigger] self.entries@[j], order_id@, key@),
            decreases self.entries@.len() - i,
        {
            let entry = &self.entries[i];
            if let CreditEntryKind::Reversal { order_id: id } = &entry.kind {
                if let Some(used) = &entry.idempotency_key {
                    if id.same(order_id) && same_text(used.as_str(), key) {
                        assert(gives_back(self.entries@[i as int], order_id@, key@));
                        return true;
                    }
                }
            }
            i += 1;
        }
        false
    }

    /// How much credit this account spent on a given order, net of reversals.
    pub fn redeemed_for(&self, order_id: &OrderId) -> (amount: Result<Money, Error>)
        requires
            self.sized(),
        ensures
            outcome(amount) == self.spent(order_id@),
    {
        let ghost entries = self.entries@;
        let mut total = Money::zero(self.currency);
        let mut n: usize = 0;
        while n < self.entries.len()
            invariant
                entries == self.entries@,
                self.sized(),
                n <= entries.len(),
                spent_on(entries, order_id@, self.currency, n as int) == Ok::<Money, ErrorView>(
                    total,
                ),
            decreases entries.len() - n,
        {
            proof {
                if spent_on(entries, order_id@, self.currency, n + 1) is Err {
                    lemma_error_stays(
                        |k: int| spent_on(entries, order_id@, self.currency, k),
                        n + 1,
                        entries.len() as int,
                    );
                }
            }
            let entry = &self.entries[n];
            match &entry.kind {
                CreditEntryKind::Redemption { order_id: id } => {
                    if id.same(order_id) {
                        total = match total.try_add(entry.amount.abs()) {
                            Ok(sum) => sum,
                            Err(error) => return Err(error),
                        };
                    }
                },
                CreditEntryKind::Reversal { order_id: id } => {
                    if id.same(order_id) {
                        total = match total.try_sub(entry.amount.abs()) {
                            Ok(rest) => rest,
                            Err(error) => return Err(error),
                        };
                    }
                },
                _ => {},
            }
            n += 1;
        }
        Ok(total.clamp_non_negative())
    }

    /// Whether an operation with this idempotency key was already recorded.
    pub fn has_key(&self, key: &str) -> (found: bool)
        ensures
            found == self.keyed(key@),
    {
        let mut i: usize = 0;
        while i < self.entries.len()
            invariant
                i <= self.entries@.len(),
                forall|j: int|
                    0 <= j < i ==> optional_text((#[trigger] self.entries@[j]).idempotency_key)
                        != Some(key@),
            decreases self.entries@.len() - i,
        {
            if let Some(used) = &self.entries[i].idempotency_key {
                if same_text(used.as_str(), key) {
                    assert(optional_text(self.entries@[i as int].idempotency_key) == Some(key@));
                    return true;
                }
            }
            i += 1;
        }
        false
    }

    fn append(&mut self, amount: Money, kind: CreditEntryKind, idempotency_key: Option<String>) -> (
    done: Result<&CreditEntry, Error>)
        ensures
            match done {
                Ok(entry) => {
                    &&& *entry == final(self).entries@.last()
                    &&& old(self).appending(amount, optional_text(idempotency_key)) is Ok
                    &&& old(self).extended(
                        amount,
                        kind,
                        idempotency_key,
                        old(self).appending(amount, optional_text(idempotency_key))->Ok_0,
                        *final(self),
                    )
                },
                Err(error) => *final(self) == *old(self) && old(self).appending(
                    amount,
                    optional_text(idempotency_key),
                ) == Err::<Money, ErrorView>(error@),
            },
            old(self).sound() && amount.minor > i64::MIN ==> final(self).sound(),
    {
        match amount.assert_same_currency(Money::zero(self.currency)) {
            Ok(_) => {},
            Err(error) => return Err(error),
        }
        if let Some(key) = &idempotency_key {
            if self.has_key(key.as_str()) {
                let message = join3("idempotency key '", key.as_str(), "' already applied");
                return Err(Error::conflict("shop credit", self.shop_id.as_str(), message.as_str()));
            }
        }
        let balance_after = match self.balance().try_add(amount) {
            Ok(balance) => balance,
            Err(error) => return Err(error),
        };
        if balance_after.is_negative() {
            return Err(Error::internal("credit ledger would go negative"));
        }
        let ghost before = self.entries@;
        self.entries.push(
            CreditEntry {
                id: LedgerEntryId::new(),
                amount,
                kind,
                balance_after,
                created_at: Timestamp::now(),
                idempotency_key,
            },
        );
        self.version = self.version.saturating_add(1);
        assert(self.entries@.drop_last() =~= before);
        proof {
            if old(self).sound() && amount.minor > i64::MIN {
                lemma_appended_is_sound(*old(self), *self);
            }
        }
        Ok(&self.entries[self.entries.len() - 1])
    }
}

proof fn lemma_appended_is_sound(before: ShopCreditAccount, after: ShopCreditAccount)
    requires
        before.sound(),
        after.currency == before.currency,
        after.entries@.len() == before.entries@.len() + 1,
        after.entries@.drop_last() == before.entries@,
        after.entries@.last().amount.minor > i64::MIN,
        after.entries@.last().amount.currency == before.currency,
        before.remaining().plus(after.entries@.last().amount) == Ok::<Money, ErrorView>(
            after.entries@.last().balance_after,
        ),
        after.entries@.last().balance_after.minor >= 0,
        after.entries@.last().idempotency_key matches Some(key) ==> !before.keyed(key@),
    ensures
        after.sound(),
{
    let old_entries = before.entries@;
    let entries = after.entries@;
    let count = old_entries.len() as int;
    assert forall|i: int| 0 <= i < entries.len() implies {
        let entry = #[trigger] entries[i];
        &&& entry.amount.currency == after.currency
        &&& entry.balance_after.currency == after.currency
        &&& entry.amount.minor > i64::MIN
        &&& entry.balance_after.minor >= 0
        &&& entry.balance_after.minor == sum(movements(entries.take(i + 1)))
    } by {
        if i < count {
            assert(entries[i] == old_entries[i]);
            assert(entries.take(i + 1) =~= old_entries.take(i + 1));
        } else {
            assert(movements(entries.take(count + 1)) =~= movements(old_entries).push(
                entries.last().amount.minor as int,
            ));
            lemma_sum_push(movements(old_entries), entries.last().amount.minor as int);
            if count > 0 {
                assert(old_entries.take(count) =~= old_entries);
                assert(old_entries[count - 1] == old_entries.last());
            } else {
                assert(movements(old_entries) =~= Seq::<int>::empty());
            }
        }
    }
    assert forall|i: int, j: int|
        0 <= i < j < entries.len() && (
        #[trigger] entries[i]).idempotency_key is Some implies optional_text(
        entries[i].idempotency_key,
    ) != optional_text((#[trigger] entries[j]).idempotency_key) by {
        assert(entries[i] == old_entries[i]);
        if j < count {
            assert(entries[j] == old_entries[j]);
        } else {
            assert(entries[j] == entries.last());
        }
    }
}

/// The balance of a sound account is the sum of its movements, and never negative.
pub proof fn law_balance_is_derived_from_entries(account: ShopCreditAccount)
    requires
        account.sound(),
    ensures
        account.remaining().minor == sum(movements(account.entries@)),
        account.remaining().minor >= 0,
        account.remaining().currency == account.currency,
{
    let count = account.entries@.len() as int;
    if count > 0 {
        assert(account.entries@[count - 1] == account.entries@.last());
        assert(account.entries@.take(count) =~= account.entries@);
    } else {
        assert(movements(account.entries@) =~= Seq::<int>::empty());
    }
}

/// A key is applied once: whatever was granted, redeemed and reversed, no two movements of
/// a sound account carry the same idempotency key.
pub proof fn law_keys_are_applied_once(account: ShopCreditAccount, i: int, j: int)
    requires
        account.sound(),
        0 <= i < account.entries@.len(),
        0 <= j < account.entries@.len(),
        account.entries@[i].idempotency_key is Some,
        optional_text(account.entries@[i].idempotency_key) == optional_text(
            account.entries@[j].idempotency_key,
        ),
    ensures
        i == j,
{
    if i < j {
        assert(account.entries@[i].idempotency_key is Some);
    } else if j < i {
        assert(account.entries@[j].idempotency_key is Some);
    }
}

/// What an order redeems can be reversed in full, and reversing it leaves the balance that
/// there was before.
pub proof fn law_spent_credit_can_be_reversed(
    account: ShopCreditAccount,
    amount: Money,
    order_id: OrderId,
    key: Option<String>,
    spent: ShopCreditAccount,
    before: Money,
)
    requires
        account.sound(),
        spent_on(account.entries@, order_id@, account.currency, account.entries@.len() as int)
            == Ok::<Money, ErrorView>(before),
        0 <= before.minor <= i64::MAX - amount.minor,
        account.redeeming(amount, optional_text(key)) is Ok,
        account.extended(
            Money { minor: (-amount.minor) as i64, currency: amount.currency },
            CreditEntryKind::Redemption { order_id },
            key,
            account.redeeming(amount, optional_text(key))->Ok_0,
            spent,
        ),
    ensures
        account.spent(order_id@) == Ok::<Money, ErrorView>(before),
        spent.spent(order_id@) == before.plus(amount),
        spent.reversing(amount, order_id@, None) == Ok::<Money, ErrorView>(account.remaining()),
{
    let count = account.entries@.len() as int;
    law_balance_is_derived_from_entries(account);
    lemma_spent_on_currency(account.entries@, order_id@, account.currency, count);
    assert forall|i: int| 0 <= i < count implies account.entries@[i]
        == #[trigger] spent.entries@[i] by {
        assert(spent.entries@.drop_last()[i] == spent.entries@[i]);
    }
    lemma_spent_on_prefix(account.entries@, spent.entries@, order_id@, account.currency, count);
    assert(spent.entries@[count] == spent.entries@.last());
    assert(spent_on(spent.entries@, order_id@, account.currency, count + 1) == before.plus(
        amount,
    ));
}

proof fn lemma_spent_on_currency(
    entries: Seq<CreditEntry>,
    order: Seq<char>,
    currency: Currency,
    n: int,
)
    ensures
        spent_on(entries, order, currency, n) matches Ok(amount) ==> amount.currency == currency,
    decreases n,
{
    if n > 0 {
        lemma_spent_on_currency(entries, order, currency, n - 1);
    }
}

/// Reversing what an order spent gives the whole of it back: the balance is what it was
/// before, and nothing is left spent on the order beyond what was spent before.
pub proof fn law_reversal_undoes_a_redemption(
    account: ShopCreditAccount,
    amount: Money,
    order_id: OrderId,
    first_key: Option<String>,
    spent: ShopCreditAccount,
    second_key: Option<String>,
    restored: ShopCreditAccount,
)
    requires
        account.sound(),
        account.redeeming(amount, optional_text(first_key)) is Ok,
        account.extended(
            Money { minor: (-amount.minor) as i64, currency: amount.currency },
            CreditEntryKind::Redemption { order_id },
            first_key,
            account.redeeming(amount, optional_text(first_key))->Ok_0,
            spent,
        ),
        spent.reversing(amount, order_id@, optional_text(second_key)) is Ok,
        spent.extended(
            amount,
            CreditEntryKind::Reversal { order_id },
            second_key,
            spent.reversing(amount, order_id@, optional_text(second_key))->Ok_0,
            restored,
        ),
    ensures
        restored.remaining() == account.remaining(),
        restored.spent(order_id@) == account.spent(order_id@),
{
    let count = account.entries@.len() as int;
    assert forall|i: int| 0 <= i < count implies account.entries@[i]
        == #[trigger] spent.entries@[i] by {
        assert(spent.entries@.drop_last()[i] == spent.entries@[i]);
    }
    assert forall|i: int| 0 <= i < count + 1 implies spent.entries@[i]
        == #[trigger] restored.entries@[i] by {
        assert(restored.entries@.drop_last()[i] == restored.entries@[i]);
    }
    lemma_spent_on_prefix(account.entries@, spent.entries@, order_id@, account.currency, count);
    lemma_spent_on_prefix(spent.entries@, restored.entries@, order_id@, account.currency, count + 1);
    reveal_with_fuel(spent_on, 2);
    assert(restored.entries@[count + 1] == restored.entries@.last());
    assert(restored.entries@[count] == spent.entries@.last());
    assert(spent.entries@[count] == spent.entries@.last());
}

/// Credit is granted exactly for a positive amount in the currency of the account, under a
/// key that it has not seen and as far as the balance can be told; the amount is added.
pub proof fn law_grants_add_to_the_balance(
    account: ShopCreditAccount,
    amount: Money,
    key: Option<Seq<char>>,
)
    requires
        account.sound(),
    ensures
        account.granting(amount, key) is Ok <==> {
            &&& amount.minor > 0
            &&& amount.currency == account.currency
            &&& key is Some ==> !account.keyed(key->0)
            &&& account.remaining().minor + amount.minor <= i64::MAX
        },
        account.granting(amount, key) is Ok ==> account.granting(amount, key)->Ok_0.minor
            == account.remaining().minor + amount.minor,
{
    law_balance_is_derived_from_entries(account);
}

/// Credit is spent exactly for a positive amount that the account holds, under a key that
/// it has not seen; the amount is taken off the balance.
pub proof fn law_credit_is_spent_within_the_balance(
    account: ShopCreditAccount,
    amount: Money,
    key: Option<Seq<char>>,
)
    requires
        account.sound(),
    ensures
        account.redeeming(amount, key) is Ok <==> {
            &&& amount.currency == account.currency
            &&& 0 < amount.minor <= account.remaining().minor
            &&& key is Some ==> !account.keyed(key->0)
        },
        account.redeeming(amount, key) is Ok ==> account.redeeming(amount, key)->Ok_0.minor
            == account.remaining().minor - amount.minor,
{
    law_balance_is_derived_from_entries(account);
}

/// What an order spent goes up by what it redeems and down by what is reversed for it;
/// grants, and movements of other orders, do not count.
pub proof fn law_orders_spend_what_they_redeemed(
    entries: Seq<CreditEntry>,
    entry: CreditEntry,
    order: Seq<char>,
    currency: Currency,
)
    requires
        spent_on(entries.push(entry), order, currency, entries.len() as int + 1) is Ok,
        entry.amount.minor > i64::MIN,
    ensures
        ({
            let before = spent_on(entries, order, currency, entries.len() as int);
            let after = spent_on(entries.push(entry), order, currency, entries.len() as int + 1);
            let size = if entry.amount.minor < 0 {
                -entry.amount.minor
            } else {
                entry.amount.minor as int
            };
            &&& before is Ok
            &&& entry.kind matches CreditEntryKind::Redemption { order_id } ==> (order_id@ == order
                ==> after->Ok_0.minor == before->Ok_0.minor + size) && (order_id@ != order
                ==> after == before)
            &&& entry.kind matches CreditEntryKind::Reversal { order_id } ==> (order_id@ == order
                ==> after->Ok_0.minor == before->Ok_0.minor - size) && (order_id@ != order
                ==> after == before)
            &&& !(entry.kind is Redemption) && !(entry.kind is Reversal) ==> after == before
        }),
        spent_on(Seq::empty(), order, currency, 0)->Ok_0.minor == 0,
{
    lemma_spent_on_prefix(entries, entries.push(entry), order, currency, entries.len() as int);
    assert(entries.push(entry)[entries.len() as int] == entry);
}

/// Credit is given back exactly when it is no more than the order spent, under a key that
/// the account has not seen and as far as the balance can be told; the amount is added.
pub proof fn law_credit_takes_back_what_was_spent(
    account: ShopCreditAccount,
    amount: Money,
    order: Seq<char>,
    key: Option<Seq<char>>,
)
    requires
        account.sound(),
        amount.currency == account.currency,
        spent_on(account.entries@, order, account.currency, account.entries@.len() as int) is Ok,
    ensures
        ({
            let spent = spent_on(
                account.entries@,
                order,
                account.currency,
                account.entries@.len() as int,
            )->Ok_0;
            &&& account.reversing(amount, order, key) is Ok <==> {
                &&& 0 < amount.minor <= spent.minor
                &&& key is Some ==> !account.keyed(key->0)
                &&& account.remaining().minor + amount.minor <= i64::MAX
            }
            &&& account.reversing(amount, order, key) is Ok ==> account.reversing(
                amount,
                order,
                key,
            )->Ok_0.minor == account.remaining().minor + amount.minor
        }),
{
    law_balance_is_derived_from_entries(account);
    lemma_spent_on_currency(
        account.entries@,
        order,
        account.currency,
        account.entries@.len() as int,
    );
}

} // verus!
