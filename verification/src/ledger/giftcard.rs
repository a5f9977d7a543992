//! Gift cards.
//!
//! The redeemable code is a bearer instrument: anyone holding it can spend the
//! balance. It is therefore **never stored in the clear** — only a SHA-256 hash
//! is persisted, exactly as you would treat a password. Lookups hash the
//! candidate code and compare hashes, and the display form is masked.

use vstd::prelude::*;
use vstd::utf8::encode_utf8;

use crate::cart::next_version;
use crate::crypto::{hex_encode, hex_of, sha256, sha256_digest};
use crate::error::{outcome, Error, ErrorView};
use crate::folds::lemma_error_stays;
use crate::ids::{is_generated, GiftCardId, OrderId, ShopId};
use crate::money::{Currency, Money};
use crate::payment::split::at_least_nothing;
use crate::secret::{bytes_equal, lemma_same_bytes_same_text, mask_tail, masked};
use crate::sums::{lemma_sum_push, sum};
use crate::text::{
    chars_of, is_ascii_digit, is_ascii_letter, join, join3, optional_text, same_text, to_upper_char,
    upper_char,
};
use crate::time::Timestamp;

verus! {

/// Whether a character beyond ASCII is a letter or a number.
pub uninterp spec fn wide_alphanumeric(c: char) -> bool;

/// Whether a character is a letter or a number.
pub open spec fn alphanumeric(c: char) -> bool {
    if (c as int) < 128 {
        is_ascii_letter(c) || is_ascii_digit(c)
    } else {
        wide_alphanumeric(c)
    }
}

/// Tells letters and numbers by `char::is_alphanumeric`: in ASCII these are the letters
/// `A` to `Z` and `a` to `z` and the digits; beyond it, what is a letter or a number is
/// told by the Unicode tables of the standard library's release.
#[verifier::external_body]
fn is_alphanumeric(c: char) -> (found: bool)
    ensures
        found == if (c as int) < 128 {
            is_ascii_letter(c) || is_ascii_digit(c)
        } else {
            wide_alphanumeric(c)
        },
{
    c.is_alphanumeric()
}

/// A code without its separators, in capitals.
pub open spec fn normalised(code: Seq<char>) -> Seq<char>
    decreases code.len(),
{
    if code.len() == 0 {
        Seq::empty()
    } else {
        let before = normalised(code.drop_last());
        if alphanumeric(code.last()) {
            before.push(upper_char(code.last()))
        } else {
            before
        }
    }
}

fn normalise(code: &str) -> (text: String)
    ensures
        text@ == normalised(code@),
{
    let chars = chars_of(code);
    let mut text = String::new();
    let mut n: usize = 0;
    assert(chars@.take(0) =~= Seq::<char>::empty());
    while n < chars.len()
        invariant
            n <= chars@.len(),
            text@ == normalised(chars@.take(n as int)),
        decreases chars@.len() - n,
    {
        assert(chars@.take(n + 1).drop_last() =~= chars@.take(n as int));
        if is_alphanumeric(chars[n]) {
            text.push(to_upper_char(chars[n]));
        }
        n += 1;
    }
    assert(chars@.take(n as int) =~= chars@);
    text
}

fn count_alphanumeric(code: &str) -> (count: usize)
    ensures
        count == normalised(code@).len(),
{
    let chars = chars_of(code);
    let mut count: usize = 0;
    let mut n: usize = 0;
    assert(chars@.take(0) =~= Seq::<char>::empty());
    while n < chars.len()
        invariant
            n <= chars@.len(),
            count <= n,
            count == normalised(chars@.take(n as int)).len(),
        decreases chars@.len() - n,
    {
        assert(chars@.take(n + 1).drop_last() =~= chars@.take(n as int));
        if is_alphanumeric(chars[n]) {
            count += 1;
        }
        n += 1;
    }
    assert(chars@.take(n as int) =~= chars@);
    count
}

/// The hash of a gift card code: the SHA-256 digest of its normalised form, in
/// hexadecimal digits.
pub open spec fn code_hash(code: Seq<char>) -> Seq<char> {
    hex_of(sha256_digest(encode_utf8(normalised(code))))
}

/// Hash a gift card code for storage and lookup.
///
/// Codes are upper-cased and stripped of separators first so that
/// `abcd-efgh` and `ABCDEFGH` resolve to the same card.
pub fn hash_gift_card_code(code: &str) -> (hash: String)
    ensures
        hash@ == code_hash(code@),
        hash@.len() == 64,
{
    let normal = normalise(code);
    let digest = sha256(normal.as_str().as_bytes());
    hex_encode(digest.as_slice())
}

/// Codes that differ in the case of their ASCII letters, or by a separator anywhere, are the same
/// code.
pub proof fn law_codes_ignore_case_and_separators(
    first: Seq<char>,
    separator: char,
    second: Seq<char>,
)
    requires
        !alphanumeric(separator),
    ensures
        normalised(first.push(separator) + second) == normalised(first + second),
        code_hash(first.push(separator) + second) == code_hash(first + second),
        normalised(crate::text::upper(first)) == normalised(first),
        normalised(crate::text::lower(first)) == normalised(first),
    decreases first.len() + second.len(),
{
    let with = first.push(separator) + second;
    let without = first + second;
    if second.len() == 0 {
        assert(with =~= first.push(separator));
        assert(without =~= first);
        assert(with.drop_last() =~= first);
    } else {
        law_codes_ignore_case_and_separators(first, separator, second.drop_last());
        assert(with.drop_last() =~= first.push(separator) + second.drop_last());
        assert(without.drop_last() =~= first + second.drop_last());
    }
    lemma_case_is_ignored(first);
}

proof fn lemma_case_is_ignored(code: Seq<char>)
    ensures
        normalised(crate::text::upper(code)) == normalised(code),
        normalised(crate::text::lower(code)) == normalised(code),
    decreases code.len(),
{
    if code.len() > 0 {
        lemma_case_is_ignored(code.drop_last());
        assert(crate::text::upper(code).drop_last() =~= crate::text::upper(code.drop_last()));
        assert(crate::text::lower(code).drop_last() =~= crate::text::lower(code.drop_last()));
    }
}

/// Lifecycle of a gift card.
#[derive(Debug, Clone, Copy, PartialEq, Eq, Structural)]
pub enum GiftCardStatus {
    /// Usable.
    Active,
    /// Fully spent.
    Depleted,
    /// Past its expiry date.
    Expired,
    /// Blocked by an operator (fraud, chargeback on the purchase).
    Voided,
}

impl Default for GiftCardStatus {
    fn default() -> (status: Self)
        ensures
            status == GiftCardStatus::Active,
    {
        GiftCardStatus::Active
    }
}

/// One movement against a gift card.
#[derive(Debug, PartialEq)]
pub struct GiftCardRedemption {
    /// Order the card paid for.
    pub order_id: OrderId,
    /// Signed amount: negative spends, positive restores.
    pub amount: Money,
    /// When it happened.
    pub occurred_at: Timestamp,
    /// Idempotency key of the operation.
    pub idempotency_key: Option<String>,
}

impl Clone for GiftCardRedemption {
    fn clone(&self) -> (copy: Self)
        ensures
            copy == *self,
    {
        GiftCardRedemption {
            order_id: self.order_id.clone(),
            amount: self.amount,
            occurred_at: self.occurred_at,
            idempotency_key: self.idempotency_key.clone(),
        }
    }
}

/// A stored-value card.
#[derive(Debug, Clone, PartialEq)]
pub struct GiftCard {
    /// Identifier.
    pub id: GiftCardId,
    /// SHA-256 of the normalised code. The code itself is never stored.
    pub code_hash: String,
    /// Masked form for display, e.g. `"********5678"`.
    pub masked_code: String,
    /// Currency of the balance.
    pub currency: Currency,
    /// Amount the card was issued with.
    pub initial_balance: Money,
    /// Amount still available.
    pub balance: Money,
    /// When set, the card is only valid at this shop.
    pub shop_id: Option<ShopId>,
    /// Current state.
    pub status: GiftCardStatus,
    /// Expiry, if the card has one.
    pub expires_at: Option<Timestamp>,
    /// Redemptions, for audit and reversal.
    pub redemptions: Vec<GiftCardRedemption>,
    /// Optimistic concurrency token.
    pub version: u64,
    /// Issue time.
    pub created_at: Timestamp,
}

/// The amounts of a list of movements, in minor units.
pub open spec fn movements(list: Seq<GiftCardRedemption>) -> Seq<int> {
    list.map_values(|movement: GiftCardRedemption| movement.amount.minor as int)
}

/// What the first `n` movements spent on an order, less what they restored.
pub open spec fn spent_on(
    list: Seq<GiftCardRedemption>,
    order: Seq<char>,
    currency: Currency,
    n: int,
) -> Result<Money, ErrorView>
    decreases n,
{
    if n <= 0 {
        Ok(Money { minor: 0, currency })
    } else {
        match spent_on(list, order, currency, n - 1) {
            Err(error) => Err(error),
            Ok(before) => if list[n - 1].order_id@ == order {
                before.minus(list[n - 1].amount)
            } else {
                Ok(before)
            },
        }
    }
}

impl GiftCard {
    /// Whether the card's balance is what it was issued with and what moved since, in one
    /// currency and never negative.
    pub open spec fn sound(self) -> bool {
        &&& self.initial_balance.currency == self.currency
        &&& self.balance.currency == self.currency
        &&& self.balance.minor >= 0
        &&& self.balance.minor == self.initial_balance.minor + sum(movements(self.redemptions@))
        &&& forall|i: int|
            0 <= i < self.redemptions@.len() ==> (#[trigger] self.redemptions@[i]).amount.currency
                == self.currency
    }

    /// Why a card may not be issued, when it may not.
    pub open spec fn issue_refused(code: Seq<char>, amount: Money) -> Option<ErrorView> {
        if amount.minor <= 0 {
            Some(ErrorView::Validation("gift card value must be positive"@))
        } else if normalised(code).len() < 8 {
            Some(ErrorView::Validation("gift card codes must have at least 8 characters"@))
        } else {
            None
        }
    }

    /// Issue a card for `code` with `amount` on it.
    ///
    /// The plaintext `code` is consumed here and never retained.
    pub fn issue(code: &str, amount: Money) -> (card: Result<Self, Error>)
        ensures
            match card {
                Ok(made) => {
                    &&& Self::issue_refused(code@, amount) is None
                    &&& is_generated(made.id@, "gc"@)
                    &&& made.code_hash@ == code_hash(code@)
                    &&& made.masked_code@ == masked(code@, 4)
                    &&& made.currency == amount.currency
                    &&& made.initial_balance == amount
                    &&& made.balance == amount
                    &&& made.shop_id is None
                    &&& made.status == GiftCardStatus::Active
                    &&& made.expires_at is None
                    &&& made.redemptions@.len() == 0
                    &&& made.version == 0
                    &&& made.sound()
                },
                Err(error) => Self::issue_refused(code@, amount) == Some(error@),
            },
    {
        if !amount.is_positive() {
            return Err(Error::validation("gift card value must be positive"));
        }
        if count_alphanumeric(code) < 8 {
            return Err(Error::validation("gift card codes must have at least 8 characters"));
        }
        let card = GiftCard {
            id: GiftCardId::new(),
            code_hash: hash_gift_card_code(code),
            masked_code: mask_tail(code, 4),
            currency: amount.currency(),
            initial_balance: amount,
            balance: amount,
            shop_id: None,
            status: GiftCardStatus::Active,
            expires_at: None,
            redemptions: Vec::new(),
            version: 0,
            created_at: Timestamp::now(),
        };
        assert(movements(card.redemptions@) =~= Seq::<int>::empty());
        Ok(card)
    }

    /// Builder: restrict the card to one shop.
    pub fn for_shop(self, shop_id: ShopId) -> (card: Self)
        ensures
            card == (GiftCard { shop_id: Some(shop_id), ..self }),
    {
        GiftCard { shop_id: Some(shop_id), ..self }
    }

    /// Builder: set an expiry.
    pub fn expiring_at(self, at: Timestamp) -> (card: Self)
        ensures
            card == (GiftCard { expires_at: Some(at), ..self }),
    {
        GiftCard { expires_at: Some(at), ..self }
    }

    /// Whether `code` matches this card, compared in constant time.
    pub fn matches_code(&self, code: &str) -> (matched: bool)
        ensures
            matched == (code_hash(code@) == self.code_hash@),
    {
        let candidate = hash_gift_card_code(code);
        proof {
            lemma_same_bytes_same_text(candidate@, self.code_hash@);
        }
        bytes_equal(candidate.as_str().as_bytes(), self.code_hash.as_str().as_bytes())
    }

    /// Whether the card's time is over at `now`.
    pub open spec fn lapsed(self, now: Timestamp) -> bool {
        match self.expires_at {
            Some(expiry) => !now.before(expiry),
            None => false,
        }
    }

    /// Whether the card can be spent at `now`.
    pub open spec fn usable(self, now: Timestamp) -> bool {
        self.status is Active && self.balance.minor > 0 && !self.lapsed(now)
    }

    /// Why the card cannot be spent at `now`, when it cannot.
    pub open spec fn unusable(self, now: Timestamp) -> Option<ErrorView> {
        match self.status {
            GiftCardStatus::Voided => Some(
                ErrorView::Validation("this gift card is no longer valid"@),
            ),
            GiftCardStatus::Expired => Some(ErrorView::Validation("this gift card has expired"@)),
            GiftCardStatus::Depleted => Some(
                ErrorView::Validation("this gift card has no balance left"@),
            ),
            GiftCardStatus::Active => if self.lapsed(now) {
                Some(ErrorView::Validation("this gift card has expired"@))
            } else if self.balance.minor <= 0 {
                Some(ErrorView::Validation("this gift card has no balance left"@))
            } else {
                None
            },
        }
    }

    /// Whether the card can be spent at `now`.
    pub fn is_redeemable(&self, now: Timestamp) -> (redeemable: bool)
        ensures
            redeemable == self.usable(now),
            redeemable == (self.unusable(now) is None),
    {
        if self.status != GiftCardStatus::Active || !self.balance.is_positive() {
            return false;
        }
        match self.expires_at {
            Some(expiry) => now.is_before(expiry),
            None => true,
        }
    }

    /// Reject an unusable card with a precise reason.
    pub fn ensure_redeemable(&self, now: Timestamp) -> (done: Result<(), Error>)
        ensures
            match done {
                Ok(_) => self.unusable(now) is None,
                Err(error) => self.unusable(now) == Some(error@),
            },
    {
        match self.status {
            GiftCardStatus::Voided => {
                return Err(Error::validation("this gift card is no longer valid"));
            },
            GiftCardStatus::Expired => {
                return Err(Error::validation("this gift card has expired"));
            },
            GiftCardStatus::Depleted => {
                return Err(Error::validation("this gift card has no balance left"));
            },
            GiftCardStatus::Active => {},
        }
        if let Some(expiry) = self.expires_at {
            if !now.is_before(expiry) {
                return Err(Error::validation("this gift card has expired"));
            }
        }
        if !self.balance.is_positive() {
            return Err(Error::validation("this gift card has no balance left"));
        }
        Ok(())
    }

    /// What of an amount the card can pay at `now`.
    pub open spec fn applicable(self, wanted: Money, now: Timestamp) -> Result<Money, ErrorView> {
        if !self.usable(now) {
            Ok(Money { minor: 0, currency: self.currency })
        } else if self.balance.currency != wanted.currency {
            Err(
                ErrorView::CurrencyMismatch {
                    expected: self.balance.currency,
                    actual: wanted.currency,
                },
            )
        } else {
            wanted.smaller(self.balance)
        }
    }

    /// The most that can be applied to an order, capped by the balance.
    pub fn applicable_amount(&self, wanted: Money, now: Timestamp) -> (amount: Result<
        Money,
        Error,
    >)
        ensures
            outcome(amount) == self.applicable(wanted, now),
    {
        if !self.is_redeemable(now) {
            return Ok(Money::zero(self.currency));
        }
        match self.balance.assert_same_currency(wanted) {
            Ok(_) => {},
            Err(error) => return Err(error),
        }
        wanted.try_min(self.balance)
    }

    /// Whether an operation with a key was recorded.
    pub open spec fn keyed(self, key: Seq<char>) -> bool {
        exists|i: int|
            0 <= i < self.redemptions@.len() && optional_text(
                (#[trigger] self.redemptions@[i]).idempotency_key,
            ) == Some(key)
    }

    /// Whether an operation with this idempotency key was already recorded.
    pub fn has_key(&self, key: &str) -> (found: bool)
        ensures
            found == self.keyed(key@),
    {
        let mut i: usize = 0;
        while i < self.redemptions.len()
            invariant
                i <= self.redemptions@.len(),
                forall|j: int|
                    0 <= j < i ==> optional_text((#[trigger] self.redemptions@[j]).idempotency_key)
                        != Some(key@),
            decreases self.redemptions@.len() - i,
        {
            if let Some(used) = &self.redemptions[i].idempotency_key {
                if same_text(used.as_str(), key) {
                    assert(optional_text(self.redemptions@[i as int].idempotency_key) == Some(
                        key@,
                    ));
                    return true;
                }
            }
            i += 1;
        }
        false
    }

    /// What spending an amount leaves on the card, or why it is refused.
    pub open spec fn redeeming(
        self,
        amount: Money,
        now: Timestamp,
        key: Option<Seq<char>>,
    ) -> Result<Money, ErrorView> {
        if self.unusable(now) is Some {
            Err(self.unusable(now)->0)
        } else if amount.minor <= 0 {
            Err(ErrorView::Validation("redeemed amount must be positive"@))
        } else if self.balance.currency != amount.currency {
            Err(
                ErrorView::CurrencyMismatch {
                    expected: self.balance.currency,
                    actual: amount.currency,
                },
            )
        } else if amount.more_than(self.balance) {
            Err(
                ErrorView::InsufficientFunds {
                    source_name: "gift card "@ + self.masked_code@,
                    available: self.balance,
                    required: amount,
                },
            )
        } else if key is Some && self.keyed(key->0) {
            Err(
                ErrorView::Conflict {
                    kind: "gift card"@,
                    id: self.id@,
                    message: "idempotency key '"@ + key->0 + "' already applied"@,
                },
            )
        } else {
            self.balance.minus(amount)
        }
    }

    /// The card after a movement was recorded that left a balance and a status.
    pub open spec fn moved(
        self,
        movement: GiftCardRedemption,
        balance: Money,
        status: GiftCardStatus,
        after: GiftCard,
    ) -> bool {
        &&& after == (GiftCard {
            balance,
            status,
            redemptions: after.redemptions,
            version: next_version(self.version),
            ..self
        })
        &&& after.redemptions@ == self.redemptions@.push(movement)
    }

    /// Spend `amount` against `order`.
    pub fn redeem(
        &mut self,
        amount: Money,
        order_id: OrderId,
        now: Timestamp,
        idempotency_key: Option<String>,
    ) -> (done: Result<(), Error>)
        ensures
            match done {
                Ok(_) => {
                    let left = old(self).redeeming(amount, now, optional_text(idempotency_key));
                    &&& left is Ok
                    &&& old(self).moved(
                        (GiftCardRedemption {
                            order_id,
                            amount: Money {
                                minor: (-amount.minor) as i64,
                                currency: amount.currency,
                            },
                            occurred_at: now,
                            idempotency_key,
                        }),
                        left->Ok_0,
                        if left->Ok_0.minor == 0 {
                            GiftCardStatus::Depleted
                        } else {
                            old(self).status
                        },
                        *final(self),
                    )
                },
                Err(error) => *final(self) == *old(self) && old(self).redeeming(
                    amount,
                    now,
                    optional_text(idempotency_key),
                ) == Err::<Money, ErrorView>(error@),
            },
            old(self).sound() ==> final(self).sound(),
    {
        match self.ensure_redeemable(now) {
            Ok(_) => {},
            Err(error) => return Err(error),
        }
        if !amount.is_positive() {
            return Err(Error::validation("redeemed amount must be positive"));
        }
        match self.balance.assert_same_currency(amount) {
            Ok(_) => {},
            Err(error) => return Err(error),
        }
        if amount.exceeds(self.balance) {
            return Err(
                Error::InsufficientFunds {
                    source_name: join("gift card ", self.masked_code.as_str()),
                    available: self.balance,
                    required: amount,
                },
            );
        }
        if let Some(key) = &idempotency_key {
            if self.has_key(key.as_str()) {
                let message = join3("idempotency key '", key.as_str(), "' already applied");
                return Err(Error::conflict("gift card", self.id.as_str(), message.as_str()));
            }
        }
        let balance = match self.balance.try_sub(amount) {
            Ok(balance) => balance,
            Err(error) => return Err(error),
        };
        self.balance = balance;
        self.redemptions.push(
            GiftCardRedemption {
                order_id,
                amount: amount.negate(),
                occurred_at: now,
                idempotency_key,
            },
        );
        if self.balance.is_zero() {
            self.status = GiftCardStatus::Depleted;
        }
        self.version = self.version.saturating_add(1);
        proof {
            if old(self).sound() {
                lemma_moved_is_sound(*old(self), *self);
            }
        }
        Ok(())
    }

    /// Net amount spent on an order; never negative.
    pub open spec fn spent(self, order: Seq<char>) -> Result<Money, ErrorView> {
        match spent_on(self.redemptions@, order, self.currency, self.redemptions@.len() as int) {
            Err(error) => Err(error),
            Ok(amount) => Ok(at_least_nothing(amount)),
        }
    }

    /// What putting an amount back leaves on the card, or why it is refused.
    pub open spec fn restoring(self, amount: Money, order: Seq<char>) -> Result<Money, ErrorView> {
        if amount.minor <= 0 {
            Err(ErrorView::Validation("restored amount must be positive"@))
        } else {
            match self.spent(order) {
                Err(error) => Err(error),
                Ok(spent) => if amount.more_than(spent) {
                    Err(
                        ErrorView::Validation(
                            "cannot restore "@ + amount.text() + ": only "@ + spent.text()
                                + " was redeemed for "@ + order,
                        ),
                    )
                } else {
                    self.balance.plus(amount)
                },
            }
        }
    }

    /// Put money back on the card after a refund.
    pub fn restore(&mut self, amount: Money, order_id: OrderId, now: Timestamp) -> (done: Result<
        (),
        Error,
    >)
        ensures
            match done {
                Ok(_) => {
                    let left = old(self).restoring(amount, order_id@);
                    &&& left is Ok
                    &&& old(self).moved(
                        (GiftCardRedemption {
                            order_id,
                            amount,
                            occurred_at: now,
                            idempotency_key: None,
                        }),
                        left->Ok_0,
                        if old(self).status is Depleted && left->Ok_0.minor > 0 {
                            GiftCardStatus::Active
                        } else {
                            old(self).status
                        },
                        *final(self),
                    )
                },
                Err(error) => *final(self) == *old(self) && old(self).restoring(amount, order_id@)
                    == Err::<Money, ErrorView>(error@),
            },
            old(self).sound() ==> final(self).sound(),
    {
        self.put_back(amount, order_id, now, None)
    }

    /// Whether money was put back for an order under a key.
    pub open spec fn restored_under(self, order: Seq<char>, key: Seq<char>) -> bool {
        exists|i: int|
            0 <= i < self.redemptions@.len() && (#[trigger] self.redemptions@[i]).order_id@
                == order && optional_text(self.redemptions@[i].idempotency_key) == Some(key)
                && self.redemptions@[i].amount.minor > 0
    }

    /// Whether money was already put back for an order under this idempotency key.
    pub fn is_restored(&self, order_id: &OrderId, key: &str) -> (found: bool)
        ensures
            found == self.restored_under(order_id@, key@),
    {
        let mut i: usize = 0;
        while i < self.redemptions.len()
            invariant
                i <= self.redemptions@.len(),
                forall|j: int|
                    0 <= j < i ==> !((#[trigger] self.redemptions@[j]).order_id@ == order_id@
                        && optional_text(self.redemptions@[j].idempotency_key) == Some(key@)
                        && self.redemptions@[j].amount.minor > 0),
            decreases self.redemptions@.len() - i,
        {
            let movement = &self.redemptions[i];
            if let Some(used) = &movement.idempotency_key {
                if movement.order_id.same(order_id) && same_text(used.as_str(), key)
                    && movement.amount.is_positive() {
                    assert(self.redemptions@[i as int].order_id@ == order_id@);
                    return true;
                }
            }
            i += 1;
        }
        false
    }

    /// Put money back on the card after a refund that has an idempotency key.
    pub fn put_back(
        &mut self,
        amount: Money,
        order_id: OrderId,
        now: Timestamp,
        idempotency_key: Option<String>,
    ) -> (done: Result<(), Error>)
        ensures
            match done {
                Ok(_) => {
                    let left = old(self).restoring(amount, order_id@);
                    &&& left is Ok
                    &&& old(self).moved(
                        (GiftCardRedemption {
                            order_id,
                            amount,
                            occurred_at: now,
                            idempotency_key,
                        }),
                        left->Ok_0,
                        if old(self).status is Depleted && left->Ok_0.minor > 0 {
                            GiftCardStatus::Active
                        } else {
                            old(self).status
                        },
                        *final(self),
                    )
                },
                Err(error) => *final(self) == *old(self) && old(self).restoring(amount, order_id@)
                    == Err::<Money, ErrorView>(error@),
            },
            old(self).sound() ==> final(self).sound(),
    {
        if !amount.is_positive() {
            return Err(Error::validation("restored amount must be positive"));
        }
        let spent = match self.redeemed_for(&order_id) {
            Ok(spent) => spent,
            Err(error) => return Err(error),
        };
        if amount.exceeds(spent) {
            let mut message = join3("cannot restore ", amount.to_text().as_str(), ": only ");
            message.append(spent.to_text().as_str());
            message.append(" was redeemed for ");
            message.append(order_id.as_str());
            return Err(Error::validation(message.as_str()));
        }
        let balance = match self.balance.try_add(amount) {
            Ok(balance) => balance,
            Err(error) => return Err(error),
        };
        self.balance = balance;
        self.redemptions.push(
            GiftCardRedemption { order_id, amount, occurred_at: now, idempotency_key },
        );
        if self.status == GiftCardStatus::Depleted && self.balance.is_positive() {
            self.status = GiftCardStatus::Active;
        }
        self.version = self.version.saturating_add(1);
        proof {
            if old(self).sound() {
                lemma_moved_is_sound(*old(self), *self);
            }
        }
        Ok(())
    }

    /// Net amount spent on `order_id`.
    pub fn redeemed_for(&self, order_id: &OrderId) -> (amount: Result<Money, Error>)
        ensures
            outcome(amount) == self.spent(order_id@),
    {
        let ghost list = self.redemptions@;
        let mut total = Money::zero(self.currency);
        let mut n: usize = 0;
        while n < self.redemptions.len()
            invariant
                list == self.redemptions@,
                n <= list.len(),
                spent_on(list, order_id@, self.currency, n as int) == Ok::<Money, ErrorView>(
                    total,
                ),
            decreases list.len() - n,
        {
            if self.redemptions[n].order_id.same(order_id) {
                total = match total.try_sub(self.redemptions[n].amount) {
                    Ok(rest) => rest,
                    Err(error) => {
                        proof {
                            lemma_error_stays(
                                |k: int| spent_on(list, order_id@, self.currency, k),
                                n + 1,
                                list.len() as int,
                            );
                        }
                        return Err(error);
                    },
                };
            }
            n += 1;
        }
        Ok(total.clamp_non_negative())
    }
}

proof fn lemma_moved_is_sound(before: GiftCard, after: GiftCard)
    requires
        before.sound(),
        after.redemptions@.len() == before.redemptions@.len() + 1,
        after.redemptions@ == before.redemptions@.push(after.redemptions@.last()),
        after.redemptions@.last().amount.currency == before.currency,
        after.currency == before.currency,
        after.initial_balance == before.initial_balance,
        after.balance.currency == before.currency,
        after.balance.minor >= 0,
        after.balance.minor == before.balance.minor + after.redemptions@.last().amount.minor,
    ensures
        after.sound(),
{
    let last = after.redemptions@.last().amount.minor as int;
    assert(movements(after.redemptions@) =~= movements(before.redemptions@).push(last));
    lemma_sum_push(movements(before.redemptions@), last);
    assert forall|i: int| 0 <= i < after.redemptions@.len() implies (
    #[trigger] after.redemptions@[i]).amount.currency == after.currency by {
        if i < before.redemptions@.len() {
            assert(after.redemptions@[i] == before.redemptions@[i]);
        }
    }
}

proof fn lemma_spent_on_prefix(
    list: Seq<GiftCardRedemption>,
    longer: Seq<GiftCardRedemption>,
    order: Seq<char>,
    currency: Currency,
    n: int,
)
    requires
        0 <= n <= list.len() <= longer.len(),
        forall|i: int| 0 <= i < list.len() ==> list[i] == #[trigger] longer[i],
    ensures
        spent_on(list, order, currency, n) == spent_on(longer, order, currency, n),
    decreases n,
{
    if n > 0 {
        lemma_spent_on_prefix(list, longer, order, currency, n - 1);
        assert(list[n - 1] == longer[n - 1]);
    }
}

/// Putting back what an order spent succeeds and undoes it: the balance and the status are
/// what they were before, and so is what the order has spent.
pub proof fn law_restoring_undoes_a_redemption(
    card: GiftCard,
    amount: Money,
    order_id: OrderId,
    now: Timestamp,
    key: Option<String>,
    spent: GiftCard,
    before: Money,
)
    requires
        card.sound(),
        card.currency == amount.currency,
        spent_on(card.redemptions@, order_id@, card.currency, card.redemptions@.len() as int)
            == Ok::<Money, ErrorView>(before),
        0 <= before.minor <= i64::MAX - amount.minor,
        card.redeeming(amount, now, optional_text(key)) is Ok,
        card.moved(
            GiftCardRedemption {
                order_id,
                amount: Money { minor: (-amount.minor) as i64, currency: amount.currency },
                occurred_at: now,
                idempotency_key: key,
            },
            card.redeeming(amount, now, optional_text(key))->Ok_0,
            if card.redeeming(amount, now, optional_text(key))->Ok_0.minor == 0 {
                GiftCardStatus::Depleted
            } else {
                card.status
            },
            spent,
        ),
    ensures
        card.spent(order_id@) == Ok::<Money, ErrorView>(before),
        spent.spent(order_id@) == before.plus(amount),
        spent.restoring(amount, order_id@) == Ok::<Money, ErrorView>(card.balance),
        card.status is Active,
        spent.status is Depleted || spent.status is Active,
{
    let count = card.redemptions@.len() as int;
    lemma_spent_on_currency(card.redemptions@, order_id@, card.currency, count);
    lemma_spent_on_prefix(
        card.redemptions@,
        spent.redemptions@,
        order_id@,
        card.currency,
        count,
    );
    assert(spent.redemptions@[count].order_id == order_id);
    assert(spent_on(spent.redemptions@, order_id@, card.currency, count + 1) == before.plus(
        amount,
    ));
}

proof fn lemma_spent_on_currency(
    list: Seq<GiftCardRedemption>,
    order: Seq<char>,
    currency: Currency,
    n: int,
)
    ensures
        spent_on(list, order, currency, n) matches Ok(amount) ==> amount.currency == currency,
    decreases n,
{
    if n > 0 {
        lemma_spent_on_currency(list, order, currency, n - 1);
    }
}

/// The balance of a sound card is what it was issued with and all its movements, and is
/// never negative.
pub proof fn law_balance_is_explained_by_movements(card: GiftCard)
    requires
        card.sound(),
    ensures
        card.balance.minor == card.initial_balance.minor + sum(movements(card.redemptions@)),
        card.balance.minor >= 0,
        card.balance.currency == card.currency,
{
}

/// A card is issued exactly for a positive amount and a code of eight letters and digits
/// or more.
pub proof fn law_cards_are_issued_with_a_value(code: Seq<char>, amount: Money)
    ensures
        GiftCard::issue_refused(code, amount) is None <==> amount.minor > 0 && normalised(
            code,
        ).len() >= 8,
{
}

/// A card can be spent exactly while it is active, holds something and has not expired, and
/// then there is no reason to refuse it. It expires at its expiry, not before.
pub proof fn law_cards_are_usable_until_they_expire(card: GiftCard, now: Timestamp)
    requires
        now.normal(),
        card.expires_at is Some ==> card.expires_at->Some_0.normal(),
    ensures
        card.usable(now) <==> card.status is Active && card.balance.minor > 0 && (
        card.expires_at is Some ==> now.instant() < card.expires_at->Some_0.instant()),
        card.unusable(now) is None <==> card.usable(now),
{
}

/// Of an amount a usable card pays as much as it holds: all of it, or all that is left. One
/// that cannot be used pays nothing.
pub proof fn law_cards_pay_what_they_hold(card: GiftCard, wanted: Money, now: Timestamp)
    requires
        card.sound(),
    ensures
        !card.usable(now) ==> card.applicable(wanted, now) is Ok && card.applicable(
            wanted,
            now,
        )->Ok_0.minor == 0,
        card.usable(now) ==> (card.applicable(wanted, now) is Ok <==> wanted.currency
            == card.currency),
        card.usable(now) && wanted.currency == card.currency && wanted.minor
            <= card.balance.minor ==> card.applicable(wanted, now)->Ok_0 == wanted,
        card.usable(now) && wanted.currency == card.currency && wanted.minor
            >= card.balance.minor ==> card.applicable(wanted, now)->Ok_0 == card.balance,
{
}

/// A card is spent exactly when it can be used, for a positive amount that it holds, under
/// a key that it has not seen; the amount is taken off its balance.
pub proof fn law_cards_are_spent_within_their_balance(
    card: GiftCard,
    amount: Money,
    now: Timestamp,
    key: Option<Seq<char>>,
)
    requires
        card.sound(),
    ensures
        card.redeeming(amount, now, key) is Ok <==> {
            &&& card.usable(now)
            &&& amount.currency == card.currency
            &&& 0 < amount.minor <= card.balance.minor
            &&& key is Some ==> !card.keyed(key->0)
        },
        card.redeeming(amount, now, key) is Ok ==> {
            &&& card.redeeming(amount, now, key)->Ok_0.minor == card.balance.minor - amount.minor
            &&& card.redeeming(amount, now, key)->Ok_0.currency == card.currency
        },
{
}

/// A movement on an order counts towards what that order spent, what it spends up and what
/// it gives back down; a movement on another order does not.
pub proof fn law_orders_spend_what_they_moved(
    list: Seq<GiftCardRedemption>,
    movement: GiftCardRedemption,
    order: Seq<char>,
    currency: Currency,
)
    requires
        spent_on(list.push(movement), order, currency, list.len() as int + 1) is Ok,
    ensures
        ({
            let before = spent_on(list, order, currency, list.len() as int);
            let after = spent_on(list.push(movement), order, currency, list.len() as int + 1);
            &&& before is Ok
            &&& movement.order_id@ == order ==> after->Ok_0.minor == before->Ok_0.minor
                - movement.amount.minor
            &&& movement.order_id@ != order ==> after == before
        }),
        spent_on(Seq::empty(), order, currency, 0)->Ok_0.minor == 0,
{
    lemma_spent_on_prefix(list, list.push(movement), order, currency, list.len() as int);
    assert(list.push(movement)[list.len() as int] == movement);
}

/// Money goes back on a card exactly when it is no more than the order spent with it, and
/// what the card then holds can be told; the amount is added to its balance.
pub proof fn law_cards_take_back_what_was_spent(card: GiftCard, amount: Money, order: Seq<char>)
    requires
        card.sound(),
        amount.currency == card.currency,
        spent_on(card.redemptions@, order, card.currency, card.redemptions@.len() as int) is Ok,
    ensures
        ({
            let spent = spent_on(
                card.redemptions@,
                order,
                card.currency,
                card.redemptions@.len() as int,
            )->Ok_0;
            &&& card.restoring(amount, order) is Ok <==> 0 < amount.minor <= spent.minor
                && card.balance.minor + amount.minor <= i64::MAX
            &&& card.restoring(amount, order) is Ok ==> card.restoring(amount, order)->Ok_0.minor
                == card.balance.minor + amount.minor
        }),
{
    lemma_spent_on_currency(
        card.redemptions@,
        order,
        card.currency,
        card.redemptions@.len() as int,
    );
}

/// A card knows that money was put back for an order under a key exactly when one of its
/// movements did so; spending does not count.
pub proof fn law_cards_remember_what_was_put_back(
    before: GiftCard,
    after: GiftCard,
    movement: GiftCardRedemption,
    order: Seq<char>,
    key: Seq<char>,
)
    requires
        after.redemptions@ == before.redemptions@.push(movement),
    ensures
        after.restored_under(order, key) <==> before.restored_under(order, key) || (
        movement.amount.minor > 0 && movement.order_id@ == order && optional_text(
            movement.idempotency_key,
        ) == Some(key)),
        before.redemptions@.len() == 0 ==> !before.restored_under(order, key),
{
    let count = before.redemptions@.len() as int;
    assert(after.redemptions@[count] == movement);
    if before.restored_under(order, key) {
        let i = choose|i: int|
            0 <= i < before.redemptions@.len() && (#[trigger] before.redemptions@[i]).order_id@
                == order && optional_text(before.redemptions@[i].idempotency_key) == Some(key)
                && before.redemptions@[i].amount.minor > 0;
        assert(after.redemptions@[i] == before.redemptions@[i]);
    }
    if after.restored_under(order, key) {
        let i = choose|i: int|
            0 <= i < after.redemptions@.len() && (#[trigger] after.redemptions@[i]).order_id@
                == order && optional_text(after.redemptions@[i].idempotency_key) == Some(key)
                && after.redemptions@[i].amount.minor > 0;
        if i < count {
            assert(after.redemptions@[i] == before.redemptions@[i]);
        }
    }
}

} // verus!
