//! What holds of every checkout, capture, refund and cancellation.

use vstd::prelude::*;

use crate::cart::Cart;
use crate::checkout::{
    able, any_waiting, approved, cancel_planned, canceled, cancellable, capture_finished,
    capture_planned, capture_split, captured_amounts, charge_planned, collected, concluded,
    first_action, found_discounts, gateway_refund_key, held_amounts, held_of, is_placed, mode_of,
    payment_at,
    refund_planned, required_for_capture, required_for_refund, required_of, rollback_planned,
    route_of, screening, shipment_due, split_of, CheckoutConfig, CheckoutRequest, PlannedCharge,
};
use crate::error::Error;
use crate::fraud::RiskAssessment;
use crate::gateway::registry::{capable, GatewayRecord};
use crate::gateway::{
    law_capabilities_have_names, CancelRequest, CaptureMode, CaptureRequest, GatewayRefundRequest,
};
use crate::money::allocation::{
    law_allocation_succeeds, law_good_weights, law_parts_are_proportional,
    law_parts_sum_to_the_whole,
};
use crate::money::{law_total_is_the_sum, minors, total, Currency, Money};
use crate::order::{stored_amounts, Order};
use crate::payment::Payment;
use crate::payment::refund::{RefundRequest, TenderRefund};
use crate::payment::split::SettlementPlan;
use crate::payment::tender::{TenderKind, TenderPlan};
use crate::pricing::{Discount, Quote};
use crate::sums::{lemma_sum_non_negative, sum};
use crate::text::{digits, lemma_digits};
use crate::time::Timestamp;

verus! {

/// Each code of a cart that leads to a promotion adds it, in the order of the codes; one
/// that leads nowhere adds nothing.
pub proof fn law_codes_add_their_promotions(found: Seq<Option<Discount>>, discount: Discount)
    ensures
        found_discounts(found.push(Some(discount))) == found_discounts(found).push(discount),
        found_discounts(found.push(None)) == found_discounts(found),
        found_discounts(Seq::empty()) == Seq::<Discount>::empty(),
{
    assert(found.push(Some(discount)).drop_last() =~= found);
    assert(found.push(None).drop_last() =~= found);
}

/// A placed order owes the total of its quote and has collected nothing of it yet.
pub proof fn law_placed_orders_owe_their_quote(
    order: Order,
    cart: Cart,
    quote: Quote,
    settlement: SettlementPlan,
    plan: TenderPlan,
)
    requires
        is_placed(order, cart, quote, settlement, plan),
        quote.totals.total.currency == cart.currency,
        quote.totals.total.minor >= 0,
    ensures
        order.sound(),
        order.status is PendingPayment,
        order.quote.totals.total == quote.totals.total,
        order.amount_captured.minor == 0,
        order.amount_refunded.minor == 0,
        order.customer_id == cart.customer_id,
{
}

/// A gateway can take a charge exactly when it holds funds where they are to be held, and
/// splits charges, with a fee kept back, where they go to connected accounts.
pub proof fn law_charges_need_their_capabilities(
    record: GatewayRecord,
    mode: CaptureMode,
    connected: bool,
)
    ensures
        able(record, required_of(mode, connected)) is Ok <==> {
            &&& mode is Manual ==> record.capabilities.delayed_capture
            &&& connected ==> record.capabilities.connected_accounts
                && record.capabilities.application_fees
        },
{
    law_capabilities_have_names(record.capabilities);
    reveal_with_fuel(capable, 4);
}

/// A gateway can take a capture exactly when it takes part of a hold, where less than all
/// that is held is taken, and takes more than once, where something was taken before.
pub proof fn law_captures_need_their_capabilities(
    record: GatewayRecord,
    payment: Payment,
    share: Money,
)
    requires
        payment.sound(),
        payment.status.capturable(),
        share.currency == payment.amount.currency,
    ensures
        able(record, required_for_capture(payment, share)) is Ok <==> {
            &&& share.minor < payment.amount_authorized.minor - payment.amount_captured.minor
                ==> record.capabilities.partial_capture
            &&& payment.amount_captured.minor > 0 ==> record.capabilities.multi_capture
        },
{
    law_capabilities_have_names(record.capabilities);
    reveal_with_fuel(capable, 3);
}

/// A gateway can take a refund exactly when it refunds at all, and refunds parts, where less
/// is given back than was taken and not given back yet.
pub proof fn law_refunds_need_their_capabilities(
    record: GatewayRecord,
    payment: Payment,
    amount: Money,
)
    requires
        payment.sound(),
        amount.currency == payment.amount.currency,
    ensures
        able(record, required_for_refund(payment, amount)) is Ok <==> {
            &&& record.capabilities.refunds
            &&& amount.minor < payment.amount_captured.minor - payment.amount_refunded.minor
                ==> record.capabilities.partial_refunds
        },
{
    law_capabilities_have_names(record.capabilities);
    reveal_with_fuel(capable, 3);
}

/// A charge goes to the gateway that was asked for, exactly when it is registered, takes the
/// currency and can do what the charge needs.
pub proof fn law_charges_go_to_their_gateway(
    records: Map<Seq<char>, GatewayRecord>,
    gateway: Seq<char>,
    currency: Currency,
    mode: CaptureMode,
    connected: bool,
)
    ensures
        route_of(records, gateway, currency, mode, connected) is Ok <==> {
            &&& records.contains_key(gateway)
            &&& records[gateway].capabilities.accepts(currency)
            &&& mode is Manual ==> records[gateway].capabilities.delayed_capture
            &&& connected ==> records[gateway].capabilities.connected_accounts
                && records[gateway].capabilities.application_fees
        },
        route_of(records, gateway, currency, mode, connected) is Ok ==> route_of(
            records,
            gateway,
            currency,
            mode,
            connected,
        )->Ok_0 == records[gateway],
{
    law_charges_need_their_capabilities(records[gateway], mode, connected);
}

/// Without connected accounts nothing of a charge is routed on and no fee is kept back; with
/// them a fee is always named.
pub proof fn law_only_connected_accounts_are_routed_to(
    order: Order,
    amount: Money,
    connected: bool,
)
    requires
        split_of(order, amount, connected) is Ok,
    ensures
        !connected ==> split_of(order, amount, connected)->Ok_0.0.len() == 0,
        split_of(order, amount, connected)->Ok_0.1 is Some <==> connected,
{
}

/// What was collected for an order is what its payments captured and what its stored value
/// covers.
pub proof fn law_collections_are_captures_and_stored_value(order: Order, payments: Seq<Payment>)
    requires
        collected(order, payments) is Ok,
    ensures
        collected(order, payments)->Ok_0.minor == sum(
            payments.map_values(|payment: Payment| payment.amount_captured.minor as int),
        ) + sum(minors(stored_amounts(order.tenders@))),
        collected(order, payments)->Ok_0.currency == order.currency,
{
    law_total_is_the_sum(captured_amounts(payments), order.currency);
    law_total_is_the_sum(stored_amounts(order.tenders@), order.currency);
    assert(minors(captured_amounts(payments)) =~= payments.map_values(
        |payment: Payment| payment.amount_captured.minor as int,
    ));
}

/// An order that waits for the shopper stays as it is. Otherwise what was collected is
/// recorded as captured, and an order of which nothing was collected is authorised.
pub proof fn law_concluded_orders_record_what_was_collected(
    order: Order,
    payments: Seq<Payment>,
    after: Order,
    done: Result<(), Error>,
)
    requires
        order.sound(),
        collected(order, payments) is Ok,
        concluded(order, payments, after, done),
    ensures
        ({
            let amount = collected(order, payments)->Ok_0.minor;
            let waiting = exists|i: int|
                0 <= i < payments.len() && (#[trigger] payments[i]).status is RequiresAction;
            &&& waiting ==> done is Ok && after == order
            &&& !waiting && amount > 0 ==> (done is Ok <==> order.amount_captured.minor + amount
                <= order.quote.totals.total.minor)
            &&& !waiting && amount > 0 && done is Ok ==> after.amount_captured.minor
                == order.amount_captured.minor + amount
            &&& !waiting && amount > 0 && done is Ok && order.status is PendingPayment
                && after.amount_captured.minor == order.quote.totals.total.minor
                ==> after.status is Paid
            &&& !waiting && amount <= 0 && done is Ok ==> after.status is Authorized
                && after.amount_captured == order.amount_captured
            &&& !waiting && amount <= 0 && order.status is PendingPayment ==> done is Ok
        }),
{
    law_collections_are_captures_and_stored_value(order, payments);
    if any_waiting(payments) {
        let i = choose|i: int|
            0 <= i < payments.len() && (#[trigger] payments[i]).status is RequiresAction;
        assert(payments[i].status is RequiresAction);
    }
}

/// What a shopper must do next is what the first payment that asks for something asks for.
pub proof fn law_the_first_action_comes_first(payments: Seq<Payment>, at: int)
    requires
        0 <= at <= payments.len(),
        at < payments.len() ==> payments[at].next_action is Some,
        forall|i: int| 0 <= i < at ==> (#[trigger] payments[i]).next_action is None,
    ensures
        at < payments.len() ==> first_action(payments) == payments[at].next_action,
        at == payments.len() ==> first_action(payments) is None,
    decreases payments.len(),
{
    if at > 0 {
        assert(payments[0].next_action is None);
        let rest = payments.drop_first();
        assert forall|i: int| 0 <= i < at - 1 implies (#[trigger] rest[i]).next_action is None by {
            assert(rest[i] == payments[i + 1]);
        }
        law_the_first_action_comes_first(rest, at - 1);
    }
}

/// A capture is refused when it is more than all that the payments hold. Each payment gives
/// its part of it in proportion to what it holds, to less than a minor unit.
pub proof fn law_captures_are_shared_by_hold(
    order: Order,
    payments: Seq<Payment>,
    amount: Money,
    i: int,
)
    requires
        0 <= i < payments.len(),
        amount.currency == order.currency,
        amount.minor >= 0,
        forall|k: int|
            0 <= k < payments.len() ==> (#[trigger] payments[k]).sound()
                && payments[k].amount.currency == order.currency,
        total(held_amounts(payments, order.currency), order.currency) is Ok,
    ensures
        ({
            let held = payments.map_values(
                |payment: Payment|
                    if payment.status.capturable() {
                        payment.amount_authorized.minor - payment.amount_captured.minor
                    } else {
                        0
                    },
            );
            let all = sum(held);
            let split = capture_split(order, payments, amount);
            &&& split is Ok <==> amount.minor <= all
            &&& split is Ok ==> {
                &&& split->Ok_0.len() == payments.len()
                &&& sum(minors(split->Ok_0)) == amount.minor
                &&& split->Ok_0[i].currency == order.currency
                &&& all > 0 ==> -all < split->Ok_0[i].minor * all - amount.minor * held[i] < all
            }
        }),
{
    let holds = held_amounts(payments, order.currency);
    let held = payments.map_values(
        |payment: Payment|
            if payment.status.capturable() {
                payment.amount_authorized.minor - payment.amount_captured.minor
            } else {
                0
            },
    );
    assert forall|k: int| 0 <= k < payments.len() implies (#[trigger] holds[k]).minor == held[k]
        && holds[k].currency == order.currency && held[k] >= 0 by {
        assert(payments[k].sound());
        assert(holds[k] == held_of(payments[k], order.currency));
    }
    assert(minors(holds) =~= held);
    assert forall|k: int| 0 <= k < held.len() implies #[trigger] held[k] >= 0 by {
        assert(holds[k].minor == held[k]);
    }
    law_total_is_the_sum(holds, order.currency);
    lemma_sum_non_negative(held);
    law_good_weights(amount, holds);
    law_allocation_succeeds(amount, held);
    law_parts_sum_to_the_whole(amount.minor as int, held);
    if sum(held) > 0 {
        law_parts_are_proportional(amount.minor as int, held, i);
    }
}

/// A cancelled order gives back its stored value as far as it was captured, and nothing
/// else; whatever a gateway captured stays captured.
pub proof fn law_cancelling_gives_back_stored_value(
    order: Order,
    after: Order,
    done: Result<(), Error>,
)
    requires
        order.sound(),
        canceled(order, after, done),
        total(stored_amounts(order.tenders@), order.currency) is Ok,
    ensures
        ({
            let stored = sum(minors(stored_amounts(order.tenders@)));
            let open = order.status is Draft || order.status is PendingPayment
                || order.status is Authorized || order.status is PartiallyCaptured
                || order.status is Canceled;
            &&& done is Ok <==> open
            &&& done is Ok ==> after.status is Canceled
            &&& done is Ok && stored <= 0 ==> after.amount_captured == order.amount_captured
            &&& done is Ok && 0 < stored <= order.amount_captured.minor
                ==> after.amount_captured.minor == order.amount_captured.minor - stored
            &&& done is Ok && stored > order.amount_captured.minor ==> after.amount_captured.minor
                == 0
            &&& done is Ok ==> after.amount_refunded == order.amount_refunded
        }),
{
    law_total_is_the_sum(stored_amounts(order.tenders@), order.currency);
}

/// The payment of a tender is the first that was made for it.
pub proof fn law_tenders_find_their_payment(payments: Seq<Payment>, index: usize)
    ensures
        0 <= payment_at(payments, index) <= payments.len(),
        payment_at(payments, index) < payments.len() ==> payments[payment_at(
            payments,
            index,
        )].tender_index == Some(index),
        forall|i: int|
            0 <= i < payment_at(payments, index) ==> (#[trigger] payments[i]).tender_index != Some(
                index,
            ),
    decreases payments.len(),
{
    if payments.len() > 0 && payments[0].tender_index != Some(index) {
        let rest = payments.drop_first();
        law_tenders_find_their_payment(rest, index);
        assert forall|i: int| 0 <= i < payment_at(payments, index) implies (
        #[trigger] payments[i]).tender_index != Some(index) by {
            if i > 0 {
                assert(rest[i - 1] == payments[i]);
            }
        }
    }
}

/// The refunds of two tenders under one request never share a key.
pub proof fn law_refund_keys_differ(key: Seq<char>, i: nat, j: nat)
    ensures
        gateway_refund_key(key, i) == gateway_refund_key(key, j) <==> i == j,
{
    lemma_digits(i);
    lemma_digits(j);
    let head = key + ":"@;
    assert(gateway_refund_key(key, i).skip(head.len() as int) =~= digits(i));
    assert(gateway_refund_key(key, j).skip(head.len() as int) =~= digits(j));
}

/// A payment is refused before any money moves exactly when it is blocked.
pub proof fn law_blocked_payments_are_refused(risk: RiskAssessment)
    ensures
        screening(risk) is Err <==> risk.decision is Block,
{
}

/// A capture is sent exactly when there is something to take, the gateway of the payment is
/// registered and can do it, the merchant confirmed it, the hold has not lapsed and holds
/// enough. It asks for the share, from the transaction of the payment.
pub proof fn law_planned_captures_ask_for_the_share(
    records: Map<Seq<char>, GatewayRecord>,
    payment: Payment,
    share: Money,
    now: Timestamp,
    planned: Result<Option<CaptureRequest>, Error>,
)
    requires
        capture_planned(records, payment, share, now, planned),
        payment.sound(),
        share.currency == payment.amount.currency,
    ensures
        ({
            let rest = payment.amount_authorized.minor - payment.amount_captured.minor;
            let record = records[payment.gateway@];
            &&& share.minor <= 0 <==> planned is Ok && planned->Ok_0 is None
            &&& planned is Ok && planned->Ok_0 is Some <==> {
                &&& 0 < share.minor <= rest
                &&& records.contains_key(payment.gateway@)
                &&& payment.status.capturable()
                &&& payment.confirmed
                &&& !payment.lapsed(now)
                &&& share.minor < rest ==> record.capabilities.partial_capture
                &&& payment.amount_captured.minor > 0 ==> record.capabilities.multi_capture
                &&& payment.transaction_id is Some
            }
            &&& planned is Ok && planned->Ok_0 is Some ==> {
                &&& planned->Ok_0->Some_0.amount == share
                &&& Some(planned->Ok_0->Some_0.transaction_id) == payment.transaction_id
                &&& !planned->Ok_0->Some_0.final_capture
            }
        }),
{
    if payment.status.capturable() {
        law_captures_need_their_capabilities(records[payment.gateway@], payment, share);
    }
}

/// A hold is released exactly where there is one: the payment has a transaction and is held,
/// partly taken or waits for the shopper.
pub proof fn law_only_holds_are_released(
    records: Map<Seq<char>, GatewayRecord>,
    payment: Payment,
    planned: Result<Option<CancelRequest>, Error>,
    rollback: Option<CancelRequest>,
)
    requires
        cancel_planned(records, payment, planned),
        rollback_planned(records, payment, rollback),
    ensures
        ({
            let open = payment.status is Authorized || payment.status is PartiallyCaptured
                || payment.status is RequiresAction;
            &&& planned is Ok && planned->Ok_0 is None <==> payment.transaction_id is None || !open
            &&& planned is Ok && planned->Ok_0 is Some <==> payment.transaction_id is Some && open
                && records.contains_key(payment.gateway@)
            &&& planned is Ok && planned->Ok_0 is Some ==> Some(
                planned->Ok_0->Some_0.transaction_id,
            ) == payment.transaction_id
            &&& rollback is Some <==> payment.transaction_id is Some && records.contains_key(
                payment.gateway@,
            )
            &&& rollback is Some ==> Some(rollback->Some_0.transaction_id)
                == payment.transaction_id
        }),
{
}

/// A refund is sent exactly when the payment has a transaction at a registered gateway that
/// can make it. It asks for the part of its tender, takes back what went to connected
/// accounts exactly where charges are split, and the fee exactly where that is asked for.
pub proof fn law_planned_refunds_ask_for_their_part(
    records: Map<Seq<char>, GatewayRecord>,
    connected: bool,
    request: RefundRequest,
    tender: TenderRefund,
    payment: Payment,
    planned: Result<GatewayRefundRequest, Error>,
)
    requires
        refund_planned(records, connected, request, tender, payment, planned),
        payment.sound(),
        tender.amount.currency == payment.amount.currency,
    ensures
        ({
            let rest = payment.amount_captured.minor - payment.amount_refunded.minor;
            let record = records[payment.gateway@];
            &&& planned is Ok <==> {
                &&& payment.transaction_id is Some
                &&& records.contains_key(payment.gateway@)
                &&& record.capabilities.refunds
                &&& tender.amount.minor < rest ==> record.capabilities.partial_refunds
            }
            &&& planned is Ok ==> {
                &&& planned->Ok_0.amount == tender.amount
                &&& Some(planned->Ok_0.transaction_id) == payment.transaction_id
                &&& planned->Ok_0.reverse_transfers <==> connected
                &&& planned->Ok_0.refund_application_fee <==> request.refund_platform_fee
                &&& planned->Ok_0.reason == request.reason
            }
        }),
{
    law_refunds_need_their_capabilities(records[payment.gateway@], payment, tender.amount);
}

/// A shipment is charged what the shopper pays for it, where that is anything.
pub proof fn law_shipments_are_charged_what_they_cost(order: Order, group: Seq<char>)
    requires
        order.group_amount(group) is Ok,
    ensures
        shipment_due(order, group) is Ok <==> order.group_amount(group)->Ok_0.minor > 0,
        shipment_due(order, group) is Ok ==> shipment_due(order, group)->Ok_0
            == order.group_amount(group)->Ok_0,
{
}

/// Only held funds can be approved; approving them changes nothing but the approval.
pub proof fn law_held_funds_are_approved(
    payment: Payment,
    after: Payment,
    done: Result<bool, Error>,
)
    requires
        approved(payment, after, done),
    ensures
        done is Ok,
        done->Ok_0 <==> payment.status is Authorized || payment.status is PartiallyCaptured,
        done->Ok_0 ==> after.confirmed,
        !done->Ok_0 ==> after == payment,
        after.amount_authorized == payment.amount_authorized,
        after.amount_captured == payment.amount_captured,
        after.status == payment.status,
{
}

/// What the gateways took is added to what the order captured, and nothing is recorded where
/// they took nothing.
pub proof fn law_captured_funds_are_recorded(
    order: Order,
    captured: Money,
    after: Order,
    done: Result<bool, Error>,
)
    requires
        order.sound(),
        capture_finished(order, captured, after, done),
    ensures
        done is Ok && done->Ok_0 <==> captured.currency == order.currency && 0 < captured.minor
            <= order.quote.totals.total.minor - order.amount_captured.minor,
        done is Ok && done->Ok_0 ==> after.amount_captured.minor == order.amount_captured.minor
            + captured.minor,
        captured.minor <= 0 ==> done is Ok && after == order,
        done is Err ==> after == order,
{
}

/// An order can be cancelled exactly while no gateway has taken anything for it.
pub proof fn law_orders_can_be_cancelled_until_money_is_taken(
    order: Order,
    payments: Seq<Payment>,
)
    requires
        total(captured_amounts(payments), order.currency) is Ok,
    ensures
        cancellable(order, payments) is Ok <==> sum(
            payments.map_values(|payment: Payment| payment.amount_captured.minor as int),
        ) <= 0,
{
    law_total_is_the_sum(captured_amounts(payments), order.currency);
    assert(minors(captured_amounts(payments)) =~= payments.map_values(
        |payment: Payment| payment.amount_captured.minor as int,
    ));
}

/// Exactly the tenders that a gateway takes are charged: the payment and what the gateway is
/// asked for are of what the tender pays, for the order, under one key, and nothing of a new
/// payment was taken yet.
pub proof fn law_gateway_tenders_are_charged(
    records: Map<Seq<char>, GatewayRecord>,
    config: CheckoutConfig,
    cart: Cart,
    order: Order,
    index: int,
    request: CheckoutRequest,
    planned: Result<Option<PlannedCharge>, Error>,
)
    requires
        0 <= index < order.tenders@.len(),
        charge_planned(records, config, cart, order, index, request, planned),
        planned is Ok,
    ensures
        planned->Ok_0 is Some <==> order.tenders@[index].kind is Gateway,
        planned->Ok_0 is Some ==> ({
            let payment = planned->Ok_0->Some_0.payment;
            let charge = planned->Ok_0->Some_0.charge;
            let tender = order.tenders@[index];
            &&& payment.amount == tender.amount
            &&& charge.amount == payment.amount
            &&& payment.idempotency_key@ == charge.idempotency_key@
            &&& payment.order_id == order.id
            &&& charge.order_id == Some(order.id)
            &&& charge.customer_id == cart.customer_id
            &&& charge.initiator == request.initiator
            &&& request.capture_mode is Some ==> charge.capture_mode
                == request.capture_mode->Some_0
            &&& request.capture_mode is None ==> charge.capture_mode == config.capture_mode
            &&& tender.kind matches TenderKind::Gateway { gateway, instrument, .. } && {
                &&& payment.gateway@ == records[gateway@].id@
                &&& charge.instrument == instrument
            }
            &&& payment.status is Created
            &&& payment.captures@.len() == 0
            &&& payment.shop_allocation@ == tender.shop_allocation@
            &&& payment.tender_index == Some(index as usize)
        }),
{
    match order.tenders@[index].kind {
        TenderKind::Gateway { gateway, .. } => {
            law_charges_go_to_their_gateway(
                records,
                gateway@,
                order.currency,
                mode_of(request, config),
                config.use_connected_accounts,
            );
        },
        _ => {},
    }
}

} // verus!
