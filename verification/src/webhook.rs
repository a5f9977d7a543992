//! Webhook ingestion: one interface for every gateway's callbacks.
//!
//! Handling provider callbacks correctly is mostly about three things, and this
//! module makes all three hard to get wrong:
//!
//! 1. **Verify before you trust.** [`verify_hmac_sha256`] does a constant-time
//!    comparison over the *raw* body. Never parse first and verify later.
//! 2. **Deduplicate.** Providers retry aggressively and deliver out of order.
//!    A [`WebhookDelivery`] has every event recorded by its key and drops
//!    repeats, so handlers can be written as if delivery were exactly-once.
//! 3. **Answer fast.** Handlers should be short; anything slow belongs on a
//!    queue. [`WebhookOutcome`] tells the caller which HTTP status to return so
//!    that transient failures get retried and permanent ones do not.

use vstd::prelude::*;
use vstd::utf8::encode_utf8;

use crate::collections::{lemma_same_keys_same_listing, listed, OrderedMap};
use crate::crypto::{hex_encode, hex_of, hmac_sha256, hmac_sha256_tag};
use crate::error::{outcome, Error, ErrorView};
use crate::gateway::GatewayId;
use crate::secret::{bytes_equal, lemma_same_bytes_same_text, SecretString};
use crate::text::{digits, integer_text, join3, lower, push_digits, signed_to_text, to_lower, trim, trimmed};
use crate::time::Timestamp;

verus! {

/// Case-insensitive HTTP headers.
#[derive(Debug, Clone, PartialEq)]
pub struct Headers(OrderedMap<String>);

impl View for Headers {
    type V = Map<Seq<char>, Seq<char>>;

    closed spec fn view(&self) -> Map<Seq<char>, Seq<char>> {
        self.0@.map_values(|value: String| value@)
    }
}

impl Default for Headers {
    fn default() -> (headers: Self)
        ensures
            headers@ == Map::<Seq<char>, Seq<char>>::empty(),
    {
        Self::new()
    }
}

impl Headers {
    /// An empty header set.
    pub fn new() -> (headers: Self)
        ensures
            headers@ == Map::<Seq<char>, Seq<char>>::empty(),
    {
        let headers = Headers(OrderedMap::new());
        assert(headers@ =~= Map::<Seq<char>, Seq<char>>::empty());
        headers
    }

    /// Insert a header, lower-casing the name.
    pub fn insert(&mut self, name: &str, value: &str) -> (chain: &mut Self)
        ensures
            chain@ == old(self)@.insert(lower(name@), value@),
            *final(self) == *final(chain),
    {
        let ghost before = self@;
        self.0.insert(to_lower(name), value.to_owned());
        assert(self@ =~= before.insert(lower(name@), value@));
        self
    }

    /// Builder form of [`Self::insert`].
    pub fn with(self, name: &str, value: &str) -> (headers: Self)
        ensures
            headers@ == self@.insert(lower(name@), value@),
    {
        let mut headers = self;
        headers.insert(name, value);
        headers
    }

    /// The value of a header, ignoring the case of its name.
    pub open spec fn value(self, name: Seq<char>) -> Option<Seq<char>> {
        if self@.contains_key(lower(name)) {
            Some(self@[lower(name)])
        } else {
            None
        }
    }

    /// Look up a header, ignoring case.
    pub fn get(&self, name: &str) -> (value: Option<&str>)
        ensures
            match value {
                Some(text) => self.value(name@) == Some(text@),
                None => self.value(name@) is None,
            },
    {
        match self.0.get(to_lower(name).as_str()) {
            Some(value) => Some(value.as_str()),
            None => None,
        }
    }

    /// Look up a header or fail with a precise error.
    pub fn require(&self, name: &str) -> (value: Result<&str, Error>)
        ensures
            match value {
                Ok(text) => self.value(name@) == Some(text@),
                Err(error) => self.value(name@) is None && error@ == ErrorView::WebhookVerification(
                    "missing '"@ + name@ + "' header"@,
                ),
            },
    {
        match self.get(name) {
            Some(value) => Ok(value),
            None => Err(Error::WebhookVerification(join3("missing '", name, "' header"))),
        }
    }

    /// All headers, in the order of their names.
    pub fn iter(&self) -> (list: Vec<(String, String)>)
        ensures
            list@.len() == listed(self@).len(),
            forall|i: int|
                0 <= i < list@.len() ==> {
                    &&& (#[trigger] list@[i]).0@ == listed(self@)[i]
                    &&& list@[i].1@ == self@[listed(self@)[i]]
                },
    {
        let count = self.0.len();
        let mut list: Vec<(String, String)> = Vec::new();
        proof {
            assert(self.0@.dom() =~= self@.dom());
            lemma_same_keys_same_listing(self.0@, self@);
        }
        let mut i: usize = 0;
        while i < count
            invariant
                i <= count,
                count == self.0.keys().len(),
                self.0.keys() == listed(self@),
                crate::collections::is_listing(self.0.keys(), self.0@),
                list@.len() == i,
                forall|j: int|
                    0 <= j < i ==> {
                        &&& (#[trigger] list@[j]).0@ == listed(self@)[j]
                        &&& list@[j].1@ == self@[listed(self@)[j]]
                    },
            decreases count - i,
        {
            list.push((self.0.key_at(i).to_owned(), self.0.value_at(i).clone()));
            i += 1;
        }
        list
    }
}

/// The HMAC-SHA256 tag of a payload under a secret, in hexadecimal digits.
pub open spec fn signature(secret: Seq<char>, payload: Seq<u8>) -> Seq<char> {
    hex_of(hmac_sha256_tag(encode_utf8(secret), payload))
}

/// Compute the hex-encoded HMAC-SHA256 of `payload` under `secret`.
pub fn hmac_sha256_hex(secret: &SecretString, payload: &[u8]) -> (text: String)
    ensures
        text@ == signature(secret@, payload@),
        text@.len() == 64,
{
    let tag = hmac_sha256(secret.expose().as_bytes(), payload);
    hex_encode(tag.as_slice())
}

/// Verify a hex-encoded HMAC-SHA256 signature in constant time.
///
/// The comparison is constant time so that an attacker cannot recover a valid
/// signature byte by byte by timing the endpoint.
pub fn verify_hmac_sha256(secret: &SecretString, payload: &[u8], expected_hex: &str) -> (
verified: Result<(), Error>)
    ensures
        outcome(verified) == if signature(secret@, payload@) == lower(trimmed(expected_hex@)) {
            Ok::<(), ErrorView>(())
        } else {
            Err(ErrorView::WebhookVerification("signature does not match"@))
        },
{
    let computed = hmac_sha256_hex(secret, payload);
    let expected = to_lower(trim(expected_hex).as_str());
    proof {
        lemma_same_bytes_same_text(computed@, expected@);
    }
    if bytes_equal(computed.as_str().as_bytes(), expected.as_str().as_bytes()) {
        Ok(())
    } else {
        Err(Error::WebhookVerification("signature does not match".to_owned()))
    }
}

/// How far apart two seconds are.
pub open spec fn distance(a: i64, b: i64) -> nat {
    if a >= b {
        (a - b) as nat
    } else {
        (b - a) as nat
    }
}

/// Reject webhooks whose timestamp is too far from now, to stop replay attacks.
pub fn verify_timestamp_freshness(
    timestamp_seconds: i64,
    now: Timestamp,
    tolerance_seconds: i64,
) -> (fresh: Result<(), Error>)
    ensures
        outcome(fresh) == if distance(now.seconds, timestamp_seconds) <= tolerance_seconds {
            Ok::<(), ErrorView>(())
        } else {
            Err(
                ErrorView::WebhookVerification(
                    "timestamp is "@ + digits(distance(now.seconds, timestamp_seconds))
                        + "s away from now, tolerance is "@ + integer_text(
                        tolerance_seconds as int,
                    ) + "s"@,
                ),
            )
        },
{
    let apart: i128 = now.seconds as i128 - timestamp_seconds as i128;
    let delta: u64 = if apart >= 0 {
        apart as u64
    } else {
        (-apart) as u64
    };
    if delta as i128 > tolerance_seconds as i128 {
        let mut message = "timestamp is ".to_owned();
        push_digits(&mut message, delta);
        message.append("s away from now, tolerance is ");
        message.append(signed_to_text(tolerance_seconds).as_str());
        message.append("s");
        return Err(Error::WebhookVerification(message));
    }
    Ok(())
}

/// What the caller should do with the HTTP request.
#[derive(Debug, Clone, Copy, PartialEq, Eq, Structural)]
pub enum WebhookOutcome {
    /// Handled. Return `200`.
    Processed,
    /// Already handled earlier. Return `200` — retrying will not help.
    Duplicate,
    /// Understood but irrelevant to us. Return `200`.
    Ignored,
}

impl WebhookOutcome {
    /// Suggested HTTP status code.
    pub fn status_code(&self) -> (code: u16)
        ensures
            code == 200,
    {
        200
    }
}

/// What to do next with a verified callback.
#[derive(Debug)]
pub enum WebhookStep {
    /// Record the key, and report whether it was new.
    Mark {
        /// The key of the event.
        key: String,
    },
    /// Run the handler at this position, and report what it returned.
    Handle {
        /// Position among the registered handlers.
        index: usize,
    },
    /// Forget the key, so that the provider's retry is not dropped, and fail.
    Release {
        /// The key of the event.
        key: String,
        /// Why handling failed.
        error: Error,
    },
    /// The callback is dealt with.
    Done {
        /// What to answer.
        outcome: WebhookOutcome,
    },
}

/// What to do next with a verified callback, its texts as character sequences.
pub ghost enum StepView {
    /// Record the key.
    Mark(Seq<char>),
    /// Run the handler at this position.
    Handle(int),
    /// Forget the key, and fail.
    Release(Seq<char>, ErrorView),
    /// The callback is dealt with.
    Done(WebhookOutcome),
}

impl View for WebhookStep {
    type V = StepView;

    open spec fn view(&self) -> StepView {
        match *self {
            WebhookStep::Mark { key } => StepView::Mark(key@),
            WebhookStep::Handle { index } => StepView::Handle(index as int),
            WebhookStep::Release { key, error } => StepView::Release(key@, error@),
            WebhookStep::Done { outcome } => StepView::Done(outcome),
        }
    }
}

/// One verified callback on its way through deduplication and the handlers.
#[derive(Debug)]
pub struct WebhookDelivery {
    key: String,
    handlers: usize,
}

impl WebhookDelivery {
    /// The key under which the event is recorded.
    pub closed spec fn event_key(self) -> Seq<char> {
        self.key@
    }

    /// How many handlers there are.
    pub closed spec fn handler_count(self) -> nat {
        self.handlers as nat
    }

    /// What comes after the event was recorded.
    pub open spec fn after_mark(self, first_time: bool) -> StepView {
        if !first_time {
            StepView::Done(WebhookOutcome::Duplicate)
        } else if self.handler_count() == 0 {
            StepView::Done(WebhookOutcome::Ignored)
        } else {
            StepView::Handle(0)
        }
    }

    /// What comes after a handler ran.
    pub open spec fn after_handler(self, index: int, result: Result<(), ErrorView>) -> StepView {
        match result {
            Err(error) => StepView::Release(self.event_key(), error),
            Ok(_) => if index + 1 < self.handler_count() {
                StepView::Handle(index + 1)
            } else {
                StepView::Done(WebhookOutcome::Processed)
            },
        }
    }

    /// What comes after up to `n` handlers of a new event ran, where `results` tells what
    /// each returns.
    pub open spec fn reached(
        self,
        results: spec_fn(int) -> Result<(), ErrorView>,
        n: int,
    ) -> StepView
        decreases n,
    {
        if n <= 0 {
            self.after_mark(true)
        } else {
            match self.reached(results, n - 1) {
                StepView::Handle(index) => self.after_handler(index, results(index)),
                over => over,
            }
        }
    }

    /// The first step: record the event.
    pub fn first_step(&self) -> (step: WebhookStep)
        ensures
            step@ == StepView::Mark(self.event_key()),
    {
        WebhookStep::Mark { key: self.key.clone() }
    }

    /// The step after the event was recorded. `first_time` tells whether it was new.
    pub fn marked(&self, first_time: bool) -> (step: WebhookStep)
        ensures
            step@ == self.after_mark(first_time),
    {
        if !first_time {
            WebhookStep::Done { outcome: WebhookOutcome::Duplicate }
        } else if self.handlers == 0 {
            WebhookStep::Done { outcome: WebhookOutcome::Ignored }
        } else {
            WebhookStep::Handle { index: 0 }
        }
    }

    /// The step after a handler ran.
    pub fn handled(&self, index: usize, result: Result<(), Error>) -> (step: WebhookStep)
        requires
            index < self.handler_count(),
        ensures
            step@ == self.after_handler(index as int, outcome(result)),
            result matches Err(failure) ==> (step matches WebhookStep::Release { error, .. }
                && error == failure),
    {
        match result {
            Err(error) => WebhookStep::Release { key: self.key.clone(), error },
            Ok(_) => if index + 1 < self.handlers {
                WebhookStep::Handle { index: index + 1 }
            } else {
                WebhookStep::Done { outcome: WebhookOutcome::Processed }
            },
        }
    }
}

/// Admits, deduplicates and dispatches webhooks for any number of gateways.
#[derive(Debug, Clone)]
pub struct WebhookProcessor {
    gateways: Vec<GatewayId>,
    handlers: usize,
}

impl WebhookProcessor {
    /// The gateways that are registered, in order.
    pub closed spec fn gateway_list(self) -> Seq<GatewayId> {
        self.gateways@
    }

    /// How many handlers are registered.
    pub closed spec fn handler_count(self) -> nat {
        self.handlers as nat
    }

    /// A processor without gateways or handlers.
    pub fn new() -> (processor: Self)
        ensures
            processor.gateway_list() == Seq::<GatewayId>::empty(),
            processor.handler_count() == 0,
    {
        WebhookProcessor { gateways: Vec::new(), handlers: 0 }
    }

    /// Register a gateway adapter that can parse its own webhooks.
    pub fn register_gateway(self, gateway: GatewayId) -> (processor: Self)
        ensures
            processor.gateway_list() == self.gateway_list().push(gateway),
            processor.handler_count() == self.handler_count(),
    {
        let mut processor = self;
        processor.gateways.push(gateway);
        processor
    }

    /// Register a handler. Handlers run in registration order.
    pub fn register_handler(self) -> (processor: Self)
        requires
            self.handler_count() < usize::MAX,
        ensures
            processor.gateway_list() == self.gateway_list(),
            processor.handler_count() == self.handler_count() + 1,
    {
        let mut processor = self;
        processor.handlers = processor.handlers + 1;
        processor
    }

    /// The position of the gateway a callback is for.
    pub fn find(&self, gateway_id: &GatewayId) -> (at: Result<usize, Error>)
        ensures
            match at {
                Ok(i) => {
                    &&& i < self.gateway_list().len()
                    &&& self.gateway_list()[i as int]@ == gateway_id@
                    &&& forall|j: int|
                        0 <= j < i ==> (#[trigger] self.gateway_list()[j])@ != gateway_id@
                },
                Err(error) => {
                    &&& forall|j: int|
                        0 <= j < self.gateway_list().len() ==> (#[trigger] self.gateway_list()[j])@
                            != gateway_id@
                    &&& error@ == ErrorView::Configuration(
                        "no gateway registered as '"@ + gateway_id@ + "'"@,
                    )
                },
            },
    {
        let mut i: usize = 0;
        while i < self.gateways.len()
            invariant
                i <= self.gateways@.len(),
                forall|j: int| 0 <= j < i ==> (#[trigger] self.gateways@[j])@ != gateway_id@,
            decreases self.gateways@.len() - i,
        {
            if self.gateways[i].same(gateway_id) {
                return Ok(i);
            }
            i += 1;
        }
        let message = join3("no gateway registered as '", gateway_id.as_str(), "'");
        Err(Error::configuration(message.as_str()))
    }

    /// Take in a verified event of a gateway.
    pub fn deliver(&self, gateway_id: &GatewayId, provider_event_id: &str) -> (
    delivery: WebhookDelivery)
        ensures
            delivery.event_key() == gateway_id@ + ":"@ + provider_event_id@,
            delivery.handler_count() == self.handler_count(),
    {
        WebhookDelivery {
            key: join3(gateway_id.as_str(), ":", provider_event_id),
            handlers: self.handlers,
        }
    }
}

impl Default for WebhookProcessor {
    fn default() -> (processor: Self)
        ensures
            processor.gateway_list() == Seq::<GatewayId>::empty(),
            processor.handler_count() == 0,
    {
        Self::new()
    }
}

/// Every signature made here verifies, whatever the case of its digits.
pub proof fn law_signatures_verify(secret: Seq<char>, payload: Seq<u8>)
    ensures
        lower(trimmed(signature(secret, payload))) == signature(secret, payload),
        lower(trimmed(crate::text::upper(signature(secret, payload)))) == signature(
            secret,
            payload,
        ),
{
    let text = signature(secret, payload);
    let capital = crate::text::upper(text);
    assert forall|i: int| 0 <= i < text.len() implies {
        let c = #[trigger] text[i];
        crate::text::is_ascii_digit(c) || crate::text::is_ascii_lower(c)
    } by {
        let byte = hmac_sha256_tag(encode_utf8(secret), payload)[i / 2];
        assert(0 <= byte as nat / 16 < 16);
        assert(0 <= byte as nat % 16 < 16);
    }
    crate::text::lemma_trimmed_is_identity(text);
    crate::text::lemma_trimmed_is_identity(capital);
    assert(lower(text) =~= text);
    assert(lower(capital) =~= text);
}

/// Handlers see an event once: recorded again, it is dropped as a duplicate without running
/// any of them; forgotten after a failure, it is new again.
pub proof fn law_events_are_handled_once(seen: Set<Seq<char>>, delivery: WebhookDelivery)
    ensures
        ({
            let key = delivery.event_key();
            let marked = seen.insert(key);
            let released = marked.remove(key);
            &&& delivery.after_mark(!marked.contains(key)) == StepView::Done(
                WebhookOutcome::Duplicate,
            )
            &&& delivery.after_mark(!released.contains(key)) == delivery.after_mark(true)
        }),
{
}

/// Handlers run in registration order, each once, until one fails: as long as all before it
/// succeed the next one runs; once all have, the event is processed; a failure forgets the
/// event, and no handler runs after it.
pub proof fn law_handlers_run_in_order(
    delivery: WebhookDelivery,
    results: spec_fn(int) -> Result<(), ErrorView>,
    n: int,
)
    requires
        0 <= n <= delivery.handler_count(),
        delivery.handler_count() > 0,
        forall|i: int| 0 <= i < n ==> #[trigger] results(i) is Ok,
    ensures
        n < delivery.handler_count() ==> delivery.reached(results, n) == StepView::Handle(n),
        n == delivery.handler_count() ==> delivery.reached(results, n) == StepView::Done(
            WebhookOutcome::Processed,
        ),
        n < delivery.handler_count() && results(n) is Err ==> delivery.reached(results, n + 1)
            == StepView::Release(delivery.event_key(), results(n)->Err_0),
    decreases n,
{
    if n > 0 {
        law_handlers_run_in_order(delivery, results, n - 1);
        assert(results(n - 1) is Ok);
    }
}

/// A timestamp is as far from another as the other is from it, whichever comes first.
pub proof fn law_distance_has_no_direction(a: i64, b: i64)
    ensures
        distance(a, b) == distance(b, a),
        distance(a, b) == a - b || distance(a, b) == b - a,
        distance(a, b) == 0 <==> a == b,
{
}

/// A known event is dropped, a new one without handlers ignored, and any other goes to the
/// first handler.
pub proof fn law_new_events_go_to_the_handlers(delivery: WebhookDelivery, first_time: bool)
    ensures
        delivery.after_mark(first_time) == StepView::Done(WebhookOutcome::Duplicate)
            <==> !first_time,
        delivery.after_mark(first_time) == StepView::Done(WebhookOutcome::Ignored)
            <==> first_time && delivery.handler_count() == 0,
        delivery.after_mark(first_time) == StepView::Handle(0) <==> first_time
            && delivery.handler_count() > 0,
{
}

} // verus!
