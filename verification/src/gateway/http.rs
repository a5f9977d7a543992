//! A minimal HTTP abstraction for gateway adapters.
//!
//! The crate deliberately does **not** depend on an HTTP client. Applications
//! already have one (`reqwest`, `hyper`, `ureq`, a service mesh proxy, a
//! signing middleware), and forcing a second one into the dependency tree is
//! how you end up with two TLS stacks. Adapters build an [`HttpRequest`] and
//! interpret an [`HttpResponse`]; the application carries the one out and hands
//! the other back.
//!
//! It also makes adapters trivially testable: [`MockTransport`] lets a unit
//! test assert on the exact request an adapter builds and feed back canned
//! provider responses, with no network involved.

use vstd::prelude::*;
use vstd::utf8::{decode_utf8, encode_utf8, valid_utf8};

use crate::collections::OrderedMap;
use crate::error::{Error, ErrorView};
use crate::gateway::json::{
    display_json, json_content, json_display, json_document, json_rendering, parse_json, render_json,
    JsonView,
};
use crate::secret::SecretString;
use crate::text::{join, join3, lower, to_lower};

verus! {

/// HTTP methods used by gateway APIs.
#[derive(Debug, Clone, Copy, PartialEq, Eq, Structural)]
pub enum Method {
    /// `GET`
    Get,
    /// `POST`
    Post,
    /// `DELETE`
    Delete,
}

impl Method {
    /// The method name.
    pub fn as_str(self) -> (name: &'static str)
        ensures
            name@ == match self {
                Method::Get => "GET"@,
                Method::Post => "POST"@,
                Method::Delete => "DELETE"@,
            },
    {
        match self {
            Method::Get => "GET",
            Method::Post => "POST",
            Method::Delete => "DELETE",
        }
    }
}

/// An outbound request built by an adapter.
#[derive(Debug, Clone, PartialEq)]
pub struct HttpRequest {
    /// HTTP method.
    pub method: Method,
    /// Absolute URL.
    pub url: String,
    /// Headers, excluding authentication (added by the transport or adapter).
    pub headers: OrderedMap<String>,
    /// Request body.
    pub body: Option<Vec<u8>>,
}

/// An outbound request, its parts as sequences and maps.
pub ghost struct RequestView {
    /// HTTP method.
    pub method: Method,
    /// Absolute URL.
    pub url: Seq<char>,
    /// Headers.
    pub headers: Map<Seq<char>, Seq<char>>,
    /// Request body.
    pub body: Option<Seq<u8>>,
}

/// Headers with their values as text.
pub open spec fn header_texts(headers: Map<Seq<char>, String>) -> Map<Seq<char>, Seq<char>> {
    headers.map_values(|value: String| value@)
}

impl View for HttpRequest {
    type V = RequestView;

    open spec fn view(&self) -> RequestView {
        RequestView {
            method: self.method,
            url: self.url@,
            headers: header_texts(self.headers@),
            body: match self.body {
                Some(bytes) => Some(bytes@),
                None => None,
            },
        }
    }
}

/// A text as characters, whatever its bytes.
pub uninterp spec fn lossy_text(bytes: Seq<u8>) -> Seq<char>;

/// Reads bytes with `String::from_utf8_lossy`: UTF-8 is read as the text it encodes, and
/// what takes the place of other bytes is a function of the bytes.
#[verifier::external_body]
fn read_lossy(bytes: &[u8]) -> (text: String)
    ensures
        text@ == lossy_text(bytes@),
        valid_utf8(bytes@) ==> text@ == decode_utf8(bytes@),
{
    String::from_utf8_lossy(bytes).to_string()
}

impl RequestView {
    /// A `GET` request.
    pub open spec fn get(url: Seq<char>) -> RequestView {
        RequestView { method: Method::Get, url, headers: Map::empty(), body: None }
    }

    /// A form-encoded `POST`.
    pub open spec fn post_form(url: Seq<char>, form: Seq<(Seq<char>, Seq<char>)>) -> RequestView {
        RequestView {
            method: Method::Post,
            url,
            headers: Map::<Seq<char>, Seq<char>>::empty().insert(
                "content-type"@,
                "application/x-www-form-urlencoded"@,
            ),
            body: Some(encode_utf8(form_text(form, form.len() as int))),
        }
    }

    /// A JSON `POST`, or why it cannot be made.
    pub open spec fn post_json(url: Seq<char>, body: JsonView) -> Result<RequestView, ErrorView> {
        match json_rendering(body) {
            Ok(bytes) => Ok(
                RequestView {
                    method: Method::Post,
                    url,
                    headers: Map::<Seq<char>, Seq<char>>::empty().insert(
                        "content-type"@,
                        "application/json"@,
                    ),
                    body: Some(bytes),
                },
            ),
            Err(message) => Err(
                ErrorView::Internal("failed to serialize request body: "@ + message),
            ),
        }
    }

    /// The request with a header.
    pub open spec fn with_header(self, name: Seq<char>, value: Seq<char>) -> RequestView {
        RequestView { headers: self.headers.insert(lower(name), value), ..self }
    }

    /// The request with bearer authentication.
    pub open spec fn with_bearer_auth(self, secret: Seq<char>) -> RequestView {
        self.with_header("authorization"@, "Bearer "@ + secret)
    }
}

/// A request, or the error in its place.
pub open spec fn request_outcome(request: Result<HttpRequest, Error>) -> Result<
    RequestView,
    ErrorView,
> {
    match request {
        Ok(made) => Ok(made@),
        Err(error) => Err(error@),
    }
}

impl HttpRequest {
    /// A `GET` request.
    pub fn get(url: &str) -> (request: Self)
        ensures
            request@ == RequestView::get(url@),
    {
        let request = HttpRequest {
            method: Method::Get,
            url: url.to_owned(),
            headers: OrderedMap::new(),
            body: None,
        };
        assert(request@.headers =~= Map::<Seq<char>, Seq<char>>::empty());
        request
    }

    /// A form-encoded `POST`.
    pub fn post_form(url: &str, form: &FormBody) -> (request: Self)
        ensures
            request@ == RequestView::post_form(url@, form@),
    {
        let mut headers: OrderedMap<String> = OrderedMap::new();
        headers.insert(
            "content-type".to_owned(),
            "application/x-www-form-urlencoded".to_owned(),
        );
        let text = form.encode();
        let request = HttpRequest {
            method: Method::Post,
            url: url.to_owned(),
            headers,
            body: Some(vstd::slice::slice_to_vec(text.as_str().as_bytes())),
        };
        assert(request@.headers =~= RequestView::post_form(url@, form@).headers);
        request
    }

    /// A JSON `POST`.
    pub fn post_json(url: &str, body: &serde_json::Value) -> (request: Result<Self, Error>)
        ensures
            request_outcome(request) == RequestView::post_json(url@, json_content(*body)),
    {
        let mut headers: OrderedMap<String> = OrderedMap::new();
        headers.insert("content-type".to_owned(), "application/json".to_owned());
        let bytes = match render_json(body) {
            Ok(bytes) => bytes,
            Err(message) => {
                let text = join("failed to serialize request body: ", message.as_str());
                return Err(Error::internal(text.as_str()));
            },
        };
        let request = HttpRequest {
            method: Method::Post,
            url: url.to_owned(),
            headers,
            body: Some(bytes),
        };
        assert(request@.headers =~= Map::<Seq<char>, Seq<char>>::empty().insert(
            "content-type"@,
            "application/json"@,
        ));
        Ok(request)
    }

    /// Builder: add a header.
    pub fn with_header(self, name: &str, value: &str) -> (request: Self)
        ensures
            request@ == self@.with_header(name@, value@),
    {
        let mut request = self;
        let ghost before = request@;
        request.headers.insert(to_lower(name), value.to_owned());
        assert(request@.headers =~= before.with_header(name@, value@).headers);
        request
    }

    /// Builder: add bearer authentication.
    ///
    /// The secret is only exposed here, at the moment the request is built.
    pub fn with_bearer_auth(self, secret: &SecretString) -> (request: Self)
        ensures
            request@ == self@.with_bearer_auth(secret@),
    {
        let value = join("Bearer ", secret.expose());
        self.with_header("authorization", value.as_str())
    }

    /// The body as a UTF-8 string, for debugging and tests.
    pub fn body_string(&self) -> (text: String)
        ensures
            match self.body {
                Some(bytes) => text@ == lossy_text(bytes@) && (valid_utf8(bytes@) ==> text@
                    == decode_utf8(bytes@)),
                None => text@ == Seq::<char>::empty(),
            },
    {
        match &self.body {
            Some(bytes) => read_lossy(bytes.as_slice()),
            None => String::new(),
        }
    }
}

/// A response from the provider.
#[derive(Debug, Clone, PartialEq)]
pub struct HttpResponse {
    /// HTTP status code.
    pub status: u16,
    /// Response headers.
    pub headers: OrderedMap<String>,
    /// Raw body.
    pub body: Vec<u8>,
}

impl HttpResponse {
    /// Whether the status is 2xx.
    pub open spec fn succeeded(self) -> bool {
        200 <= self.status < 300
    }

    /// Whether the status suggests the request can be retried.
    pub open spec fn may_be_retried(self) -> bool {
        self.status == 429 || 500 <= self.status < 600
    }

    /// A JSON response with a status.
    pub fn json(status: u16, body: serde_json::Value) -> (response: Self)
        ensures
            response.status == status,
            response.headers@ == Map::<Seq<char>, String>::empty(),
            response.body@ == encode_utf8(json_display(json_content(body))),
    {
        let text = display_json(&body);
        HttpResponse {
            status,
            headers: OrderedMap::new(),
            body: vstd::slice::slice_to_vec(text.as_str().as_bytes()),
        }
    }

    /// Whether the status is 2xx.
    pub fn is_success(&self) -> (success: bool)
        ensures
            success == self.succeeded(),
    {
        200 <= self.status && self.status < 300
    }

    /// Parse the body as JSON.
    pub fn json_body(&self) -> (document: Result<serde_json::Value, Error>)
        ensures
            match document {
                Ok(value) => json_document(self.body@) == Ok::<JsonView, Seq<char>>(
                    json_content(value),
                ),
                Err(error) => {
                    &&& json_document(self.body@) is Err
                    &&& error@ == (ErrorView::Gateway {
                        gateway: "unknown"@,
                        provider_code: None,
                        message: "provider returned a non-JSON body: "@ + json_document(
                            self.body@,
                        )->Err_0,
                        retryable: false,
                    })
                },
            },
    {
        match parse_json(self.body.as_slice()) {
            Ok(value) => Ok(value),
            Err(message) => Err(
                Error::Gateway {
                    gateway: "unknown".to_owned(),
                    provider_code: None,
                    message: join("provider returned a non-JSON body: ", message.as_str()),
                    retryable: false,
                },
            ),
        }
    }

    /// Whether the status suggests the request can be retried.
    pub fn is_retryable(&self) -> (retryable: bool)
        ensures
            retryable == self.may_be_retried(),
    {
        self.status == 429 || (500 <= self.status && self.status < 600)
    }
}

/// A `application/x-www-form-urlencoded` body builder with support for the
/// bracketed nesting Stripe-style APIs use (`transfer_data[destination]`).
#[derive(Debug, Clone, PartialEq, Eq)]
pub struct FormBody {
    fields: Vec<(String, String)>,
}

impl View for FormBody {
    type V = Seq<(Seq<char>, Seq<char>)>;

    closed spec fn view(&self) -> Seq<(Seq<char>, Seq<char>)> {
        self.fields@.map_values(|field: (String, String)| (field.0@, field.1@))
    }
}

impl Default for FormBody {
    fn default() -> (form: Self)
        ensures
            form@ == Seq::<(Seq<char>, Seq<char>)>::empty(),
    {
        Self::new()
    }
}

/// The first `n` fields of a form, percent-encoded.
pub open spec fn form_text(fields: Seq<(Seq<char>, Seq<char>)>, n: int) -> Seq<char>
    decreases n,
{
    if n <= 0 {
        Seq::empty()
    } else {
        let field = encoded_text(fields[n - 1].0) + "="@ + encoded_text(fields[n - 1].1);
        if n == 1 {
            field
        } else {
            form_text(fields, n - 1) + "&"@ + field
        }
    }
}

impl FormBody {
    /// An empty body.
    pub fn new() -> (form: Self)
        ensures
            form@ == Seq::<(Seq<char>, Seq<char>)>::empty(),
    {
        let form = FormBody { fields: Vec::new() };
        assert(form@ =~= Seq::<(Seq<char>, Seq<char>)>::empty());
        form
    }

    /// Add a field.
    pub fn set(&mut self, key: &str, value: &str) -> (chain: &mut Self)
        ensures
            chain@ == old(self)@.push((key@, value@)),
            *final(self) == *final(chain),
    {
        let ghost before = self@;
        self.fields.push((key.to_owned(), value.to_owned()));
        assert(self@ =~= before.push((key@, value@)));
        self
    }

    /// Add a field only when the value is `Some`.
    pub fn set_opt(&mut self, key: &str, value: Option<&str>) -> (chain: &mut Self)
        ensures
            chain@ == match value {
                Some(text) => old(self)@.push((key@, text@)),
                None => old(self)@,
            },
            *final(self) == *final(chain),
    {
        match value {
            Some(text) => self.set(key, text),
            None => self,
        }
    }

    /// Builder form of [`Self::set`].
    pub fn with(self, key: &str, value: &str) -> (form: Self)
        ensures
            form@ == self@.push((key@, value@)),
    {
        let mut form = self;
        form.set(key, value);
        form
    }

    /// Percent-encode the fields.
    pub fn encode(&self) -> (text: String)
        ensures
            text@ == form_text(self@, self@.len() as int),
    {
        let mut text = String::new();
        let mut n: usize = 0;
        while n < self.fields.len()
            invariant
                n <= self.fields@.len(),
                text@ == form_text(self@, n as int),
            decreases self.fields@.len() - n,
        {
            assert(self@[n as int] == (self.fields@[n as int].0@, self.fields@[n as int].1@));
            let field = join3(
                percent_encode(self.fields[n].0.as_str()).as_str(),
                "=",
                percent_encode(self.fields[n].1.as_str()).as_str(),
            );
            if n > 0 {
                text.append("&");
            }
            text.append(field.as_str());
            assert(n == 0 ==> text@ =~= field@);
            n += 1;
        }
        text
    }

    /// Whether any field has been set.
    pub fn is_empty(&self) -> (empty: bool)
        ensures
            empty == (self@.len() == 0),
    {
        self.fields.len() == 0
    }
}

/// Whether a byte stands for itself in a form.
pub open spec fn unreserved(byte: u8) -> bool {
    65 <= byte <= 90 || 97 <= byte <= 122 || 48 <= byte <= 57 || byte == 45 || byte == 95 || byte
        == 46 || byte == 126
}

/// A capital hexadecimal digit for a number below sixteen.
pub open spec fn capital_hex(n: nat) -> char {
    if n < 10 {
        (n + 48) as char
    } else {
        (n + 55) as char
    }
}

/// A byte in a form: itself, a plus sign for a blank, or a percent sign and two digits.
pub open spec fn encoded_byte(byte: u8) -> Seq<char> {
    if unreserved(byte) {
        seq![byte as char]
    } else if byte == 32 {
        seq!['+']
    } else {
        seq!['%', capital_hex(byte as nat / 16), capital_hex(byte as nat % 16)]
    }
}

/// Bytes in a form.
pub open spec fn encoded(bytes: Seq<u8>) -> Seq<char>
    decreases bytes.len(),
{
    if bytes.len() == 0 {
        Seq::empty()
    } else {
        encoded(bytes.drop_last()) + encoded_byte(bytes.last())
    }
}

fn capital_digit(n: u8) -> (digit: char)
    requires
        n < 16,
    ensures
        digit == capital_hex(n as nat),
{
    if n < 10 {
        (n + 48) as char
    } else {
        (n + 55) as char
    }
}

/// Percent-encode a string for `application/x-www-form-urlencoded`.
///
/// Implemented here rather than pulled in as a dependency: the rule set is
/// three lines and the encoding is security-relevant enough to want in view.
pub fn percent_encode(input: &str) -> (text: String)
    ensures
        text@ == encoded_text(input@),
{
    let bytes = input.as_bytes();
    let mut out = String::new();
    let mut n: usize = 0;
    assert(bytes@.take(0) =~= Seq::<u8>::empty());
    while n < bytes.len()
        invariant
            n <= bytes@.len(),
            out@ == encoded(bytes@.take(n as int)),
        decreases bytes@.len() - n,
    {
        assert(bytes@.take(n + 1).drop_last() =~= bytes@.take(n as int));
        let ghost before = out@;
        let byte: u8 = bytes[n];
        if (65 <= byte && byte <= 90) || (97 <= byte && byte <= 122) || (48 <= byte && byte <= 57)
            || byte == 45 || byte == 95 || byte == 46 || byte == 126 {
            out.push(byte as char);
        } else if byte == 32 {
            out.push('+');
        } else {
            out.push('%');
            out.push(capital_digit(byte / 16));
            out.push(capital_digit(byte % 16));
        }
        assert(out@ =~= before + encoded_byte(byte));
        n += 1;
    }
    assert(bytes@.take(n as int) =~= bytes@);
    out
}

/// A text in a form.
pub open spec fn encoded_text(text: Seq<char>) -> Seq<char> {
    encoded(encode_utf8(text))
}

/// Whether a character may occur in an encoded field: a letter, a digit, or one of `-`, `_`,
/// `.`, `~`, `+` and `%`.
pub open spec fn is_form_char(c: char) -> bool {
    'A' <= c <= 'Z' || 'a' <= c <= 'z' || '0' <= c <= '9' || c == '-' || c == '_' || c == '.' || c
        == '~' || c == '+' || c == '%'
}

proof fn lemma_encoded_chars(bytes: Seq<u8>)
    ensures
        forall|i: int| 0 <= i < encoded(bytes).len() ==> is_form_char(#[trigger] encoded(bytes)[i]),
    decreases bytes.len(),
{
    if bytes.len() > 0 {
        lemma_encoded_chars(bytes.drop_last());
        let before = encoded(bytes.drop_last());
        let last = encoded_byte(bytes.last());
        assert forall|i: int| 0 <= i < encoded(bytes).len() implies is_form_char(
            #[trigger] encoded(bytes)[i],
        ) by {
            if i < before.len() {
                assert(encoded(bytes)[i] == before[i]);
            } else {
                assert(encoded(bytes)[i] == last[i - before.len()]);
                assert(0 <= bytes.last() as nat / 16 < 16);
                assert(0 <= bytes.last() as nat % 16 < 16);
            }
        }
    }
}

proof fn lemma_encoded_concat(a: Seq<u8>, b: Seq<u8>)
    ensures
        encoded(a + b) == encoded(a) + encoded(b),
    decreases b.len(),
{
    if b.len() == 0 {
        assert(a + b =~= a);
        assert(encoded(a) + encoded(b) =~= encoded(a));
    } else {
        lemma_encoded_concat(a, b.drop_last());
        assert((a + b).drop_last() =~= a + b.drop_last());
        assert(encoded(a + b) =~= encoded(a) + encoded(b));
    }
}

proof fn lemma_encoded_first(bytes: Seq<u8>)
    requires
        bytes.len() > 0,
    ensures
        encoded(bytes) == encoded_byte(bytes[0]) + encoded(bytes.drop_first()),
{
    let first = seq![bytes[0]];
    assert(bytes =~= first + bytes.drop_first());
    lemma_encoded_concat(first, bytes.drop_first());
    assert(first.drop_last() =~= Seq::<u8>::empty());
    assert(encoded(first.drop_last()) =~= Seq::<char>::empty());
    assert(encoded(first) =~= encoded_byte(bytes[0]));
}

proof fn lemma_hex_is_injective(a: nat, b: nat)
    requires
        a < 16,
        b < 16,
        capital_hex(a) == capital_hex(b),
    ensures
        a == b,
{
    assert((a + 48) as char as int == a + 48);
    assert((a + 55) as char as int == a + 55);
    assert((b + 48) as char as int == b + 48);
    assert((b + 55) as char as int == b + 55);
}

proof fn lemma_encoded_byte_is_injective(a: u8, b: u8, after_a: Seq<char>, after_b: Seq<char>)
    requires
        encoded_byte(a) + after_a == encoded_byte(b) + after_b,
    ensures
        a == b,
        after_a == after_b,
{
    let whole = encoded_byte(a) + after_a;
    let other = encoded_byte(b) + after_b;
    assert(whole[0] == encoded_byte(a)[0]);
    assert(other[0] == encoded_byte(b)[0]);
    if !unreserved(a) && a != 32 {
        assert(!unreserved(b) && b != 32);
        assert(whole[1] == encoded_byte(a)[1] && whole[2] == encoded_byte(a)[2]);
        assert(other[1] == encoded_byte(b)[1] && other[2] == encoded_byte(b)[2]);
        lemma_hex_is_injective(a as nat / 16, b as nat / 16);
        lemma_hex_is_injective(a as nat % 16, b as nat % 16);
    }
    assert(a == b);
    let n = encoded_byte(a).len() as int;
    assert(after_a =~= whole.skip(n));
    assert(after_b =~= other.skip(n));
}

proof fn lemma_encoded_is_injective(a: Seq<u8>, b: Seq<u8>)
    requires
        encoded(a) == encoded(b),
    ensures
        a == b,
    decreases a.len(),
{
    if a.len() > 0 {
        lemma_encoded_first(a);
    }
    if b.len() > 0 {
        lemma_encoded_first(b);
    }
    if a.len() > 0 && b.len() > 0 {
        lemma_encoded_byte_is_injective(
            a[0],
            b[0],
            encoded(a.drop_first()),
            encoded(b.drop_first()),
        );
        lemma_encoded_is_injective(a.drop_first(), b.drop_first());
        assert(a =~= seq![a[0]] + a.drop_first());
        assert(b =~= seq![b[0]] + b.drop_first());
    } else if a.len() > 0 {
        assert(encoded(a).len() > 0);
    } else if b.len() > 0 {
        assert(encoded(b).len() > 0);
    } else {
        assert(a =~= b);
    }
}

proof fn lemma_utf8_concat(a: Seq<char>, b: Seq<char>)
    ensures
        encode_utf8(a + b) == encode_utf8(a) + encode_utf8(b),
    decreases a.len(),
{
    if a.len() == 0 {
        assert(a + b =~= b);
        assert(encode_utf8(a) + encode_utf8(b) =~= encode_utf8(b));
    } else {
        lemma_utf8_concat(a.drop_first(), b);
        assert((a + b).drop_first() =~= a.drop_first() + b);
        assert(encode_utf8(a + b) =~= encode_utf8(a) + encode_utf8(b));
    }
}

/// An encoded field holds only letters, digits, `-`, `_`, `.`, `~`, `+` and `%`, so that
/// fields cannot run into each other.
pub proof fn law_encoding_is_safe(text: Seq<char>, i: int)
    requires
        0 <= i < encoded_text(text).len(),
    ensures
        is_form_char(encoded_text(text)[i]),
        encoded_text(text)[i] != '&',
        encoded_text(text)[i] != '=',
{
    lemma_encoded_chars(encode_utf8(text));
}

/// Encoding goes character by character: two texts, one after the other, encode to their
/// encodings, one after the other.
pub proof fn law_encoding_splits(a: Seq<char>, b: Seq<char>)
    ensures
        encoded_text(a + b) == encoded_text(a) + encoded_text(b),
{
    lemma_utf8_concat(a, b);
    lemma_encoded_concat(encode_utf8(a), encode_utf8(b));
}

/// Encoding loses nothing: different texts have different encodings.
pub proof fn law_encoding_loses_nothing(a: Seq<char>, b: Seq<char>)
    requires
        encoded_text(a) == encoded_text(b),
    ensures
        a == b,
{
    lemma_encoded_is_injective(encode_utf8(a), encode_utf8(b));
    vstd::utf8::encode_utf8_decode_utf8(a);
    vstd::utf8::encode_utf8_decode_utf8(b);
}

/// What a transport answers in place of a response.
#[derive(Debug)]
enum Canned {
    Response(HttpResponse),
    Failure(String),
}

/// A transport that returns canned responses and records what it was asked for.
#[derive(Debug)]
pub struct MockTransport {
    responses: Vec<Canned>,
    requests: Vec<HttpRequest>,
}

impl MockTransport {
    /// The answers that are queued: responses, or the messages of failures.
    pub closed spec fn queue(self) -> Seq<Result<HttpResponse, Seq<char>>> {
        self.responses@.map_values(
            |answer: Canned|
                match answer {
                    Canned::Response(response) => Ok(response),
                    Canned::Failure(message) => Err(message@),
                },
        )
    }

    /// Every request that was made, in order.
    pub closed spec fn recorded(self) -> Seq<HttpRequest> {
        self.requests@
    }

    /// A transport with no queued responses.
    pub fn new() -> (transport: Self)
        ensures
            transport.queue() == Seq::<Result<HttpResponse, Seq<char>>>::empty(),
            transport.recorded() == Seq::<HttpRequest>::empty(),
    {
        let transport = MockTransport { responses: Vec::new(), requests: Vec::new() };
        assert(transport.queue() =~= Seq::<Result<HttpResponse, Seq<char>>>::empty());
        transport
    }

    /// Queue a response. Responses are returned in FIFO order.
    pub fn push_response(&mut self, response: HttpResponse)
        ensures
            final(self).queue() == old(self).queue().push(Ok(response)),
            final(self).recorded() == old(self).recorded(),
    {
        let ghost before = self.queue();
        self.responses.push(Canned::Response(response));
        assert(self.queue() =~= before.push(Ok(response)));
    }

    /// Queue a transport-level failure.
    pub fn push_error(&mut self, message: &str)
        ensures
            final(self).queue() == old(self).queue().push(Err(message@)),
            final(self).recorded() == old(self).recorded(),
    {
        let ghost before = self.queue();
        self.responses.push(Canned::Failure(message.to_owned()));
        assert(self.queue() =~= before.push(Err(message@)));
    }

    /// Every request the adapter made, in order.
    pub fn requests(&self) -> (list: &Vec<HttpRequest>)
        ensures
            list@ == self.recorded(),
    {
        &self.requests
    }

    /// The most recent request.
    pub fn last_request(&self) -> (request: Option<&HttpRequest>)
        ensures
            match request {
                Some(last) => self.recorded().len() > 0 && *last == self.recorded().last(),
                None => self.recorded().len() == 0,
            },
    {
        if self.requests.len() == 0 {
            None
        } else {
            Some(&self.requests[self.requests.len() - 1])
        }
    }

    /// Execute a request: record it, and return what is first in the queue.
    pub fn execute(&mut self, request: HttpRequest) -> (response: Result<HttpResponse, Error>)
        ensures
            final(self).recorded() == old(self).recorded().push(request),
            old(self).queue().len() == 0 ==> {
                &&& response matches Err(error) && error@ == ErrorView::Internal(
                    "MockTransport has no queued response"@,
                )
                &&& final(self).queue() == old(self).queue()
            },
            old(self).queue().len() > 0 ==> {
                &&& final(self).queue() == old(self).queue().drop_first()
                &&& match old(self).queue()[0] {
                    Ok(first) => response == Ok::<HttpResponse, Error>(first),
                    Err(message) => response matches Err(error) && error@ == (ErrorView::Gateway {
                        gateway: "mock"@,
                        provider_code: None,
                        message,
                        retryable: true,
                    }),
                }
            },
    {
        let ghost before = self.queue();
        self.requests.push(request);
        if self.responses.len() == 0 {
            return Err(Error::internal("MockTransport has no queued response"));
        }
        let first = self.responses.remove(0);
        assert(self.queue() =~= before.drop_first());
        match first {
            Canned::Response(response) => Ok(response),
            Canned::Failure(message) => Err(
                Error::Gateway {
                    gateway: "mock".to_owned(),
                    provider_code: None,
                    message,
                    retryable: true,
                },
            ),
        }
    }
}

impl Default for MockTransport {
    fn default() -> (transport: Self)
        ensures
            transport.queue() == Seq::<Result<HttpResponse, Seq<char>>>::empty(),
            transport.recorded() == Seq::<HttpRequest>::empty(),
    {
        Self::new()
    }
}

/// A response says that the request went through, or that it may be sent again, never both;
/// too many requests and failures of the server may be sent again, and nothing else.
pub proof fn law_responses_say_how_it_went(response: HttpResponse)
    ensures
        response.succeeded() <==> response.status / 100 == 2,
        response.may_be_retried() <==> response.status == 429 || response.status / 100 == 5,
        !(response.succeeded() && response.may_be_retried()),
{
}

/// A byte that may not stand in a form as it is stands there as a percent sign and its value
/// in two hexadecimal digits, but for a space, which is a plus sign.
pub proof fn law_bytes_are_encoded_by_value(byte: u8)
    ensures
        unreserved(byte) ==> encoded_byte(byte).len() == 1 && encoded_byte(byte)[0] as int == byte,
        byte == 32 ==> encoded_byte(byte) == seq!['+'],
        !unreserved(byte) && byte != 32 ==> ({
            let code = encoded_byte(byte);
            let high = if code[1] as int >= 65 {
                code[1] as int - 55
            } else {
                code[1] as int - 48
            };
            let low = if code[2] as int >= 65 {
                code[2] as int - 55
            } else {
                code[2] as int - 48
            };
            &&& code.len() == 3
            &&& code[0] == '%'
            &&& 0 <= high < 16
            &&& 0 <= low < 16
            &&& byte == 16 * high + low
        }),
        byte == 38 || byte == 61 || byte == 43 || byte == 37 ==> !unreserved(byte),
{
}

} // verus!
