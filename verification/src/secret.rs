//! Handling of sensitive values.
//!
//! Instruments are only ever referenced by a gateway-issued token: no type here
//! accepts a card number. Values that are sensitive but must be held in memory
//! (API keys, webhook signing secrets) are wrapped in [`SecretString`], which
//! renders as a fixed redaction and compares in constant time.

use vstd::prelude::*;
use vstd::utf8::{encode_utf8, encode_utf8_decode_utf8};

use crate::text::{chars_of, text_of};

verus! {

/// A string that is not printed or logged.
pub struct SecretString(String);

impl View for SecretString {
    type V = Seq<char>;

    closed spec fn view(&self) -> Seq<char> {
        self.0@
    }
}

/// Compares two byte strings with `subtle::ConstantTimeEq::ct_eq` on slices, which
/// is true exactly when they have the same length and the same bytes.
#[verifier::external_body]
pub(crate) fn bytes_equal(a: &[u8], b: &[u8]) -> (same: bool)
    ensures
        same == (a@ == b@),
{
    subtle::ConstantTimeEq::ct_eq(a, b).into()
}

impl Default for SecretString {
    fn default() -> (secret: Self)
        ensures
            secret@ == Seq::<char>::empty(),
    {
        SecretString(String::new())
    }
}

impl SecretString {
    /// Wrap a value as a secret.
    pub fn new(value: &str) -> (secret: Self)
        ensures
            secret@ == value@,
    {
        SecretString(value.to_owned())
    }

    /// Deliberately verbose accessor, so that every place that unwraps a secret is
    /// easy to find.
    pub fn expose(&self) -> (value: &str)
        ensures
            value@ == self@,
    {
        self.0.as_str()
    }

    /// The number of bytes in the secret (safe to log).
    pub fn len(&self) -> (length: usize)
        ensures
            length == encode_utf8(self@).len() as usize,
    {
        self.0.as_str().len()
    }

    /// Whether the secret is empty.
    pub fn is_empty(&self) -> (empty: bool)
        ensures
            empty == (self@.len() == 0),
    {
        self.0.as_str().is_empty()
    }

    /// Compare against a candidate in constant time.
    pub fn constant_time_eq(&self, candidate: &str) -> (same: bool)
        ensures
            same == (self@ == candidate@),
    {
        let same = bytes_equal(self.0.as_str().as_bytes(), candidate.as_bytes());
        proof {
            lemma_same_bytes_same_text(self@, candidate@);
        }
        same
    }

    /// The text shown in place of the secret.
    pub fn to_text(&self) -> (text: String)
        ensures
            text@ == "***redacted***"@,
    {
        "***redacted***".to_owned()
    }

    /// The text shown in place of the secret when a value that holds it is inspected.
    pub fn debug_text(&self) -> (text: String)
        ensures
            text@ == "SecretString(***redacted***)"@,
    {
        "SecretString(***redacted***)".to_owned()
    }
}

impl Clone for SecretString {
    fn clone(&self) -> (secret: Self)
        ensures
            secret == *self,
    {
        SecretString(self.0.clone())
    }
}

/// Two texts have the same bytes exactly when they are the same text.
pub proof fn lemma_same_bytes_same_text(a: Seq<char>, b: Seq<char>)
    ensures
        encode_utf8(a) == encode_utf8(b) <==> a == b,
{
    encode_utf8_decode_utf8(a);
    encode_utf8_decode_utf8(b);
}

impl PartialEq for SecretString {
    fn eq(&self, other: &Self) -> (same: bool) {
        self.constant_time_eq(other.0.as_str())
    }
}

impl vstd::std_specs::cmp::PartialEqSpecImpl for SecretString {
    open spec fn obeys_eq_spec() -> bool {
        true
    }

    open spec fn eq_spec(&self, other: &Self) -> bool {
        self@ == other@
    }
}

impl Eq for SecretString {

}

/// A text whose first characters, all but the last `visible`, are hidden behind
/// asterisks; a text no longer than that is hidden whole.
pub open spec fn masked(value: Seq<char>, visible: nat) -> Seq<char> {
    let hidden = if value.len() <= visible {
        value.len() as int
    } else {
        value.len() - visible
    };
    Seq::new(
        value.len(),
        |i: int|
            if i < hidden {
                '*'
            } else {
                value[i]
            },
    )
}

/// Mask all but the last `visible` characters of an identifier.
pub fn mask_tail(value: &str, visible: usize) -> (out: String)
    ensures
        out@ == masked(value@, visible as nat),
{
    let chars = chars_of(value);
    let hidden: usize = if chars.len() <= visible {
        chars.len()
    } else {
        chars.len() - visible
    };
    let mut out = String::new();
    let mut i: usize = 0;
    while i < hidden
        invariant
            i <= hidden <= chars@.len(),
            out@ == Seq::new(i as nat, |j: int| '*'),
        decreases hidden - i,
    {
        out.push('*');
        i += 1;
        assert(out@ =~= Seq::new(i as nat, |j: int| '*'));
    }
    let tail = text_of(&chars, hidden, chars.len());
    out.append(tail.as_str());
    assert(out@ =~= masked(value@, visible as nat));
    out
}

/// Masking keeps the length, and shows nothing of a value no longer than the
/// visible tail.
pub proof fn law_masking(value: Seq<char>, visible: nat)
    ensures
        masked(value, visible).len() == value.len(),
        forall|i: int|
            0 <= i < value.len() - visible ==> #[trigger] masked(value, visible)[i] == '*',
        value.len() <= visible ==> forall|i: int|
            0 <= i < value.len() ==> #[trigger] masked(value, visible)[i] == '*',
        value.len() > visible ==> masked(value, visible).skip(value.len() - visible) == value.skip(
            value.len() - visible,
        ),
{
    if value.len() > visible {
        assert(masked(value, visible).skip(value.len() - visible) =~= value.skip(
            value.len() - visible,
        ));
    }
}

} // verus!
