//! Text that must not be printed.

use vstd::prelude::*;

verus! {

/// A text that shows as `MASKED` wherever values are logged.
#[derive(PartialEq, Eq)]
pub struct MaskedString(String);

impl View for MaskedString {
    type V = Seq<char>;

    closed spec fn view(&self) -> Seq<char> {
        self.0@
    }
}

impl MaskedString {
    /// The text itself.
    pub fn as_str(&self) -> (r: &str)
        ensures
            r@ == self@,
    {
        self.0.as_str()
    }

    /// What stands for the text in a log.
    pub fn shown(&self) -> (r: &'static str)
        ensures
            r@ == "MASKED"@,
    {
        "MASKED"
    }
}

/// The characters of an optional secret.
pub open spec fn opt_secret(s: Option<MaskedString>) -> Option<Seq<char>> {
    match s {
        Some(s) => Some(s@),
        None => None,
    }
}

impl Clone for MaskedString {
    fn clone(&self) -> (r: Self)
        ensures
            r == *self,
    {
        MaskedString(self.0.clone())
    }
}

impl Default for MaskedString {
    fn default() -> (r: Self)
        ensures
            r@ == Seq::<char>::empty(),
    {
        MaskedString(String::new())
    }
}

impl std::ops::Deref for MaskedString {
    type Target = str;

    fn deref(&self) -> (r: &str)
        ensures
            r@ == self@,
    {
        self.0.as_str()
    }
}

impl From<&str> for MaskedString {
    fn from(s: &str) -> (r: MaskedString)
        ensures
            r@ == s@,
    {
        MaskedString(s.to_string())
    }
}

impl vstd::std_specs::convert::FromSpecImpl<&str> for MaskedString {
    open spec fn obeys_from_spec() -> bool {
        false
    }

    open spec fn from_spec(s: &str) -> MaskedString {
        arbitrary()
    }
}

/// An optional secret has the characters of the secret, where there is one.
pub proof fn optional_secrets_have_their_characters(s: MaskedString)
    ensures
        opt_secret(Some(s)) == Some(s@),
        opt_secret(None) == None::<Seq<char>>,
{
}

} // verus!
