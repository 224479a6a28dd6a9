use vstd::prelude::*;

use crate::errors::Error;

verus! {

/// A separator the host's account-name rules allow between name parts.
pub open spec fn is_separator_char(c: char) -> bool {
    c == '-' || c == '_' || c == '.'
}

/// A character the host's account-name rules allow anywhere: a lower-case
/// ASCII letter, a digit, or a separator.
pub open spec fn is_account_char(c: char) -> bool {
    ('a' <= c && c <= 'z') || ('0' <= c && c <= '9') || is_separator_char(c)
}

/// The host's account-name rules: 2 to 64 characters, each a lower-case
/// letter, a digit or one of the separators `-`, `_`, `.`, where no separator
/// stands first or last and no two separators are adjacent.
pub open spec fn valid_account_seq(s: Seq<char>) -> bool {
    &&& 2 <= s.len() <= 64
    &&& forall|i: int| 0 <= i < s.len() ==> is_account_char(#[trigger] s[i])
    &&& !is_separator_char(s[0])
    &&& !is_separator_char(s[s.len() - 1])
    &&& forall|i: int|
        0 < i < s.len() ==> !(is_separator_char(s[i - 1]) && is_separator_char(#[trigger] s[i]))
}

/// Relies on `near_sdk::AccountId::validate`: it accepts a name exactly when
/// it is 2 to 64 bytes of lower-case ASCII letters, digits and the separators
/// `-`, `_`, `.`, with no separator first or last and no two separators
/// adjacent.  (A name whose characters all lie in that set is ASCII, so its
/// byte length equals its character count; a name with any other character is
/// rejected by both sides.)
#[verifier::external_body]
fn host_validate_account(s: &str) -> (r: bool)
    ensures
        r == valid_account_seq(s@),
{
    near_sdk::AccountId::validate(s).is_ok()
}

/// A validated account name.
///
/// Values are created only through [`AccountId::new`], which consults the
/// host's account-name validation, so every `AccountId` handed to the pool
/// satisfies [`valid_account_seq`].
#[derive(Debug)]
pub struct AccountId {
    name: String,
}

impl View for AccountId {
    type V = Seq<char>;

    closed spec fn view(&self) -> Seq<char> {
        self.name@
    }
}

impl AccountId {
    /// Validates `name` against the host's account-name rules and wraps it.
    pub fn new(name: String) -> (r: Result<AccountId, Error>)
        ensures
            valid_account_seq(name@) ==> (r matches Ok(a) && a@ == name@),
            !valid_account_seq(name@) ==> r == Err::<AccountId, Error>(Error::InvalidAccount),
    {
        if host_validate_account(name.as_str()) {
            Ok(AccountId { name })
        } else {
            Err(Error::InvalidAccount)
        }
    }

    /// The wrapped name.
    pub fn as_str(&self) -> (r: &str)
        ensures
            r@ == self@,
    {
        self.name.as_str()
    }
}

impl Clone for AccountId {
    fn clone(&self) -> (r: Self)
        ensures
            r == *self,
    {
        AccountId { name: self.name.clone() }
    }
}

impl vstd::std_specs::cmp::PartialEqSpecImpl for AccountId {
    open spec fn obeys_eq_spec() -> bool {
        true
    }

    open spec fn eq_spec(&self, other: &AccountId) -> bool {
        self@ == other@
    }
}

impl PartialEq for AccountId {
    fn eq(&self, other: &AccountId) -> (r: bool) {
        self.name == other.name
    }
}

impl Eq for AccountId {

}

} // verus!
