//! The live email validation rule: a pure function of the candidate text
//! and the contact being edited, re-evaluated on every keystroke-equivalent
//! request; the empty message means valid.

use vstd::prelude::*;
use crate::contact::Contact;
use crate::text::{contains_char, str_eq};

verus! {

/// The message the email rule yields for candidate `email` against the
/// currently stored value `current`: empty input is refused; input lacking
/// both an `@` and a `.` — holding neither character — is malformed; input
/// equal to the stored value gets a soft warning; anything else is valid
/// (empty message).
pub open spec fn validate_spec(email: Seq<char>, current: Seq<char>) -> Seq<char> {
    if email.len() == 0 {
        "Email cannot be empty"@
    } else if email.contains('@') || email.contains('.') {
        if current == email {
            "Same email as before"@
        } else {
            Seq::<char>::empty()
        }
    } else {
        "Invalid email"@
    }
}

/// Evaluates the email rule for `email` against the stored email of
/// `contact`. Pure: no store access, no mutation.
pub fn validate_email(email: &str, contact: &Contact) -> (r: String)
    ensures
        r@ == validate_spec(email@, contact@.email),
{
    if email.unicode_len() == 0 {
        "Email cannot be empty".to_owned()
    } else if contains_char(email, '@') || contains_char(email, '.') {
        if str_eq(contact.email.as_str(), email) {
            "Same email as before".to_owned()
        } else {
            String::new()
        }
    } else {
        "Invalid email".to_owned()
    }
}

} // verus!
