//! Subscriber identity: validated email addresses and display names.

use vstd::prelude::*;

verus! {

/// Whether the email validation rule accepts `s`.
///
/// The exact grammar (local part, domain labels, length limits) is the one
/// implemented by the outside validator; the library relies only on the
/// validation being a deterministic function of the string.
pub uninterp spec fn email_ok(s: Seq<char>) -> bool;

/// Relies on `garde::rules::email::parse_email`: a deterministic check of an
/// email address against a fixed grammar; an empty string is always rejected.
#[verifier::external_body]
fn check_email(s: &str) -> (r: bool)
    ensures
        r == email_ok(s@),
        s@.len() == 0 ==> !r,
{
    garde::rules::email::parse_email(s).is_ok()
}

/// The email address of a subscriber, known to satisfy [`email_ok`].
pub struct SubscriberEmail(String);

impl View for SubscriberEmail {
    type V = Seq<char>;

    closed spec fn view(&self) -> Seq<char> {
        self.0@
    }
}

impl SubscriberEmail {
    /// Validates `s` as an email address.
    ///
    /// Returns the address itself on success and a diagnostic message
    /// naming the rejected input on failure.
    pub fn parse(s: String) -> (r: Result<SubscriberEmail, String>)
        ensures
            r is Ok <==> email_ok(s@),
            s@.len() == 0 ==> r is Err,
            r matches Ok(e) ==> e@ == s@,
            r matches Err(m) ==> m@ == s@ + " is not a valid subscriber email."@,
    {
        if check_email(s.as_str()) {
            Ok(SubscriberEmail(s))
        } else {
            Err(s.concat(" is not a valid subscriber email."))
        }
    }

    /// The underlying address string.
    pub fn as_ref(&self) -> (r: &str)
        ensures
            r@ == self@,
    {
        self.0.as_str()
    }
}

/// A character never accepted in a subscriber name.
pub open spec fn forbidden_name_char(c: char) -> bool {
    c == '/' || c == '(' || c == ')' || c == '"' || c == '<' || c == '>' || c == '\\' || c == '{'
        || c == '}'
}

/// An acceptable subscriber display name: at most 256 characters, at least
/// one character that is not a blank, and none of the forbidden
/// characters.
pub open spec fn name_ok(s: Seq<char>) -> bool {
    &&& s.len() <= 256
    &&& exists|i: int| 0 <= i < s.len() && s[i] != ' '
    &&& forall|i: int| 0 <= i < s.len() ==> !forbidden_name_char(s[i])
}

/// The display name of a subscriber, known to satisfy [`name_ok`].
pub struct SubscriberName(String);

impl View for SubscriberName {
    type V = Seq<char>;

    closed spec fn view(&self) -> Seq<char> {
        self.0@
    }
}

impl SubscriberName {
    /// Validates `s` as a display name.
    pub fn parse(s: String) -> (r: Result<SubscriberName, String>)
        ensures
            r is Ok <==> name_ok(s@),
            r matches Ok(n) ==> n@ == s@,
            r matches Err(m) ==> m@ == s@ + " is not a valid subscriber name."@,
    {
        let n = s.as_str().unicode_len();
        let mut has_non_blank = false;
        let mut has_forbidden = false;
        let mut i: usize = 0;
        while i < n
            invariant
                n == s@.len(),
                0 <= i <= n,
                has_non_blank == (exists|k: int| 0 <= k < i && s@[k] != ' '),
                has_forbidden == (exists|k: int| 0 <= k < i && forbidden_name_char(#[trigger] s@[k])),
            decreases n - i,
        {
            let c = s.as_str().get_char(i);
            if c != ' ' {
                has_non_blank = true;
            }
            if c == '/' || c == '(' || c == ')' || c == '"' || c == '<' || c == '>' || c == '\\'
                || c == '{' || c == '}' {
                proof {
                    assert(forbidden_name_char(s@[i as int]));
                }
                has_forbidden = true;
            }
            i += 1;
        }
        if n <= 256 && has_non_blank && !has_forbidden {
            Ok(SubscriberName(s))
        } else {
            Err(s.concat(" is not a valid subscriber name."))
        }
    }

    /// The underlying name string.
    pub fn as_ref(&self) -> (r: &str)
        ensures
            r@ == self@,
    {
        self.0.as_str()
    }
}

/// A validated subscription request: address and display name both parsed.
pub struct NewSubscriber {
    pub email: SubscriberEmail,
    pub name: SubscriberName,
}

} // verus!
