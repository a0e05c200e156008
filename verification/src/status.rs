//! HTTP status codes.

use reqwest::StatusCode;
use vstd::prelude::*;

verus! {

/// A status code of an HTTP answer: three digits, from 100 to 999.
#[derive(Clone, Copy, Debug, PartialEq, Eq)]
pub struct Status {
    code: u16,
}

impl View for Status {
    type V = u16;

    closed spec fn view(&self) -> u16 {
        self.code
    }
}

/// How a status code is printed: the code, a space and its standard reason.
pub uninterp spec fn status_text(code: u16) -> Seq<char>;

/// `<reqwest::StatusCode as Display>::fmt`, through `to_string`: the code in
/// decimal, then a space and a reason phrase. Which phrase belongs to which
/// code is not stated.
#[verifier::external_body]
fn print_status(code: u16) -> (text: String)
    requires
        100 <= code <= 999,
    ensures
        text@ == status_text(code),
        (crate::text::decimal(code as nat) + seq![' ']).is_prefix_of(text@),
{
    StatusCode::from_u16(code).unwrap().to_string()
}

impl Status {
    #[verifier::type_invariant]
    spec fn in_range(self) -> bool {
        100 <= self.code <= 999
    }

    /// The status with this code, if there can be one.
    pub fn new(code: u16) -> (status: Option<Status>)
        ensures
            (match status {
                Some(s) => 100 <= code <= 999 && s@ == code,
                None => !(100 <= code <= 999),
            }),
    {
        if 100 <= code && code <= 999 {
            Some(Status { code })
        } else {
            None
        }
    }

    pub fn code(&self) -> (code: u16)
        ensures
            code == self@,
            100 <= code <= 999,
    {
        proof {
            use_type_invariant(self);
        }
        self.code
    }

    /// Whether the request succeeded.
    pub fn is_success(&self) -> (r: bool)
        ensures
            r == (200 <= self@ < 300),
    {
        200 <= self.code && self.code < 300
    }

    /// The code and its standard reason.
    pub fn text(&self) -> (text: String)
        ensures
            text@ == status_text(self@),
            (crate::text::decimal(self@ as nat) + seq![' ']).is_prefix_of(text@),
    {
        proof {
            use_type_invariant(self);
        }
        print_status(self.code)
    }
}

}
