//! Why a text is no URL.

use vstd::prelude::*;

verus! {

/// The ways in which the authority of a URL can be malformed.
#[derive(Clone, Copy, Debug, PartialEq, Eq, Structural)]
pub enum UrlError {
    /// The host opens with `[` and no `]` follows within the authority.
    UnclosedBracket,
    /// A code point outside ASCII stands in a bracketed host.
    NonAsciiIpLiteral,
    /// Something other than `:` follows the `]` of a bracketed host.
    TextAfterBracket,
    /// A code point other than `0` to `9` stands in the port.
    PortNotDecimal,
    /// The digits of the port name a number above 65535.
    PortTooLarge,
}

impl UrlError {
    /// The diagnostic of the error, as a sequence of code points.
    pub open spec fn text(self) -> Seq<char> {
        match self {
            UrlError::UnclosedBracket => "invalid IP literal: missing closing bracket"@,
            UrlError::NonAsciiIpLiteral => "invalid IP literal: non-ASCII code point"@,
            UrlError::TextAfterBracket => "invalid IP literal: unexpected text after closing bracket"@,
            UrlError::PortNotDecimal => "invalid port number"@,
            UrlError::PortTooLarge => "invalid port number: above 65535"@,
        }
    }

    /// The diagnostic of the error.
    pub fn message(&self) -> (m: String)
        ensures
            m@ == self.text(),
    {
        match self {
            UrlError::UnclosedBracket => "invalid IP literal: missing closing bracket".to_owned(),
            UrlError::NonAsciiIpLiteral => "invalid IP literal: non-ASCII code point".to_owned(),
            UrlError::TextAfterBracket => "invalid IP literal: unexpected text after closing bracket".to_owned(),
            UrlError::PortNotDecimal => "invalid port number".to_owned(),
            UrlError::PortTooLarge => "invalid port number: above 65535".to_owned(),
        }
    }
}

} // verus!
