//! The conversion of a URL: its host in ASCII, and all else as it was.

use crate::host::{host_outcome, host_to_ascii, outcome_view};
use crate::url::{parse_url, parse_url_spec, UrlComponents, UrlParts};
use vstd::prelude::*;
use vstd::utf8::is_ascii_chars;

verus! {

/// The diagnostic of a failed conversion of the host: a fixed opening and
/// the reason.
pub open spec fn failure_text(reason: Seq<char>) -> Seq<char> {
    "Failed to convert IDN to ASCII: "@ + reason
}

/// What is made of the parts of a URL and of the outcome of converting its
/// host. An ASCII form takes the place of the host. A diagnostic fails the
/// conversion, and so does a form that is not ASCII.
pub open spec fn replace_host_spec(parts: UrlParts, outcome: Result<Seq<char>, Seq<char>>) -> Result<
    Seq<char>,
    Seq<char>,
> {
    match outcome {
        Ok(ascii) => if is_ascii_chars(ascii) {
            Ok(parts.with_host(ascii).reconstruct())
        } else {
            Err(failure_text("the converted host is not ASCII"@))
        },
        Err(reason) => Err(failure_text(reason)),
    }
}

/// What converting the URL `s` gives.
///
/// A text whose authority is malformed is an invalid URL, and fails with the
/// diagnostic of the parser. A text without an authority, and one whose host
/// is ASCII, comes back as it is. Any other host is converted. Where that
/// succeeds the URL is put together again around the ASCII form, and where
/// it fails the conversion fails with `failure_text` of the reason.
pub open spec fn convert_spec(s: Seq<char>) -> Result<Seq<char>, Seq<char>> {
    match parse_url_spec(s) {
        Err(e) => Err(e.text()),
        Ok(None) => Ok(s),
        Ok(Some(parts)) => if is_ascii_chars(parts.host) {
            Ok(s)
        } else {
            replace_host_spec(parts, host_outcome(parts.host))
        },
    }
}

/// What the safe conversion gives: the converted URL, or the URL as it was
/// where the conversion fails.
pub open spec fn safe_convert_spec(s: Seq<char>) -> Seq<char> {
    match convert_spec(s) {
        Ok(converted) => converted,
        Err(_) => s,
    }
}

/// Puts a URL together again around the outcome of converting its host.
pub fn replace_host(parts: UrlComponents, outcome: Result<String, String>) -> (r: Result<String, String>)
    ensures
        outcome_view(r) == replace_host_spec(parts@, outcome_view(outcome)),
{
    match outcome {
        Ok(ascii) => {
            if ascii.as_str().is_ascii() {
                let mut rebuilt = parts;
                rebuilt.host = ascii;
                Ok(rebuilt.reconstruct())
            } else {
                let mut text: String = "Failed to convert IDN to ASCII: ".to_owned();
                text.append("the converted host is not ASCII");
                Err(text)
            }
        },
        Err(reason) => {
            let mut text: String = "Failed to convert IDN to ASCII: ".to_owned();
            text.append(reason.as_str());
            Err(text)
        },
    }
}

/// Converts the internationalized host of a URL to its ASCII form.
pub fn convert_idn_to_ascii(url_str: &str) -> (r: Result<String, String>)
    ensures
        outcome_view(r) == convert_spec(url_str@),
{
    match parse_url(url_str) {
        Err(e) => Err(e.message()),
        Ok(None) => Ok(url_str.to_owned()),
        Ok(Some(parts)) => {
            if parts.host.as_str().is_ascii() {
                Ok(url_str.to_owned())
            } else {
                let outcome = host_to_ascii(parts.host.as_str());
                replace_host(parts, outcome)
            }
        },
    }
}

/// Converts like `convert_idn_to_ascii`, and hands back the URL as it was
/// where that fails.
pub fn safe_convert_idn_to_ascii(url_str: &str) -> (r: String)
    ensures
        r@ == safe_convert_spec(url_str@),
{
    match convert_idn_to_ascii(url_str) {
        Ok(converted) => converted,
        Err(_) => url_str.to_owned(),
    }
}

} // verus!
