//! Where the parts of a URL lie in its text.
//!
//! A text has an authority where it reads `scheme://...`: a run of one or more
//! code points none of which is `:`, `/`, `?` or `#`, and `://` after it. The authority
//! runs up to the first `/`, `?` or `#` or to the end of the text. What
//! stands in it after its last `@` is the host and, after a colon, the port. A host
//! that opens with `[` is an IP literal: it runs up to the first `]` and is
//! ASCII. Any other host runs up to the first colon.

use crate::error::UrlError;
use crate::port::{port_spec, read_port};
use crate::scan::{
    all_ascii, find_after_last, find_first, first_stop, last_stop, lemma_first_stop,
    lemma_last_stop, Stop,
};
use vstd::prelude::*;
use vstd::utf8::is_ascii_chars;

verus! {

/// The index of the code point that ends the first run of `s`.
pub open spec fn scheme_end(s: Seq<char>) -> int {
    first_stop(s, 0, s.len() as int, Stop::SchemeEnd)
}

/// Whether `s` begins with a scheme and `://`.
pub open spec fn has_authority(s: Seq<char>) -> bool {
    let i = scheme_end(s);
    0 < i && i + 2 < s.len() && s[i] == ':' && s[i + 1] == '/' && s[i + 2] == '/'
}

/// The index at which the authority of `s` begins.
pub open spec fn authority_start(s: Seq<char>) -> int {
    scheme_end(s) + 3
}

/// The index at which the authority of `s` ends.
pub open spec fn authority_end(s: Seq<char>) -> int {
    first_stop(s, authority_start(s), s.len() as int, Stop::AuthorityEnd)
}

/// The index at which the host of `s` begins: after the last `@` of the
/// authority, or with the authority.
pub open spec fn host_start(s: Seq<char>) -> int {
    last_stop(s, authority_start(s), authority_end(s), Stop::At) + 1
}

/// Whether the host of `s` opens with `[`.
pub open spec fn bracketed(s: Seq<char>) -> bool {
    host_start(s) < authority_end(s) && s[host_start(s)] == '['
}

/// The index of the first `]` of a bracketed host, or the end of the
/// authority.
pub open spec fn bracket_close(s: Seq<char>) -> int {
    first_stop(s, host_start(s), authority_end(s), Stop::BracketClose)
}

/// The index at which the host of `s` ends.
pub open spec fn host_end(s: Seq<char>) -> int {
    if !bracketed(s) {
        first_stop(s, host_start(s), authority_end(s), Stop::Colon)
    } else if bracket_close(s) < authority_end(s) {
        bracket_close(s) + 1
    } else {
        authority_end(s)
    }
}

/// What is wrong with the authority of `s`, if anything is.
pub open spec fn authority_error(s: Seq<char>) -> Option<UrlError> {
    if bracketed(s) && bracket_close(s) == authority_end(s) {
        Some(UrlError::UnclosedBracket)
    } else if bracketed(s) && !is_ascii_chars(s.subrange(host_start(s), host_end(s))) {
        Some(UrlError::NonAsciiIpLiteral)
    } else if host_end(s) == authority_end(s) {
        None
    } else if s[host_end(s)] != ':' {
        Some(UrlError::TextAfterBracket)
    } else {
        match port_spec(s.subrange(host_end(s) + 1, authority_end(s))) {
            Ok(_) => None,
            Err(e) => Some(e),
        }
    }
}

/// The places at which a URL with an authority is cut into its parts.
#[derive(Clone, Copy, Debug, PartialEq, Eq, Structural)]
pub struct Layout {
    /// The index of the colon after the scheme.
    pub scheme_end: usize,
    /// The index at which the host begins.
    pub host_start: usize,
    /// The index at which the host ends.
    pub host_end: usize,
    /// The index at which the authority ends.
    pub authority_end: usize,
}

impl Layout {
    /// Whether the layout is that of the text `s`.
    pub open spec fn is_layout_of(self, s: Seq<char>) -> bool {
        &&& self.scheme_end == scheme_end(s)
        &&& self.host_start == host_start(s)
        &&& self.host_end == host_end(s)
        &&& self.authority_end == authority_end(s)
    }
}

/// The order in which the cuts of a text with an authority lie.
pub proof fn lemma_layout_order(s: Seq<char>)
    requires
        has_authority(s),
    ensures
        0 < scheme_end(s),
        authority_start(s) <= host_start(s) <= host_end(s) <= authority_end(s) <= s.len(),
        authority_start(s) < host_start(s) ==> s[host_start(s) - 1] == '@',
        forall|j: int| authority_start(s) <= j < authority_end(s) ==> !Stop::AuthorityEnd.hits(#[trigger] s[j]),
        authority_end(s) < s.len() ==> Stop::AuthorityEnd.hits(s[authority_end(s)]),
        forall|j: int| host_start(s) <= j < authority_end(s) ==> #[trigger] s[j] != '@',
{
    let a0 = authority_start(s);
    lemma_first_stop(s, a0, s.len() as int, Stop::AuthorityEnd);
    let a1 = authority_end(s);
    lemma_last_stop(s, a0, a1, Stop::At);
    let h0 = host_start(s);
    lemma_first_stop(s, h0, a1, Stop::Colon);
    lemma_first_stop(s, h0, a1, Stop::BracketClose);
    assert forall|j: int| h0 <= j < a1 implies #[trigger] s[j] != '@' by {
        assert(!Stop::At.hits(s[j]));
    }
}

/// Finds the cuts of `text`: `None` where it has no authority, and the error
/// where its authority is malformed.
pub fn locate(text: &[char]) -> (r: Result<Option<Layout>, UrlError>)
    ensures
        match r {
            Ok(None) => !has_authority(text@),
            Ok(Some(l)) => has_authority(text@) && authority_error(text@) is None
                && l.is_layout_of(text@),
            Err(e) => has_authority(text@) && authority_error(text@) == Some(e),
        },
{
    let n: usize = text.len();
    let colon: usize = find_first(text, 0, n, Stop::SchemeEnd);
    if colon == 0 || n - colon < 3 {
        return Ok(None);
    }
    if text[colon] != ':' || text[colon + 1] != '/' || text[colon + 2] != '/' {
        return Ok(None);
    }
    proof {
        lemma_layout_order(text@);
    }
    let begin: usize = colon + 3;
    let end: usize = find_first(text, begin, n, Stop::AuthorityEnd);
    let host: usize = find_after_last(text, begin, end, Stop::At);
    let host_end: usize = if host < end && text[host] == '[' {
        let close: usize = find_first(text, host, end, Stop::BracketClose);
        if close == end {
            return Err(UrlError::UnclosedBracket);
        }
        if !all_ascii(text, host, close + 1) {
            return Err(UrlError::NonAsciiIpLiteral);
        }
        close + 1
    } else {
        find_first(text, host, end, Stop::Colon)
    };
    if host_end < end {
        if text[host_end] != ':' {
            return Err(UrlError::TextAfterBracket);
        }
        match read_port(text, host_end + 1, end) {
            Ok(_) => {},
            Err(e) => {
                return Err(e);
            },
        }
    }
    Ok(Some(Layout { scheme_end: colon, host_start: host, host_end, authority_end: end }))
}

} // verus!
