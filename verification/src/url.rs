//! A URL with an authority, cut into its parts, and put together again.

use crate::error::UrlError;
use crate::layout::{
    authority_end, authority_error, authority_start, has_authority, host_end, host_start,
    lemma_layout_order, locate, scheme_end,
};
use crate::port::{port_spec, read_port};
use crate::scan::code_points;
use vstd::prelude::*;

verus! {

/// The parts of a URL, as sequences of code points.
pub struct UrlParts {
    /// What stands before `://`.
    pub scheme: Seq<char>,
    /// What stands between `://` and the last `@` of the authority.
    pub userinfo: Option<Seq<char>>,
    /// The host, with its brackets where it has them.
    pub host: Seq<char>,
    /// The digits after the colon that follows the host.
    pub port: Option<Seq<char>>,
    /// Path, query and fragment: what follows the authority.
    pub rest: Seq<char>,
}

impl UrlParts {
    /// The same parts around another host.
    pub open spec fn with_host(self, host: Seq<char>) -> UrlParts {
        UrlParts { host, ..self }
    }

    /// What stands before the host in the URL.
    pub open spec fn before_host(self) -> Seq<char> {
        let userinfo = match self.userinfo {
            Some(u) => u + seq!['@'],
            None => Seq::empty(),
        };
        self.scheme + seq![':', '/', '/'] + userinfo
    }

    /// What stands after the host in the URL.
    pub open spec fn after_host(self) -> Seq<char> {
        let port = match self.port {
            Some(p) => seq![':'] + p,
            None => Seq::empty(),
        };
        port + self.rest
    }

    /// The URL that the parts make up.
    pub open spec fn reconstruct(self) -> Seq<char> {
        self.before_host() + self.host + self.after_host()
    }
}

/// The parts of a text that has an authority.
pub open spec fn parts_of(s: Seq<char>) -> UrlParts {
    UrlParts {
        scheme: s.subrange(0, scheme_end(s)),
        userinfo: if authority_start(s) < host_start(s) {
            Some(s.subrange(authority_start(s), host_start(s) - 1))
        } else {
            None
        },
        host: s.subrange(host_start(s), host_end(s)),
        port: if host_end(s) < authority_end(s) {
            Some(s.subrange(host_end(s) + 1, authority_end(s)))
        } else {
            None
        },
        rest: s.subrange(authority_end(s), s.len() as int),
    }
}

/// What parsing makes of the text `s`: its parts, `None` where it has no
/// authority and so no host, or the error in its authority.
pub open spec fn parse_url_spec(s: Seq<char>) -> Result<Option<UrlParts>, UrlError> {
    if !has_authority(s) {
        Ok(None)
    } else {
        match authority_error(s) {
            Some(e) => Err(e),
            None => Ok(Some(parts_of(s))),
        }
    }
}

/// The parts of a text whose authority is well formed lie in it one after
/// another, with nothing between them but the delimiters.
pub proof fn lemma_parts_cover(s: Seq<char>)
    requires
        has_authority(s),
        authority_error(s) is None,
    ensures
        parts_of(s).before_host() == s.subrange(0, host_start(s)),
        parts_of(s).after_host() == s.subrange(host_end(s), s.len() as int),
        parts_of(s).reconstruct() == s,
{
    lemma_layout_order(s);
    let p = parts_of(s);
    assert(p.before_host() =~= s.subrange(0, host_start(s)));
    assert(p.after_host() =~= s.subrange(host_end(s), s.len() as int));
    assert(p.reconstruct() =~= s);
}

/// The parts of a URL.
#[derive(Debug, PartialEq, Eq)]
pub struct UrlComponents {
    /// What stands before `://`.
    pub scheme: String,
    /// What stands between `://` and the last `@` of the authority.
    pub userinfo: Option<String>,
    /// The host, with its brackets where it has them.
    pub host: String,
    /// The digits after the colon that follows the host, as they were written.
    pub port: Option<String>,
    /// Path, query and fragment: what follows the authority.
    pub rest: String,
}

impl View for UrlComponents {
    type V = UrlParts;

    open spec fn view(&self) -> UrlParts {
        UrlParts {
            scheme: self.scheme@,
            userinfo: match self.userinfo {
                Some(u) => Some(u@),
                None => None,
            },
            host: self.host@,
            port: match self.port {
                Some(p) => Some(p@),
                None => None,
            },
            rest: self.rest@,
        }
    }
}

impl Clone for UrlComponents {
    fn clone(&self) -> (c: Self)
        ensures
            c@ == self@,
    {
        UrlComponents {
            scheme: self.scheme.clone(),
            userinfo: match &self.userinfo {
                Some(u) => Some(u.clone()),
                None => None,
            },
            host: self.host.clone(),
            port: match &self.port {
                Some(p) => Some(p.clone()),
                None => None,
            },
            rest: self.rest.clone(),
        }
    }
}

impl UrlComponents {
    /// Puts the parts together: the scheme, `://`, the userinfo with `@`, the
    /// host, the port with its colon, and the rest.
    pub fn reconstruct(&self) -> (url: String)
        ensures
            url@ == self@.reconstruct(),
    {
        proof {
            reveal_strlit("://");
            reveal_strlit("@");
            reveal_strlit(":");
        }
        let mut url: String = self.scheme.clone();
        url.append("://");
        assert(url@ =~= self.scheme@ + seq![':', '/', '/']);
        match &self.userinfo {
            Some(u) => {
                url.append(u.as_str());
                url.append("@");
                assert(url@ =~= self@.before_host());
            },
            None => {
                assert(url@ =~= self@.before_host());
            },
        }
        url.append(self.host.as_str());
        match &self.port {
            Some(p) => {
                url.append(":");
                url.append(p.as_str());
            },
            None => {},
        }
        url.append(self.rest.as_str());
        assert(url@ =~= self@.reconstruct());
        url
    }

    /// The number that the port names: `None` where the URL has no port, where
    /// its port is empty, and where its digits name no number up to 65535.
    pub fn port_number(&self) -> (n: Option<u16>)
        ensures
            n == match self@.port {
                Some(p) => match port_spec(p) {
                    Ok(n) => n,
                    Err(_) => None,
                },
                None => None,
            },
    {
        match &self.port {
            Some(p) => {
                let digits: Vec<char> = code_points(p.as_str());
                assert(digits@.subrange(0, digits@.len() as int) =~= digits@);
                match read_port(digits.as_slice(), 0, digits.len()) {
                    Ok(n) => n,
                    Err(_) => None,
                }
            },
            None => None,
        }
    }
}

/// Cuts a URL into its parts. A text without an authority (a relative
/// reference, or a scheme with no `//` after it) has no host, and gives `None`.
pub fn parse_url(url: &str) -> (r: Result<Option<UrlComponents>, UrlError>)
    ensures
        match r {
            Ok(Some(c)) => parse_url_spec(url@) == Ok::<Option<UrlParts>, UrlError>(Some(c@))
                && c@.reconstruct() == url@,
            Ok(None) => parse_url_spec(url@) == Ok::<Option<UrlParts>, UrlError>(None),
            Err(e) => parse_url_spec(url@) == Err::<Option<UrlParts>, UrlError>(e),
        },
{
    let text: Vec<char> = code_points(url);
    match locate(text.as_slice()) {
        Err(e) => Err(e),
        Ok(None) => Ok(None),
        Ok(Some(l)) => {
            proof {
                lemma_layout_order(url@);
                lemma_parts_cover(url@);
            }
            let n: usize = text.len();
            let begin: usize = l.scheme_end + 3;
            let userinfo: Option<String> = if begin < l.host_start {
                Some(url.substring_char(begin, l.host_start - 1).to_owned())
            } else {
                None
            };
            let port: Option<String> = if l.host_end < l.authority_end {
                Some(url.substring_char(l.host_end + 1, l.authority_end).to_owned())
            } else {
                None
            };
            let c = UrlComponents {
                scheme: url.substring_char(0, l.scheme_end).to_owned(),
                userinfo,
                host: url.substring_char(l.host_start, l.host_end).to_owned(),
                port,
                rest: url.substring_char(l.authority_end, n).to_owned(),
            };
            assert(c@ == parts_of(url@));
            Ok(Some(c))
        },
    }
}

} // verus!
