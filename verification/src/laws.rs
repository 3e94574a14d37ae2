//! What holds of every conversion.

use crate::convert::{convert_spec, replace_host_spec, safe_convert_spec};
use crate::host::host_outcome;
use crate::layout::{
    authority_end, authority_error, authority_start, bracketed, has_authority, host_end,
    host_start, lemma_layout_order, scheme_end,
};
use crate::error::UrlError;
use crate::port::{all_digits, is_digit, port_spec};
use crate::scan::{
    first_stop, lemma_first_stop, lemma_first_stop_unique, lemma_last_stop_unique, Stop,
};
use crate::url::{lemma_parts_cover, parse_url_spec, parts_of, UrlParts};
use vstd::prelude::*;
use vstd::utf8::is_ascii_chars;

verus! {

/// The host that stands in the converted URL: the host as it was where it
/// is ASCII, else its ASCII form.
pub open spec fn host_after(s: Seq<char>) -> Seq<char> {
    let host = parts_of(s).host;
    if is_ascii_chars(host) {
        host
    } else {
        match host_outcome(host) {
            Ok(ascii) => ascii,
            Err(_) => host,
        }
    }
}

/// Whether `c` is one of the code points that cut an authority into its
/// parts: `:`, `/`, `?`, `#`, `@`, `[` and `]`.
pub open spec fn is_delimiter(c: char) -> bool {
    c == ':' || c == '/' || c == '?' || c == '#' || c == '@' || c == '[' || c == ']'
}

/// A text that agrees with `s` up to the place where a scan of `s` halts
/// halts a scan at the same place.
proof fn lemma_first_stop_agrees(s: Seq<char>, t: Seq<char>, from: int, to_s: int, to_t: int, k: Stop)
    requires
        from <= first_stop(s, from, to_s, k) < to_s,
        first_stop(s, from, to_s, k) < to_t,
        forall|j: int| from <= j <= first_stop(s, from, to_s, k) ==> #[trigger] t[j] == s[j],
    ensures
        first_stop(t, from, to_t, k) == first_stop(s, from, to_s, k),
{
    let r = first_stop(s, from, to_s, k);
    lemma_first_stop(s, from, to_s, k);
    assert forall|j: int| from <= j < r implies !k.hits(#[trigger] t[j]) by {
        assert(t[j] == s[j]);
        assert(!k.hits(s[j]));
    }
    assert(t[r] == s[r]);
    lemma_first_stop_unique(t, from, to_t, k, r);
}

/// The host of a converted URL is ASCII, where the converted URL has a
/// host at all.
proof fn lemma_converted_host_is_ascii(s: Seq<char>, ascii: Seq<char>)
    requires
        has_authority(s),
        authority_error(s) is None,
        is_ascii_chars(ascii),
        has_authority(parts_of(s).with_host(ascii).reconstruct()),
    ensures
        is_ascii_chars(parts_of(parts_of(s).with_host(ascii).reconstruct()).host),
{
    let p = parts_of(s);
    let v = p.with_host(ascii).reconstruct();
    lemma_parts_cover(s);
    lemma_layout_order(s);
    let h0 = host_start(s);
    let h1 = host_end(s);
    let a0 = authority_start(s);
    let a1 = authority_end(s);
    let m = ascii.len() as int;
    let e = h0 + m + (a1 - h1);
    assert(p.with_host(ascii).before_host() == p.before_host());
    assert(p.with_host(ascii).after_host() == p.after_host());
    assert(v =~= s.subrange(0, h0) + ascii + s.subrange(h1, s.len() as int));
    assert(v.len() == h0 + m + (s.len() - h1));
    assert forall|j: int| 0 <= j < h0 implies #[trigger] v[j] == s[j] by {}
    assert forall|j: int| h0 <= j < h0 + m implies #[trigger] v[j] == ascii[j - h0] by {}
    assert forall|j: int| h0 + m <= j < v.len() implies #[trigger] v[j] == s[j - h0 - m + h1] by {}
    // The scheme of the result is the scheme of the URL.
    lemma_first_stop(s, 0, s.len() as int, Stop::SchemeEnd);
    lemma_first_stop_agrees(s, v, 0, s.len() as int, v.len() as int, Stop::SchemeEnd);
    assert(scheme_end(v) == scheme_end(s));
    assert(authority_start(v) == a0);
    lemma_layout_order(v);
    let b0 = host_start(v);
    let b1 = authority_end(v);
    // The authority of the result ends no later than the port of the URL does.
    assert(b1 <= e) by {
        if e < v.len() {
            assert(v[e] == s[a1]);
            assert(Stop::AuthorityEnd.hits(v[e]));
        }
    }
    // It ends no earlier than the host begins.
    assert(h0 <= b1) by {
        if b1 < h0 {
            assert(v[b1] == s[b1]);
            assert(!Stop::AuthorityEnd.hits(s[b1]));
        }
    }
    // The host of the result begins no earlier than the host of the URL.
    assert(h0 <= b0) by {
        if a0 < h0 && b0 < h0 {
            assert(v[h0 - 1] == s[h0 - 1]);
            assert(v[h0 - 1] != '@');
        }
    }
    // The port of the URL is a colon and digits.
    assert forall|j: int| h1 <= j < a1 implies '\0' <= #[trigger] s[j] <= '\u{7f}' by {
        lemma_first_stop(s, h0, a1, Stop::Colon);
        lemma_first_stop(s, h0, a1, Stop::BracketClose);
        assert(s[h1] == ':');
        let digits = s.subrange(h1 + 1, a1);
        assert(port_spec(digits) is Ok);
        assert(all_digits(digits));
        if h1 < j {
            assert(is_digit(digits[j - h1 - 1]));
        }
    }
    let host = parts_of(v).host;
    assert forall|i: int| 0 <= i < host.len() implies '\0' <= #[trigger] host[i] <= '\u{7f}' by {
        let j = b0 + i;
        assert(host[i] == v[j]);
        if j < h0 + m {
            assert(v[j] == ascii[j - h0]);
        } else {
            assert(v[j] == s[j - h0 - m + h1]);
        }
    }
}

/// A URL of ASCII code points alone, whose authority is well formed, is
/// converted to itself.
pub proof fn law_ascii_is_kept(s: Seq<char>)
    requires
        is_ascii_chars(s),
        parse_url_spec(s) is Ok,
    ensures
        convert_spec(s) == Ok::<Seq<char>, Seq<char>>(s),
{
    if has_authority(s) {
        lemma_layout_order(s);
        let host = parts_of(s).host;
        assert forall|i: int| 0 <= i < host.len() implies '\0' <= #[trigger] host[i] <= '\u{7f}' by {
            assert(host[i] == s[host_start(s) + i]);
        }
    }
}

/// A text without an authority (a path alone, a scheme with no `//` after
/// it, a reference that begins with `//`) has no host and is converted to
/// itself.
pub proof fn law_no_host_is_kept(s: Seq<char>)
    requires
        !has_authority(s),
    ensures
        convert_spec(s) == Ok::<Seq<char>, Seq<char>>(s),
{
}

/// A URL whose host is an IP literal, one in brackets, is converted to
/// itself where its authority is well formed: what follows the `]` is its
/// port and no part of its host.
pub proof fn law_ip_literal_is_kept(s: Seq<char>)
    requires
        has_authority(s),
        bracketed(s),
        authority_error(s) is None,
    ensures
        convert_spec(s) == Ok::<Seq<char>, Seq<char>>(s),
        parts_of(s).host.first() == '[',
        parts_of(s).host.last() == ']',
{
    lemma_layout_order(s);
    lemma_first_stop(s, host_start(s), authority_end(s), Stop::BracketClose);
}

/// A conversion changes the host and nothing else: what stands before the
/// host and what stands after it in the URL stand around the new host in the
/// result, code point for code point.
pub proof fn law_only_host_changes(s: Seq<char>)
    requires
        convert_spec(s) is Ok,
    ensures
        !has_authority(s) ==> convert_spec(s)->Ok_0 == s,
        has_authority(s) ==> s == s.subrange(0, host_start(s)) + parts_of(s).host + s.subrange(
            host_end(s),
            s.len() as int,
        ),
        has_authority(s) ==> convert_spec(s)->Ok_0 == s.subrange(0, host_start(s)) + host_after(s)
            + s.subrange(host_end(s), s.len() as int),
        has_authority(s) ==> convert_spec(s)->Ok_0 == parts_of(s).with_host(host_after(s)).reconstruct(),
{
    if has_authority(s) {
        lemma_parts_cover(s);
        let p = parts_of(s);
        assert(p.with_host(host_after(s)).before_host() == p.before_host());
        assert(p.with_host(host_after(s)).after_host() == p.after_host());
        assert(p.with_host(p.host) == p);
    }
}

/// Where the conversion fails, the safe conversion gives the URL as it
/// was; where it succeeds, both give the same.
pub proof fn law_safe_falls_back(s: Seq<char>)
    ensures
        convert_spec(s) is Err ==> safe_convert_spec(s) == s,
        convert_spec(s) is Ok ==> safe_convert_spec(s) == convert_spec(s)->Ok_0,
{
}

/// The outcome of a conversion depends on the code points of the URL and
/// on nothing else: equal URLs have equal outcomes, call after call.
pub proof fn law_equal_urls_convert_alike(a: Seq<char>, b: Seq<char>)
    requires
        a =~= b,
    ensures
        convert_spec(a) == convert_spec(b),
        safe_convert_spec(a) == safe_convert_spec(b),
{
}

/// A URL keeps its scheme, userinfo, port and rest when its host is
/// replaced by one that holds no delimiter: the new URL parses into the
/// parts of the old one around the new host.
pub proof fn law_parts_outlive_host(s: Seq<char>, host: Seq<char>)
    requires
        has_authority(s),
        authority_error(s) is None,
        forall|i: int| 0 <= i < host.len() ==> !is_delimiter(#[trigger] host[i]),
    ensures
        parse_url_spec(parts_of(s).with_host(host).reconstruct()) == Ok::<Option<UrlParts>, UrlError>(
            Some(parts_of(s).with_host(host)),
        ),
{
    let p = parts_of(s);
    let v = p.with_host(host).reconstruct();
    lemma_parts_cover(s);
    lemma_layout_order(s);
    let h0 = host_start(s);
    let h1 = host_end(s);
    let a0 = authority_start(s);
    let a1 = authority_end(s);
    let m = host.len() as int;
    let e = h0 + m + (a1 - h1);
    assert(p.with_host(host).before_host() == p.before_host());
    assert(p.with_host(host).after_host() == p.after_host());
    assert(v =~= s.subrange(0, h0) + host + s.subrange(h1, s.len() as int));
    assert(v.len() == h0 + m + (s.len() - h1));
    assert forall|j: int| 0 <= j < h0 implies #[trigger] v[j] == s[j] by {}
    assert forall|j: int| h0 <= j < h0 + m implies #[trigger] v[j] == host[j - h0] by {}
    assert forall|j: int| h0 + m <= j < v.len() implies #[trigger] v[j] == s[j - h0 - m + h1] by {}
    lemma_first_stop(s, h0, a1, Stop::Colon);
    lemma_first_stop(s, h0, a1, Stop::BracketClose);
    // What follows the host in the authority of `s` is a colon and digits.
    assert forall|j: int| h1 < j < a1 implies is_digit(#[trigger] s[j]) by {
        let digits = s.subrange(h1 + 1, a1);
        assert(port_spec(digits) is Ok);
        assert(all_digits(digits));
        assert(is_digit(digits[j - h1 - 1]));
    }
    assert(h1 < a1 ==> s[h1] == ':');
    // The scheme.
    lemma_first_stop(s, 0, s.len() as int, Stop::SchemeEnd);
    lemma_first_stop_agrees(s, v, 0, s.len() as int, v.len() as int, Stop::SchemeEnd);
    assert(has_authority(v));
    // The end of the authority.
    assert forall|j: int| a0 <= j < e implies !Stop::AuthorityEnd.hits(#[trigger] v[j]) by {
        if j < h0 {
            assert(v[j] == s[j]);
        } else if j < h0 + m {
            assert(!is_delimiter(host[j - h0]));
        } else {
            assert(v[j] == s[j - h0 - m + h1]);
        }
    }
    if e < v.len() {
        assert(v[e] == s[a1]);
    }
    lemma_first_stop_unique(v, a0, v.len() as int, Stop::AuthorityEnd, e);
    assert(authority_end(v) == e);
    // The start of the host.
    assert forall|j: int| h0 - 1 < j < e implies !Stop::At.hits(#[trigger] v[j]) by {
        if j < h0 + m {
            assert(!is_delimiter(host[j - h0]));
        } else {
            assert(v[j] == s[j - h0 - m + h1]);
        }
    }
    if a0 < h0 {
        assert(v[h0 - 1] == s[h0 - 1]);
    }
    lemma_last_stop_unique(v, a0, e, Stop::At, h0 - 1);
    assert(host_start(v) == h0);
    // The end of the host.
    if h0 < e {
        if m > 0 {
            assert(!is_delimiter(host[0]));
        } else {
            assert(v[h0] == s[h1]);
        }
        assert(v[h0] != '[');
    }
    assert(!bracketed(v));
    assert forall|j: int| h0 <= j < h0 + m implies !Stop::Colon.hits(#[trigger] v[j]) by {
        assert(!is_delimiter(host[j - h0]));
    }
    if h0 + m < e {
        assert(v[h0 + m] == s[h1]);
    }
    lemma_first_stop_unique(v, h0, e, Stop::Colon, h0 + m);
    assert(host_end(v) == h0 + m);
    // The port.
    if h0 + m < e {
        assert(v.subrange(h0 + m + 1, e) =~= s.subrange(h1 + 1, a1));
    }
    assert(authority_error(v) is None);
    let q = parts_of(v);
    assert(q.scheme =~= p.scheme);
    assert(q.host =~= host);
    assert(q.rest =~= p.rest);
    if a0 < h0 {
        assert(q.userinfo->0 =~= p.userinfo->0);
    }
    if h1 < a1 {
        assert(q.port->0 =~= p.port->0);
    }
    assert(q == p.with_host(host));
}

/// A second conversion changes nothing: the result of a conversion is
/// converted to itself, and a URL whose conversion fails fails again in the
/// same way. This holds wherever the result of the first conversion has a
/// well-formed authority. The ASCII form of a host may hold a colon or a
/// bracket that makes it malformed; one without a delimiter never does, as
/// `law_parts_outlive_host` shows.
pub proof fn law_second_pass_is_identity(s: Seq<char>)
    requires
        convert_spec(s) is Ok ==> parse_url_spec(convert_spec(s)->Ok_0) is Ok,
    ensures
        convert_spec(safe_convert_spec(s)) == convert_spec(s),
{
    if convert_spec(s) is Ok && convert_spec(s)->Ok_0 != s {
        let v = convert_spec(s)->Ok_0;
        let p = parts_of(s);
        let ascii = host_outcome(p.host)->Ok_0;
        assert(replace_host_spec(p, host_outcome(p.host)) == Ok::<Seq<char>, Seq<char>>(v));
        assert(v == p.with_host(ascii).reconstruct());
        if has_authority(v) {
            lemma_converted_host_is_ascii(s, ascii);
        }
    }
}

} // verus!
