use idn_url::error::UrlError;
use idn_url::layout::{locate, Layout};
use idn_url::port::read_port;
use idn_url::url::{parse_url, UrlComponents};

fn components(
    scheme: &str,
    userinfo: Option<&str>,
    host: &str,
    port: Option<&str>,
    rest: &str,
) -> UrlComponents {
    UrlComponents {
        scheme: scheme.to_string(),
        userinfo: userinfo.map(|u| u.to_string()),
        host: host.to_string(),
        port: port.map(|p| p.to_string()),
        rest: rest.to_string(),
    }
}

fn chars(s: &str) -> Vec<char> {
    s.chars().collect()
}

#[test]
fn parse_cuts_a_full_url() {
    assert_eq!(
        parse_url("https://user:pw@例え.jp:8443/p?q=1#f"),
        Ok(Some(components("https", Some("user:pw"), "例え.jp", Some("8443"), "/p?q=1#f")))
    );
}

#[test]
fn parse_cuts_a_bare_host() {
    assert_eq!(parse_url("tcp://example.com"), Ok(Some(components("tcp", None, "example.com", None, ""))));
}

#[test]
fn parse_takes_the_port_of_an_ipv6_literal() {
    let parsed = parse_url("http://[2001:db8::1]:8080/x").unwrap().unwrap();
    assert_eq!(parsed, components("http", None, "[2001:db8::1]", Some("8080"), "/x"));
    assert_eq!(parsed.port_number(), Some(8080));
    assert_eq!(
        parse_url("http://[2001:db8::1]/x"),
        Ok(Some(components("http", None, "[2001:db8::1]", None, "/x")))
    );
}

#[test]
fn parse_ends_the_authority_at_query_or_fragment() {
    assert_eq!(parse_url("http://h?q=/:@"), Ok(Some(components("http", None, "h", None, "?q=/:@"))));
    assert_eq!(parse_url("http://h:1#f?/"), Ok(Some(components("http", None, "h", Some("1"), "#f?/"))));
}

#[test]
fn parse_takes_the_last_at_sign() {
    assert_eq!(parse_url("http://a@b@h/"), Ok(Some(components("http", Some("a@b"), "h", None, "/"))));
    assert_eq!(parse_url("http://@h/"), Ok(Some(components("http", Some(""), "h", None, "/"))));
    assert_eq!(parse_url("http://a:1@[::1]:2"), Ok(Some(components("http", Some("a:1"), "[::1]", Some("2"), ""))));
}

#[test]
fn parse_accepts_empty_parts() {
    assert_eq!(parse_url("http://"), Ok(Some(components("http", None, "", None, ""))));
    assert_eq!(parse_url("http://:"), Ok(Some(components("http", None, "", Some(""), ""))));
    assert_eq!(parse_url("x:///p"), Ok(Some(components("x", None, "", None, "/p"))));
}

#[test]
fn parse_finds_no_host_without_an_authority() {
    for text in ["", "/a/b", "a/b://c", "//h/p", "://h", "mailto:a@b", "http:/h", "http:", "h:80", "?x://y", "#x://y"] {
        assert_eq!(parse_url(text), Ok(None));
    }
}

#[test]
fn parse_reports_each_error() {
    assert_eq!(parse_url("http://[::1"), Err(UrlError::UnclosedBracket));
    assert_eq!(parse_url("http://[::1/]"), Err(UrlError::UnclosedBracket));
    assert_eq!(parse_url("http://[é]"), Err(UrlError::NonAsciiIpLiteral));
    assert_eq!(parse_url("http://[::1]a"), Err(UrlError::TextAfterBracket));
    assert_eq!(parse_url("http://[::1]]:80"), Err(UrlError::TextAfterBracket));
    assert_eq!(parse_url("http://h:8o"), Err(UrlError::PortNotDecimal));
    assert_eq!(parse_url("http://h:-1"), Err(UrlError::PortNotDecimal));
    assert_eq!(parse_url("http://h:１"), Err(UrlError::PortNotDecimal));
    assert_eq!(parse_url("http://::1"), Err(UrlError::PortNotDecimal));
    assert_eq!(parse_url("http://h:65536"), Err(UrlError::PortTooLarge));
    assert_eq!(parse_url("http://h:100000"), Err(UrlError::PortTooLarge));
}

#[test]
fn error_messages() {
    assert_eq!(UrlError::UnclosedBracket.message(), "invalid IP literal: missing closing bracket");
    assert_eq!(UrlError::NonAsciiIpLiteral.message(), "invalid IP literal: non-ASCII code point");
    assert_eq!(
        UrlError::TextAfterBracket.message(),
        "invalid IP literal: unexpected text after closing bracket"
    );
    assert_eq!(UrlError::PortNotDecimal.message(), "invalid port number");
    assert_eq!(UrlError::PortTooLarge.message(), "invalid port number: above 65535");
}

#[test]
fn reconstruct_gives_back_the_url() {
    for url in [
        "https://user:pw@例え.jp:8443/p?q=1#f",
        "http://[2001:db8::1]:8080/x",
        "http://h:0080",
        "http://h:",
        "http://@h",
        "x://",
        "a+b.c-d://h/p//q?r?s#t#u",
    ] {
        assert_eq!(parse_url(url).unwrap().unwrap().reconstruct(), url);
    }
}

#[test]
fn reconstruct_joins_the_parts() {
    assert_eq!(components("s", None, "h", None, "").reconstruct(), "s://h");
    assert_eq!(components("s", Some("u"), "h", Some("1"), "/r").reconstruct(), "s://u@h:1/r");
    assert_eq!(components("", Some(""), "", Some(""), "").reconstruct(), "://@:");
}

#[test]
fn port_number_reads_the_digits() {
    let number = |port: Option<&str>| components("s", None, "h", port, "").port_number();
    assert_eq!(number(None), None);
    assert_eq!(number(Some("")), None);
    assert_eq!(number(Some("0")), Some(0));
    assert_eq!(number(Some("80")), Some(80));
    assert_eq!(number(Some("0080")), Some(80));
    assert_eq!(number(Some("65535")), Some(65535));
    assert_eq!(number(Some("65536")), None);
    assert_eq!(number(Some("8x")), None);
}

#[test]
fn read_port_reads_a_range_of_the_text() {
    let text = chars("ab:8443/x");
    assert_eq!(read_port(&text, 3, 7), Ok(Some(8443)));
    assert_eq!(read_port(&text, 3, 3), Ok(None));
    assert_eq!(read_port(&text, 3, 8), Err(UrlError::PortNotDecimal));
    assert_eq!(read_port(&text, 2, 7), Err(UrlError::PortNotDecimal));
    assert_eq!(read_port(&chars("65535"), 0, 5), Ok(Some(65535)));
    assert_eq!(read_port(&chars("65536"), 0, 5), Err(UrlError::PortTooLarge));
    assert_eq!(read_port(&chars("000000000000000000000007"), 0, 24), Ok(Some(7)));
    assert_eq!(read_port(&chars("4294967296"), 0, 10), Err(UrlError::PortTooLarge));
    assert_eq!(read_port(&chars("99999999999999999999x"), 0, 21), Err(UrlError::PortNotDecimal));
}

#[test]
fn locate_counts_code_points() {
    assert_eq!(
        locate(&chars("https://ü:é@例え.jp:8443/p")),
        Ok(Some(Layout { scheme_end: 5, host_start: 12, host_end: 17, authority_end: 22 }))
    );
    assert_eq!(
        locate(&chars("a://[::]")),
        Ok(Some(Layout { scheme_end: 1, host_start: 4, host_end: 8, authority_end: 8 }))
    );
    assert_eq!(locate(&chars("a:/")), Ok(None));
    assert_eq!(locate(&chars("a://[")), Err(UrlError::UnclosedBracket));
}
