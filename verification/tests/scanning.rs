use idn_url::scan::{all_ascii, code_points, find_after_last, find_first, is_ascii_code_point, Stop};

fn chars(s: &str) -> Vec<char> {
    s.chars().collect()
}

#[test]
fn stop_classes() {
    for c in [':', '/', '?', '#'] {
        assert!(Stop::SchemeEnd.test(c));
    }
    for c in ['/', '?', '#'] {
        assert!(Stop::AuthorityEnd.test(c));
    }
    assert!(!Stop::AuthorityEnd.test(':'));
    assert!(Stop::Colon.test(':'));
    assert!(Stop::BracketClose.test(']'));
    assert!(Stop::At.test('@'));
    for k in [Stop::SchemeEnd, Stop::AuthorityEnd, Stop::Colon, Stop::BracketClose, Stop::At] {
        for c in ['a', '[', '\\', ' ', '：', '／', '\0'] {
            assert!(!k.test(c));
        }
    }
    assert!(!Stop::Colon.test('/'));
    assert!(!Stop::BracketClose.test('['));
    assert!(!Stop::At.test(':'));
}

#[test]
fn find_first_gives_the_first_hit_or_the_end() {
    let text = chars("ab:c/d:e");
    assert_eq!(find_first(&text, 0, 8, Stop::Colon), 2);
    assert_eq!(find_first(&text, 2, 8, Stop::Colon), 2);
    assert_eq!(find_first(&text, 3, 8, Stop::Colon), 6);
    assert_eq!(find_first(&text, 3, 6, Stop::Colon), 6);
    assert_eq!(find_first(&text, 7, 8, Stop::Colon), 8);
    assert_eq!(find_first(&text, 0, 8, Stop::AuthorityEnd), 4);
    assert_eq!(find_first(&text, 0, 8, Stop::BracketClose), 8);
    assert_eq!(find_first(&text, 5, 5, Stop::SchemeEnd), 5);
    assert_eq!(find_first(&[], 0, 0, Stop::SchemeEnd), 0);
}

#[test]
fn find_after_last_gives_the_place_after_the_last_hit() {
    let text = chars("a@b@c");
    assert_eq!(find_after_last(&text, 0, 5, Stop::At), 4);
    assert_eq!(find_after_last(&text, 0, 4, Stop::At), 4);
    assert_eq!(find_after_last(&text, 0, 3, Stop::At), 2);
    assert_eq!(find_after_last(&text, 2, 3, Stop::At), 2);
    assert_eq!(find_after_last(&text, 4, 5, Stop::At), 4);
    assert_eq!(find_after_last(&text, 0, 1, Stop::At), 0);
    assert_eq!(find_after_last(&text, 0, 5, Stop::Colon), 0);
}

#[test]
fn ascii_tests() {
    assert!(is_ascii_code_point('\0'));
    assert!(is_ascii_code_point('a'));
    assert!(is_ascii_code_point('\u{7f}'));
    assert!(!is_ascii_code_point('\u{80}'));
    assert!(!is_ascii_code_point('例'));
    let text = chars("abé[]");
    assert!(all_ascii(&text, 0, 2));
    assert!(!all_ascii(&text, 0, 3));
    assert!(all_ascii(&text, 3, 5));
    assert!(all_ascii(&text, 2, 2));
    assert!(!all_ascii(&text, 2, 3));
}

#[test]
fn code_points_are_the_chars() {
    assert_eq!(code_points(""), Vec::<char>::new());
    assert_eq!(code_points("a例\u{10348}"), vec!['a', '例', '\u{10348}']);
}
