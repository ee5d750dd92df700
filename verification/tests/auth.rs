use giveaway::auth::{authorization_code, parse_credentials};
use regex::Regex;

fn by_pattern(request: &str) -> String {
    let re = Regex::new(r".*code=(.*)&.*").unwrap();
    let line = &request.split("\n").map(String::from).collect::<Vec<String>>()[0];
    let target = &line.split(" ").map(String::from).collect::<Vec<String>>()[1];
    if re.is_match(target) {
        re.captures(target).unwrap().get(1).unwrap().as_str().to_string()
    } else {
        target.clone()
    }
}

#[test]
fn code_stands_between_key_and_ampersand() {
    let request = "GET /?code=abc123&scope=channel%3Aread%3Asubscriptions HTTP/1.1\r\nHost: localhost\r\n\r\n";
    assert_eq!(authorization_code(request), Some("abc123".to_string()));
}

#[test]
fn code_runs_to_the_last_ampersand() {
    assert_eq!(authorization_code("GET /?code=abc&x=1&y=2 HTTP/1.1"), Some("abc&x=1".to_string()));
}

#[test]
fn last_key_before_the_last_ampersand_counts() {
    assert_eq!(authorization_code("GET /?code=a&code=b&z HTTP/1.1"), Some("b".to_string()));
    assert_eq!(authorization_code("GET /?code=a&code=b HTTP/1.1"), Some("a".to_string()));
}

#[test]
fn target_without_key_and_ampersand_is_the_code() {
    assert_eq!(authorization_code("GET /favicon.ico HTTP/1.1"), Some("/favicon.ico".to_string()));
    assert_eq!(authorization_code("GET /?code=abc HTTP/1.1"), Some("/?code=abc".to_string()));
    assert_eq!(authorization_code("GET /?a=1&b=2 HTTP/1.1"), Some("/?a=1&b=2".to_string()));
    assert_eq!(authorization_code("GET /?a&code=abc HTTP/1.1"), Some("/?a&code=abc".to_string()));
}

#[test]
fn empty_code() {
    assert_eq!(authorization_code("GET /?code=& HTTP/1.1"), Some("".to_string()));
}

#[test]
fn only_the_first_line_counts() {
    assert_eq!(authorization_code("GET /x HTTP/1.1\nGET /?code=abc& HTTP/1.1"), Some("/x".to_string()));
    assert_eq!(authorization_code("GET /?code=abc&\nrest of it"), Some("abc".to_string()));
}

#[test]
fn request_without_target_has_no_code() {
    assert_eq!(authorization_code(""), None);
    assert_eq!(authorization_code("GET"), None);
    assert_eq!(authorization_code("GET\n/?code=abc& HTTP/1.1"), None);
}

#[test]
fn double_space_gives_the_empty_target() {
    assert_eq!(authorization_code("GET  /?code=abc& HTTP/1.1"), Some("".to_string()));
}

#[test]
fn authorization_code_agrees_with_the_pattern() {
    let targets = [
        "/", "/?code=abc&scope=x", "/?code=abc", "/?code=&", "/?code=a&b&c", "/?code=a&code=b&c",
        "/?code=a&code=b", "/?xcode=a&", "/?code&", "/?cod=a&", "&code=a", "&code=", "code=&code=&code=",
        "/?code=code=&", "/?code=%C3%A9&state=\u{e9}", "/?state=\u{e9}&code=\u{fc}ber&x", "code=", "c", "",
        "&", "&&", "code=&x&", "/?code=a\r&b", "=code=&&=",
    ];
    for target in targets.iter() {
        for tail in [" HTTP/1.1\r\nHost: localhost\r\n\r\n", "", "\n", " x y\nz"] {
            let request = format!("GET {}{}", target, tail);
            assert_eq!(authorization_code(&request), Some(by_pattern(&request)), "request {:?}", request);
        }
    }
}

#[test]
fn credentials_are_split_at_the_colon() {
    let c = parse_credentials("my-id:my-secret").unwrap();
    assert_eq!(c.client_id, "my-id");
    assert_eq!(c.client_secret, "my-secret");
}

#[test]
fn credentials_keep_what_is_around_them() {
    let c = parse_credentials(" id :secret\n").unwrap();
    assert_eq!(c.client_id, " id ");
    assert_eq!(c.client_secret, "secret\n");
}

#[test]
fn credentials_stop_at_the_second_colon() {
    let c = parse_credentials("id:secret:more:still").unwrap();
    assert_eq!(c.client_id, "id");
    assert_eq!(c.client_secret, "secret");
    let c = parse_credentials("::").unwrap();
    assert_eq!(c.client_id, "");
    assert_eq!(c.client_secret, "");
}

#[test]
fn credentials_need_a_colon() {
    assert!(parse_credentials("").is_none());
    assert!(parse_credentials("id-and-secret").is_none());
}
