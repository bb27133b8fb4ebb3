use moa_submitter::encoding::urlencode;
use moa_submitter::failure::EXIT_USAGE;
use moa_submitter::server::{
    authorization, health_url, log_url, login_poll_url, login_start_url, resolve_server,
    submission_url, submissions_url, DEFAULT_SERVER,
};

fn server(address: &str) -> String {
    resolve_server(Some(address), None).unwrap()
}

#[test]
fn flag_comes_before_environment_comes_before_default() {
    assert_eq!(resolve_server(Some("http://a"), Some("http://b")).unwrap(), "http://a");
    assert_eq!(resolve_server(None, Some("http://b")).unwrap(), "http://b");
    assert_eq!(resolve_server(None, None).unwrap(), DEFAULT_SERVER);
    assert_eq!(DEFAULT_SERVER, "https://micro2026-api.duckdns.org:7777");
}

#[test]
fn slashes_and_paths_are_taken_off() {
    assert_eq!(server("https://host:7777/"), "https://host:7777");
    assert_eq!(server("https://host:7777///"), "https://host:7777");
    assert_eq!(server("  https://host:7777/ \n"), "https://host:7777");
    assert_eq!(server("https://host:7777/some/path/"), "https://host:7777");
    assert_eq!(server("http://host?x=1"), "http://host");
    assert_eq!(server("http://host#top"), "http://host");
    assert_eq!(server("http://host"), "http://host");
}

#[test]
fn slashes_before_the_host_count_for_nothing() {
    assert_eq!(server("https:///x"), "https:///x");
    assert_eq!(server("https:///x/"), "https:///x");
    assert_eq!(server("http:////host:1/path?q"), "http:////host:1");
}

#[test]
fn an_address_without_a_host_is_kept() {
    for address in ["https://?x", "http://#x", "https:///?x/y"] {
        assert_eq!(server(address), address);
    }
    assert!(resolve_server(Some("https:///"), None).is_err());
}

#[test]
fn one_more_slash_makes_no_difference() {
    for address in ["http://host", " http://host", "https://host:1/", "http://host/path", "\n"] {
        let slashed = format!("{address}/");
        assert_eq!(
            resolve_server(Some(&slashed), None).ok(),
            resolve_server(Some(address), None).ok()
        );
    }
    assert_eq!(server("http://host "), "http://host");
    assert_eq!(server("http://host /"), "http://host ");
}

#[test]
fn no_submission_has_the_address_of_a_log() {
    assert_eq!(submission_url("s", "a/log"), "s/api/submissions/a%2Flog");
    assert_ne!(submission_url("s", "a/log"), log_url("s", "a"));
    assert_ne!(log_url("s", "a"), log_url("s", "b"));
}

#[test]
fn other_addresses_are_refused_as_they_were_given() {
    for raw in ["", "host:7777", "ftp://host", "https:/host", "http://", " HTTP://host ", "https"] {
        let failure = resolve_server(Some(raw), None).unwrap_err();
        assert_eq!(failure.message, format!("Server must be an http(s) URL: {raw}"));
        assert_eq!(failure.code, EXIT_USAGE);
    }
}

#[test]
fn an_empty_flag_is_still_the_flag() {
    assert!(resolve_server(Some(""), Some("http://b")).is_err());
}

#[test]
fn addresses_on_the_server() {
    let s = "https://h:1";
    assert_eq!(login_start_url(s), "https://h:1/api/cli-auth/start");
    assert_eq!(login_poll_url(s, "a b"), "https://h:1/api/cli-auth/poll?device_code=a%20b");
    assert_eq!(health_url(s), "https://h:1/api/health");
    assert_eq!(submissions_url(s), "https://h:1/api/submissions");
    assert_eq!(submission_url(s, "x/y"), "https://h:1/api/submissions/x%2Fy");
    assert_eq!(log_url(s, "x/y"), "https://h:1/api/submissions/x%2Fy/log");
    assert_eq!(authorization("t"), "Bearer t");
}

#[test]
fn unreserved_characters_stand_for_themselves() {
    let plain = "ABCXYZabcxyz0189-_.~";
    assert_eq!(urlencode(plain), plain);
    assert_eq!(urlencode(""), "");
}

#[test]
fn other_bytes_are_written_in_hexadecimal() {
    assert_eq!(urlencode("a b/c?d#e%f"), "a%20b%2Fc%3Fd%23e%25f");
    assert_eq!(urlencode("å"), "%C3%A5");
    assert_eq!(urlencode("한"), "%ED%95%9C");
    assert_eq!(urlencode("\u{0}\u{7f}\n"), "%00%7F%0A");
    for u in 0..=0x2fffu32 {
        if let Some(c) = char::from_u32(u) {
            let mut expected = String::new();
            for byte in c.to_string().bytes() {
                if byte.is_ascii_alphanumeric() || b"-_.~".contains(&byte) {
                    expected.push(byte as char);
                } else {
                    expected.push_str(&format!("%{byte:02X}"));
                }
            }
            assert_eq!(urlencode(&c.to_string()), expected);
        }
    }
}

#[test]
fn different_ids_have_different_addresses() {
    assert_ne!(submission_url("s", "a/b"), submission_url("s", "a%2Fb"));
    assert_ne!(submission_url("s", "a b"), submission_url("s", "a+b"));
}
