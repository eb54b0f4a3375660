//! The JSON codec on concrete response bodies, and the token scraper on
//! concrete headers and HTML.

use atri::codec::{decode_login_response, login_request_body, LoginResp};
use atri::scrape::{cookie_client_id, extract_csrf_token, find_client_id, get_tokens};
use atri::text::i32_to_string;

#[test]
fn decodes_the_success_shape() {
    let body = r#"{"username":"alice","syncToken":"st1","locked":false,"redirectTo":"/"}"#;
    match decode_login_response(body) {
        Some(LoginResp::Success(o)) => {
            assert_eq!(o.username, "alice");
            assert_eq!(o.sync_token, "st1");
            assert!(!o.locked);
            assert_eq!(o.redirect_to, "/");
        }
        _ => panic!("expected the success shape"),
    }
}

#[test]
fn decodes_the_failure_shape() {
    let body = r#"{"status":403,"data":"","errorMessage":"wrong captcha","trace":"t","customData":["a","b"]}"#;
    match decode_login_response(body) {
        Some(LoginResp::Failure(e)) => {
            assert_eq!(e.status, 403);
            assert_eq!(e.data, "");
            assert_eq!(e.error_message, "wrong captcha");
            assert_eq!(e.trace, "t");
            assert_eq!(e.custom_data, vec!["a".to_string(), "b".to_string()]);
        }
        _ => panic!("expected the failure shape"),
    }
}

#[test]
fn decoding_ignores_key_order_and_whitespace() {
    let body = " { \"locked\" : true , \"redirectTo\" : \"/x\" , \"username\" : \"bob\" , \"syncToken\" : \"s\" } ";
    match decode_login_response(body) {
        Some(LoginResp::Success(o)) => {
            assert_eq!(o.username, "bob");
            assert!(o.locked);
            assert_eq!(o.redirect_to, "/x");
        }
        _ => panic!("expected the success shape"),
    }
}

#[test]
fn decoding_handles_escapes_and_negative_status() {
    let body = r#"{"status":-7,"data":"a\"b","errorMessage":"line\nbreak\tand\\slash","trace":"","customData":[]}"#;
    match decode_login_response(body) {
        Some(LoginResp::Failure(e)) => {
            assert_eq!(e.status, -7);
            assert_eq!(e.data, "a\"b");
            assert_eq!(e.error_message, "line\nbreak\tand\\slash");
            assert!(e.custom_data.is_empty());
        }
        _ => panic!("expected the failure shape"),
    }
}

#[test]
fn decoding_rejects_what_is_neither_shape() {
    assert!(decode_login_response("").is_none());
    assert!(decode_login_response("not json").is_none());
    assert!(decode_login_response("{}").is_none());
    assert!(decode_login_response(r#"{"username":"a"}"#).is_none());
    assert!(decode_login_response(r#"{"username":"a","syncToken":1,"locked":true,"redirectTo":"/"}"#).is_none());
    assert!(decode_login_response(r#"{"status":"401","data":"","errorMessage":"","trace":"","customData":[]}"#).is_none());
    assert!(decode_login_response(r#"{"username":"a","syncToken":"s","locked":false,"redirectTo":"/"} trailing"#).is_none());
}

#[test]
fn decoding_rejects_out_of_range_status() {
    let body = r#"{"status":3000000000,"data":"","errorMessage":"","trace":"","customData":[]}"#;
    assert!(decode_login_response(body).is_none());
}

#[test]
fn request_body_is_the_documented_envelope() {
    let body = login_request_body("alice", "p\"w", "ABCD");
    assert_eq!(body, "{\"username\":\"alice\",\"password\":\"p\\\"w\",\"captcha\":\"ABCD\"}");
}

#[test]
fn request_body_round_trips_through_a_flat_parse() {
    let body = login_request_body("a\\b", "new\nline", "x");
    assert!(body.contains("\\\\"));
    assert!(body.contains("\\n"));
}

#[test]
fn cookie_value_is_taken_between_equals_and_semicolon() {
    assert_eq!(
        cookie_client_id("__client_id=abc123; path=/; HttpOnly"),
        Some("abc123".to_string())
    );
    assert_eq!(cookie_client_id("__client_id=abc123"), Some("abc123".to_string()));
    assert_eq!(cookie_client_id("session=zzz; path=/"), None);
    assert_eq!(cookie_client_id("x__client_id=abc"), None);
    assert_eq!(cookie_client_id(""), None);
}

#[test]
fn first_matching_header_wins() {
    let headers = vec![
        "session=zzz; path=/".to_string(),
        "__client_id=first; path=/".to_string(),
        "__client_id=second; path=/".to_string(),
    ];
    assert_eq!(find_client_id(&headers), Some("first".to_string()));
    assert_eq!(find_client_id(&Vec::new()), None);
}

#[test]
fn csrf_token_is_read_from_the_meta_tag() {
    let html = "<html><head><meta name=\"csrf-token\" content=\"tok-42\"></head></html>";
    assert_eq!(extract_csrf_token(html), Some("tok-42".to_string()));
    assert_eq!(extract_csrf_token("<html></html>"), None);
    assert_eq!(
        extract_csrf_token("<meta name=\"csrf-token\" content=\"unterminated"),
        None
    );
}

#[test]
fn tokens_come_from_one_response_or_fail_with_the_notice() {
    let headers = vec!["__client_id=cid9; path=/".to_string()];
    let html = "<meta name=\"csrf-token\" content=\"csrf9\">";
    assert_eq!(
        get_tokens(&headers, html),
        Ok(("cid9".to_string(), "csrf9".to_string()))
    );
    assert_eq!(
        get_tokens(&Vec::new(), html),
        Err("Could not fetch the client id!".to_string())
    );
    assert_eq!(
        get_tokens(&headers, "<html></html>"),
        Err("Could not fetch the client id!".to_string())
    );
}

#[test]
fn decimal_rendering_matches_expectations() {
    assert_eq!(i32_to_string(0), "0");
    assert_eq!(i32_to_string(401), "401");
    assert_eq!(i32_to_string(-123), "-123");
    assert_eq!(i32_to_string(i32::MIN), "-2147483648");
    assert_eq!(i32_to_string(i32::MAX), "2147483647");
}
