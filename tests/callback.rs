use overachiever::auth::parse_callback_request;

#[test]
fn callback_with_token_and_id() {
    let r = parse_callback_request("GET /callback?token=abc&steam_id=765 HTTP/1.1").unwrap();
    assert_eq!(r.token, "abc");
    assert_eq!(r.steam_id, "765");
}

#[test]
fn callback_reports_login_error() {
    let r = parse_callback_request("GET /callback?error=access_denied HTTP/1.1");
    assert_eq!(r.unwrap_err(), "Steam login failed: access_denied");
}

#[test]
fn callback_error_takes_the_first_error_parameter() {
    let r = parse_callback_request("GET /cb?x=1&error=e1&error=e2 HTTP/1.1");
    assert_eq!(r.unwrap_err(), "Steam login failed: e1");
}

#[test]
fn callback_error_without_error_parameter_is_unknown() {
    let r = parse_callback_request("GET /cb?myerror=3&token=a&steam_id=1 HTTP/1.1");
    assert_eq!(r.unwrap_err(), "Steam login failed: unknown");
}

#[test]
fn callback_without_query() {
    assert_eq!(parse_callback_request("GET /callback HTTP/1.1").unwrap_err(), "Missing query params");
}

#[test]
fn callback_without_path() {
    assert_eq!(parse_callback_request("GET").unwrap_err(), "Invalid request");
    assert_eq!(parse_callback_request("   ").unwrap_err(), "Invalid request");
}

#[test]
fn callback_missing_id() {
    assert_eq!(
        parse_callback_request("GET /callback?token=abc HTTP/1.1").unwrap_err(),
        "Missing token or steam_id in callback"
    );
}

#[test]
fn callback_later_parameters_win() {
    let r = parse_callback_request("GET /cb?token=a&token=b&steam_id=1 HTTP/1.1").unwrap();
    assert_eq!(r.token, "b");
    assert_eq!(r.steam_id, "1");
}

#[test]
fn callback_query_ends_at_second_question_mark() {
    let r = parse_callback_request("GET /cb?token=a&steam_id=1?token=z HTTP/1.1").unwrap();
    assert_eq!(r.token, "a");
    assert_eq!(r.steam_id, "1");
}

#[test]
fn callback_words_split_on_any_white_space() {
    let r = parse_callback_request("GET\t/cb?token=t&steam_id=9\u{3000}HTTP/1.1").unwrap();
    assert_eq!(r.token, "t");
    assert_eq!(r.steam_id, "9");
}
