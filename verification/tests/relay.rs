use companion_core::relay::{
    access_token, credential, idle_reply, parse_play_body, play_body_outcome, play_url,
    search_url, token_or_error,
};

fn json(text: &str) -> serde_json::Value {
    serde_json::from_str(text).unwrap()
}

#[test]
fn search_url_of_plain_query() {
    assert_eq!(
        search_url("daftpunk"),
        "https://api.spotify.com/v1/search?q=daftpunk&type=track,playlist&limit=10"
    );
}

#[test]
fn search_url_escapes_spaces_and_marks() {
    assert_eq!(
        search_url("hello world"),
        "https://api.spotify.com/v1/search?q=hello%20world&type=track,playlist&limit=10"
    );
    assert_eq!(
        search_url("a/b?c=d&e+f%"),
        "https://api.spotify.com/v1/search?q=a%2Fb%3Fc%3Dd%26e%2Bf%25&type=track,playlist&limit=10"
    );
}

#[test]
fn search_url_keeps_unreserved_characters() {
    assert_eq!(
        search_url("AZaz09-._~"),
        "https://api.spotify.com/v1/search?q=AZaz09-._~&type=track,playlist&limit=10"
    );
}

#[test]
fn search_url_escapes_each_utf8_byte() {
    assert_eq!(
        search_url("ü€"),
        "https://api.spotify.com/v1/search?q=%C3%BC%E2%82%AC&type=track,playlist&limit=10"
    );
}

#[test]
fn search_url_of_empty_query() {
    assert_eq!(
        search_url(""),
        "https://api.spotify.com/v1/search?q=&type=track,playlist&limit=10"
    );
}

#[test]
fn play_url_takes_the_device_as_it_is() {
    assert_eq!(play_url("abc123"), "https://api.spotify.com/v1/me/player/play?device_id=abc123");
    assert_eq!(play_url("a b&c"), "https://api.spotify.com/v1/me/player/play?device_id=a b&c");
    assert_eq!(play_url(""), "https://api.spotify.com/v1/me/player/play?device_id=");
}

#[test]
fn valid_body_is_parsed() {
    let body = "{\"uris\": [\"spotify:track:1\"], \"position_ms\": 0}";
    assert_eq!(parse_play_body(body), Ok(json(body)));
    assert_eq!(parse_play_body("null"), Ok(serde_json::Value::Null));
    assert_eq!(parse_play_body(" [1, 2] "), Ok(json("[1,2]")));
}

#[test]
fn invalid_body_is_refused_with_the_parser_message() {
    for body in ["", "{", "{\"a\": }", "not json", "{} trailing"] {
        let reason = serde_json::from_str::<serde_json::Value>(body).unwrap_err();
        assert_eq!(parse_play_body(body), Err(format!("Invalid JSON body: {}", reason)));
    }
    let message = parse_play_body("{").unwrap_err();
    assert!(message.starts_with("Invalid JSON body: "));
    assert!(message.len() > "Invalid JSON body: ".len());
}

#[test]
fn body_outcome_prefixes_the_detail() {
    assert_eq!(
        play_body_outcome(Err("expected value".to_string())),
        Err("Invalid JSON body: expected value".to_string())
    );
    assert_eq!(play_body_outcome(Err(String::new())), Err("Invalid JSON body: ".to_string()));
    assert_eq!(play_body_outcome(Ok(json("{\"a\":1}"))), Ok(json("{\"a\":1}")));
}

#[test]
fn no_content_means_nothing_is_playing() {
    assert_eq!(idle_reply(204), Some("null".to_string()));
    assert_eq!(idle_reply(200), None);
    assert_eq!(idle_reply(0), None);
    assert_eq!(idle_reply(203), None);
    assert_eq!(idle_reply(205), None);
    assert_eq!(idle_reply(u16::MAX), None);
}

#[test]
fn token_is_taken_from_the_reply() {
    let reply = json("{\"access_token\": \"BQDx\", \"token_type\": \"Bearer\", \"expires_in\": 3600}");
    assert_eq!(access_token(&reply), Ok("BQDx".to_string()));
    assert_eq!(access_token(&json("{\"access_token\": \"\"}")), Ok(String::new()));
}

#[test]
fn reply_without_token_is_an_error() {
    for reply in [
        "{}",
        "{\"error\": \"invalid_grant\"}",
        "{\"access_token\": 5}",
        "{\"access_token\": null}",
        "{\"access_token\": [\"a\"]}",
        "[]",
        "\"access_token\"",
        "null",
    ] {
        assert_eq!(access_token(&json(reply)), Err("No access token".to_string()));
    }
}

#[test]
fn token_or_error_maps_both_cases() {
    assert_eq!(token_or_error(Some("t".to_string())), Ok("t".to_string()));
    assert_eq!(token_or_error(None), Err("No access token".to_string()));
}

#[test]
fn missing_credential_names_the_variable() {
    assert_eq!(
        credential("SPOTIFY_CLIENT_ID", None),
        Err("Missing SPOTIFY_CLIENT_ID".to_string())
    );
    assert_eq!(
        credential("SPOTIFY_REFRESH_TOKEN", None),
        Err("Missing SPOTIFY_REFRESH_TOKEN".to_string())
    );
    assert_eq!(credential("SPOTIFY_CLIENT_SECRET", Some("s3".to_string())), Ok("s3".to_string()));
    assert_eq!(credential("X", Some(String::new())), Ok(String::new()));
}

#[test]
fn token_key_is_matched_exactly() {
    assert_eq!(
        access_token(&json("{\"Access_Token\": \"x\", \"access_token \": \"y\"}")),
        Err("No access token".to_string())
    );
    assert_eq!(
        access_token(&json("{\"data\": {\"access_token\": \"inner\"}}")),
        Err("No access token".to_string())
    );
    assert_eq!(
        access_token(&json("{\"access_token\": {\"value\": \"x\"}}")),
        Err("No access token".to_string())
    );
    assert_eq!(
        access_token(&json("{\"other\": \"o\", \"access_token\": \"tök en\"}")),
        Ok("tök en".to_string())
    );
}
