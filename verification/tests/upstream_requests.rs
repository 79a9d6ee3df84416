use jambox_go_rs::domain::{Cookies, Device};
use jambox_go_rs::upstream::{self, ApiError, ApiRequest};

fn cookies() -> Cookies {
    Cookies {
        id: "id7".to_string(),
        seed: "seed-1".to_string(),
        devices: vec![Device { id: "dev".to_string() }, Device { id: "other".to_string() }],
    }
}

fn header<'a>(request: &'a ApiRequest, name: &str) -> &'a str {
    request.headers.iter().find(|h| h.0 == name).map(|h| h.1.as_str()).unwrap()
}

#[test]
fn token_and_hash_join_the_query() {
    assert_eq!(
        upstream::build_upstream_url_with_token("https://example.com/a.m3u8", "t", &cookies()),
        "https://example.com/a.m3u8?token=t&hash=id7"
    );
    assert_eq!(
        upstream::build_upstream_url_with_token("https://example.com/a?b=c#f", "t", &cookies()),
        "https://example.com/a?b=c&token=t&hash=id7#f"
    );
    assert_eq!(
        upstream::build_upstream_url_with_token("https://example.com/a?", "t", &cookies()),
        "https://example.com/a?token=t&hash=id7"
    );
}

#[test]
fn token_is_form_encoded() {
    assert_eq!(
        upstream::build_upstream_url_with_token("https://example.com/", "a b/\u{17c}~", &cookies()),
        "https://example.com/?token=a+b%2F%C5%BC%7E&hash=id7"
    );
    // every token is read back from the address
    for token in ["a b", "&hash=x#", "100%", "\u{1f600}+/?=", ""] {
        let signed =
            upstream::build_upstream_url_with_token("https://example.com/?a=1", token, &cookies());
        let url = reqwest::Url::parse(&signed).unwrap();
        let pairs: Vec<(String, String)> = url.query_pairs().into_owned().collect();
        assert_eq!(pairs[1], ("token".to_string(), token.to_string()));
        assert_eq!(pairs[2], ("hash".to_string(), "id7".to_string()));
    }
}

#[test]
fn addresses_of_common_length_can_be_signed() {
    for base in ["https://example.com/", "https://example.com/?a=b#c", "https://example.com/#c", "no url"] {
        assert!(upstream::can_sign_address(base, "a b", &cookies()));
    }
}

#[test]
fn text_that_is_no_url_stays() {
    assert_eq!(upstream::build_upstream_url_with_token("no url", "t", &cookies()), "no url");
}

#[test]
fn date_is_aligned_to_half_minutes() {
    assert_eq!(upstream::time30_at(0), "0");
    assert_eq!(upstream::time30_at(29), "0");
    assert_eq!(upstream::time30_at(30), "30");
    assert_eq!(upstream::time30_at(1_700_000_029), "1700000010");
    assert_eq!(upstream::time30_at(u64::MAX), "18446744073709551600");
    let now: u64 = upstream::time30().parse().unwrap();
    assert_eq!(now % 30, 0);
    assert!(now > 1_600_000_000);
}

#[test]
fn nonce_is_of_its_alphabet() {
    let nonce = upstream::random_string(21);
    assert_eq!(nonce.len(), 21);
    assert!(nonce.chars().all(|c| c.is_ascii_lowercase() || c.is_ascii_digit()));
    assert_eq!(upstream::random_string(0), "");
    assert_ne!(upstream::random_string(40), upstream::random_string(40));
    assert_eq!(upstream::nonce_of(&vec![0, 25, 26, 35]), "az09");
    assert_eq!(upstream::nonce_of(&Vec::new()), "");
}

#[test]
fn signature_is_base64_of_hex_of_hmac() {
    let auth =
        upstream::sign_with(&cookies(), "v1/ott/token", "abcdefghij0123456789a", "1700000010");
    assert_eq!(
        auth.unwrap(),
        "MjFkZjE1YjdiZjg1NzE4N2FlZmExYmZhNDkxYWQyMTBmNGJkNTJmMmMzZTMxODE3ZGNjYTJhZDdjODc2NjIyNA=="
    );
    assert_eq!(upstream::auth_text(&vec![0, 255]), "MDBmZg==");
    assert_eq!(upstream::auth_text(&Vec::new()), "");
}

#[test]
fn signing_draws_a_nonce() {
    let (nonce, auth) = upstream::sign(&cookies(), "v1/asset").unwrap();
    assert_eq!(nonce.len(), 21);
    assert_eq!(auth.len(), 88);
}

#[test]
fn request_states_who_asks() {
    let request = upstream::api_get_builder(&cookies(), "v1/asset", "nonce", "auth");
    assert_eq!(request.url, "https://api.sgtsa.pl/v1/asset");
    assert_eq!(header(&request, "host"), "api.sgtsa.pl");
    assert_eq!(header(&request, "accept"), "*/*");
    assert_eq!(header(&request, "X-Auth"), "auth");
    assert_eq!(header(&request, "X-Nonce"), "nonce");
    assert_eq!(header(&request, "X-Device-Id"), "id7");
    assert_eq!(header(&request, "X-Device-Type"), "other");
    assert_eq!(header(&request, "X-Impersonate"), "dev");
    assert_eq!(header(&request, "sec-ch-ua-platform"), "Windows");
    assert_eq!(request.headers.len(), 14);
    let nobody = upstream::api_get_builder(&Cookies::default(), "v1/asset", "nonce", "auth");
    assert_eq!(header(&nobody, "X-Impersonate"), "");
}

#[test]
fn requests_name_their_endpoints() {
    let url = |r: Result<ApiRequest, ApiError>| r.unwrap().url;
    assert_eq!(url(upstream::token_request(&cookies())), "https://api.sgtsa.pl/v1/ott/token");
    assert_eq!(url(upstream::assets_request(&cookies())), "https://api.sgtsa.pl/v1/asset");
    assert_eq!(url(upstream::qualities_request(&cookies())), "https://api.sgtsa.pl/v1/ott/quality");
    let dated = upstream::login_request_at(1_700_000_029);
    assert_eq!(dated.url, "https://api.sgtsa.pl/v1/auth/login");
    assert_eq!(header(&dated, "host"), "api.sgtsa.pl");
    assert_eq!(header(&dated, "X-Time"), "1700000010");
    let login = upstream::login_request();
    assert_eq!(login.url, "https://api.sgtsa.pl/v1/auth/login");
    assert_eq!(header(&login, "host"), "api.sgtsa.pl");
    assert_eq!(header(&login, "X-Time").parse::<u64>().unwrap() % 30, 0);
}

#[test]
fn token_request_needs_a_seed() {
    let refused = upstream::token_request(&Cookies::default());
    assert!(matches!(refused, Err(ApiError::MissingSeed)));
    assert_eq!(refused.unwrap_err().message(), "Missing cookie seed");
    // the other requests are signed with whatever seed there is
    assert!(upstream::assets_request(&Cookies::default()).is_ok());
}

#[test]
fn answers_are_accepted_by_status() {
    assert!(upstream::accept_answer("assets fetch", 200, "200 OK").is_ok());
    assert!(upstream::accept_answer("assets fetch", 299, "299").is_ok());
    assert!(!upstream::is_success(199));
    assert!(!upstream::is_success(300));
    let refused = upstream::accept_answer("assets fetch", 401, "401 Unauthorized").unwrap_err();
    assert_eq!(refused.message(), "assets fetch failed: 401 Unauthorized");
}

#[test]
fn token_is_kept_verbatim() {
    assert_eq!(upstream::accept_token(Some("a+b ".to_string())).unwrap(), "a+b ");
    let missing = upstream::accept_token(None).unwrap_err();
    assert_eq!(missing.message(), "Token response parse error");
    assert_eq!(ApiError::BadKey.message(), "Invalid Length");
}

#[test]
fn login_answer_is_laid_out() {
    assert_eq!(
        upstream::accept_login(200, "200 OK", "{\"id\":\"a\",\"devices\":[]}").unwrap(),
        "{\n  \"devices\": [],\n  \"id\": \"a\"\n}"
    );
    let refused = upstream::accept_login(403, "403 Forbidden", "{}").unwrap_err();
    assert_eq!(refused.message(), "login failed: 403 Forbidden");
    assert!(matches!(
        upstream::accept_login(200, "200 OK", "nothing"),
        Err(ApiError::NotJson(_))
    ));
    assert_eq!(upstream::keep_login(Err("why".to_string())).unwrap_err().message(), "why");
    assert_eq!(upstream::keep_login(Ok("text".to_string())).unwrap(), "text");
}
