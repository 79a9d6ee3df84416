//! Requests to the upstream service: addresses, signatures and headers.

use crate::domain::Cookies;
use crate::outside::{
    append_query_pairs, base64_encode, base64_text, before_fragment, can_append, form_bytes,
    form_encoded, hex_bytes, hex_encode, hmac_sha256, hmac_sha256_code, parse_url, parsed_url,
    pretty_json, pretty_json_text, query_opening, random_below, system_time, with_pairs,
};
use crate::rewriter::made_or_unchanged;
use crate::text::{
    chars_of, decimal, decimal_text, digit, has_no_line_feed, part, position_of_char,
};
use vstd::prelude::*;
use vstd::utf8::{encode_utf8, is_ascii_chars, is_ascii_chars_encode_utf8};

verus! {

/// A URL with the token and the client's id in its query.
pub open spec fn with_token(url: Seq<char>, token: Seq<char>, id: Seq<char>) -> Seq<char> {
    with_pairs(url, ("token"@, token), ("hash"@, id))
}

/// The signed form of an address: its URL with the token and the client's id in
/// the query. A text that is no URL stays as it is.
pub open spec fn token_url(base: Seq<char>, token: Seq<char>, id: Seq<char>) -> Seq<char> {
    match parsed_url(base) {
        Some(url) => with_token(url, token, id),
        None => base,
    }
}

/// An address can be signed: its URL does not grow too long.
pub open spec fn can_sign(base: Seq<char>, token: Seq<char>, id: Seq<char>) -> bool {
    parsed_url(base) matches Some(url) ==> can_append(url, ("token"@, token), ("hash"@, id))
}

/// How many characters a text takes in form encoding.
fn form_length(s: &str) -> (res: u128)
    ensures
        res == form_encoded(s@).len(),
        res <= 3 * usize::MAX,
{
    let bytes = s.as_bytes();
    let mut n: u128 = 0;
    let mut i: usize = 0;
    while i < bytes.len()
        invariant
            i <= bytes.len(),
            n == form_bytes(bytes@.take(i as int)).len(),
            n <= 3 * i,
        decreases bytes.len() - i,
    {
        let b: u8 = bytes[i];
        let plain = (0x30 <= b && b <= 0x39) || (0x41 <= b && b <= 0x5a) || (0x61 <= b && b <= 0x7a)
            || b == 0x2a || b == 0x2d || b == 0x2e || b == 0x5f;
        assert(bytes@.take(i + 1).drop_last() =~= bytes@.take(i as int));
        assert(bytes@.take(i + 1).last() == b);
        n = n + if plain || b == 0x20 {
            1
        } else {
            3
        };
        i += 1;
    }
    assert(bytes@.take(i as int) =~= bytes@);
    n
}

/// Whether the token and the client's id can be added to a URL.
fn url_can_be_signed(url: &str, token: &str, id: &str) -> (res: bool)
    ensures
        res == can_append(url@, ("token"@, token@), ("hash"@, id@)),
{
    let cs = chars_of(url);
    let n: usize = cs.len();
    let end: usize = match position_of_char(&cs, '#', 0) {
        Some(i) => i,
        None => n,
    };
    let head = chars_of(part(&cs, 0, end).as_str());
    assert(head@ =~= before_fragment(url@));
    let opening: u128 = match position_of_char(&head, '?', 0) {
        Some(i) => if i + 1 == end {
            0
        } else {
            1
        },
        None => {
            if end as u128 > u32::MAX as u128 {
                return false;
            }
            1
        },
    };
    let added: u128 = form_length("token") + form_length(token) + form_length("hash") + form_length(
        id,
    ) + 3;
    proof {
        reveal_strlit("");
        reveal_strlit("&");
        reveal_strlit("?");
        reveal_strlit("=");
        assert(query_opening(head@).len() == opening);
        assert(with_token(url@, token@, id@).len() == n + opening + added);
    }
    end == n || end as u128 + opening + added <= u32::MAX as u128
}

/// Whether an address can be signed.
pub fn can_sign_address(base: &str, token: &str, cookies: &Cookies) -> (res: bool)
    ensures
        res == can_sign(base@, token@, cookies.id@),
{
    match parse_url(base) {
        Some(url) => url_can_be_signed(url.as_str(), token, cookies.id.as_str()),
        None => true,
    }
}

/// The address `base` with the token and the client's id in its query.
pub fn build_upstream_url_with_token(base: &str, token: &str, cookies: &Cookies) -> (res: String)
    requires
        can_sign(base@, token@, cookies.id@),
    ensures
        res@ == token_url(base@, token@, cookies.id@),
        has_no_line_feed(base@) ==> has_no_line_feed(res@),
        base@.len() > 0 ==> res@.len() > 0,
{
    proof {
        reveal_strlit("=");
    }
    let signed = append_query_pairs(base, ("token", token), ("hash", cookies.id.as_str()));
    made_or_unchanged(signed, base)
}

// ---------------------------------------------------------------------------
// Signatures
// ---------------------------------------------------------------------------

/// The time in seconds that a signature states: the last full half minute.
pub open spec fn aligned(now: u64) -> nat {
    (now as nat / 30) * 30
}

/// The date that a signature states, for the time `now`.
pub open spec fn date_text(now: u64) -> Seq<char> {
    decimal(aligned(now))
}

/// The characters that a nonce is made of.
pub open spec fn nonce_alphabet() -> Seq<char> {
    "abcdefghijklmnopqrstuvwxyz0123456789"@
}

/// A text of `len` characters of the nonce alphabet.
pub open spec fn is_nonce(s: Seq<char>, len: nat) -> bool {
    s.len() == len && forall|i: int|
        0 <= i < s.len() ==> nonce_alphabet().contains(#[trigger] s[i])
}

/// What is signed: the nonce, the endpoint and the date, one behind the other.
pub open spec fn signed_message(nonce: Seq<char>, endpoint: Seq<char>, date: Seq<char>) -> Seq<u8> {
    encode_utf8(nonce) + encode_utf8(endpoint) + encode_utf8(date)
}

/// A message code as it is sent: its hexadecimal notation, in base64.
pub open spec fn auth_of_code(code: Seq<u8>) -> Seq<char> {
    base64_text(encode_utf8(hex_bytes(code)))
}

/// The signature of a request.
pub open spec fn signature(
    seed: Seq<char>,
    nonce: Seq<char>,
    endpoint: Seq<char>,
    date: Seq<char>,
) -> Seq<char> {
    auth_of_code(hmac_sha256_code(encode_utf8(seed), signed_message(nonce, endpoint, date)))
}

/// Why a request to the service fails.
#[derive(Debug)]
pub enum ApiError {
    /// There is no seed to sign with.
    MissingSeed,
    /// The seed was refused as a key.
    BadKey,
    /// The answer to a token request holds no token.
    TokenParse,
    /// The answer is no JSON, for this reason.
    NotJson(String),
    /// The service answered with a status that is no success.
    Refused { what: String, status: String },
}

impl ApiError {
    /// The error in words.
    pub open spec fn words(self) -> Seq<char> {
        match self {
            ApiError::MissingSeed => "Missing cookie seed"@,
            ApiError::BadKey => "Invalid Length"@,
            ApiError::TokenParse => "Token response parse error"@,
            ApiError::NotJson(reason) => reason@,
            ApiError::Refused { what, status } => what@ + " failed: "@ + status@,
        }
    }

    /// The error in words.
    pub fn message(&self) -> (res: String)
        ensures
            res@ == self.words(),
    {
        match self {
            ApiError::MissingSeed => "Missing cookie seed".to_owned(),
            ApiError::BadKey => "Invalid Length".to_owned(),
            ApiError::TokenParse => "Token response parse error".to_owned(),
            ApiError::NotJson(reason) => reason.as_str().to_owned(),
            ApiError::Refused { what, status } => {
                let mut res = what.as_str().to_owned();
                res.append(" failed: ");
                res.append(status.as_str());
                res
            },
        }
    }
}

/// The date that a request at `now` states, in seconds since the Unix epoch.
pub fn time30_at(now: u64) -> (res: String)
    ensures
        res@ == date_text(now),
{
    decimal_text((now / 30) * 30)
}

/// The date that a request states now. A clock that stands before the Unix epoch
/// counts as standing at it.
pub fn time30() -> (res: String)
    ensures
        exists|now: u64| res@ == #[trigger] date_text(now),
{
    match system_time() {
        Ok((now, _)) => time30_at(now),
        Err(_) => time30_at(0),
    }
}

/// The characters of the nonce alphabet at these places.
pub open spec fn drawn(draws: Seq<usize>) -> Seq<char> {
    draws.map_values(|at: usize| nonce_alphabet()[at as int])
}

/// The nonce that these draws give: each is the place of a character in the nonce
/// alphabet.
pub fn nonce_of(draws: &Vec<usize>) -> (res: String)
    requires
        forall|i: int| 0 <= i < draws@.len() ==> #[trigger] draws@[i] < 36,
    ensures
        res@ == drawn(draws@),
        is_nonce(res@, draws@.len()),
{
    let mut res = String::new();
    let mut i: usize = 0;
    proof {
        reveal_strlit("abcdefghijklmnopqrstuvwxyz0123456789");
    }
    while i < draws.len()
        invariant
            i <= draws.len(),
            nonce_alphabet().len() == 36,
            forall|k: int| 0 <= k < draws@.len() ==> #[trigger] draws@[k] < 36,
            res@ == drawn(draws@.take(i as int)),
        decreases draws.len() - i,
    {
        let c = "abcdefghijklmnopqrstuvwxyz0123456789".get_char(draws[i]);
        res.push(c);
        i += 1;
        assert(res@ =~= drawn(draws@.take(i as int)));
    }
    assert(draws@.take(i as int) =~= draws@);
    assert forall|k: int| 0 <= k < res@.len() implies nonce_alphabet().contains(
        #[trigger] res@[k],
    ) by {
        assert(res@[k] == nonce_alphabet()[draws@[k] as int]);
    }
    res
}

/// A text of `len` random characters, each a lower-case letter or a digit.
pub fn random_string(len: usize) -> (res: String)
    ensures
        is_nonce(res@, len as nat),
{
    let mut draws: Vec<usize> = Vec::new();
    let mut i: usize = 0;
    while i < len
        invariant
            i <= len,
            draws@.len() == i,
            forall|k: int| 0 <= k < draws@.len() ==> #[trigger] draws@[k] < 36,
        decreases len - i,
    {
        draws.push(random_below(36));
        i += 1;
    }
    nonce_of(&draws)
}

/// A message code as it is sent.
pub fn auth_text(code: &Vec<u8>) -> (res: String)
    requires
        code@.len() <= isize::MAX / 4,
    ensures
        res@ == auth_of_code(code@),
{
    let hex = hex_encode(code.as_slice());
    proof {
        lemma_hex_bytes_ascii(code@);
        is_ascii_chars_encode_utf8(hex@);
    }
    base64_encode(hex.as_str().as_bytes())
}

/// Hexadecimal notation takes two characters for a byte, all of them ASCII.
proof fn lemma_hex_bytes_ascii(bytes: Seq<u8>)
    ensures
        hex_bytes(bytes).len() == 2 * bytes.len(),
        is_ascii_chars(hex_bytes(bytes)),
    decreases bytes.len(),
{
    reveal_strlit("0123456789abcdef");
    if bytes.len() > 0 {
        lemma_hex_bytes_ascii(bytes.drop_last());
        let pair = seq![digit(bytes.last() as int / 16), digit(bytes.last() as int % 16)];
        assert(is_ascii_chars(pair));
    }
}

/// Base64 takes four characters for each three bytes that are begun.
proof fn lemma_base64_length(bytes: Seq<u8>)
    ensures
        base64_text(bytes).len() == (bytes.len() + 2) / 3 * 4,
    decreases bytes.len(),
{
    if bytes.len() >= 3 {
        lemma_base64_length(bytes.skip(3));
    }
}

/// The signature that a code of 32 bytes makes has 88 characters.
proof fn lemma_auth_length(code: Seq<u8>)
    requires
        code.len() == 32,
    ensures
        auth_of_code(code).len() == 88,
{
    lemma_hex_bytes_ascii(code);
    is_ascii_chars_encode_utf8(hex_bytes(code));
    lemma_base64_length(encode_utf8(hex_bytes(code)));
}

/// The signature of a request to `endpoint` with this nonce and this date.
pub fn sign_with(cookies: &Cookies, endpoint: &str, nonce: &str, date: &str) -> (res: Result<
    String,
    ApiError,
>)
    ensures
        res matches Ok(x_auth) && x_auth@ == signature(cookies.seed@, nonce@, endpoint@, date@)
            && x_auth@.len() == 88,
{
    let mut message: Vec<u8> = Vec::new();
    message.extend_from_slice(nonce.as_bytes());
    message.extend_from_slice(endpoint.as_bytes());
    message.extend_from_slice(date.as_bytes());
    assert(message@ =~= signed_message(nonce@, endpoint@, date@));
    match hmac_sha256(cookies.seed.as_str().as_bytes(), message.as_slice()) {
        Ok(code) => {
            proof {
                lemma_auth_length(code@);
            }
            Ok(auth_text(&code))
        },
        Err(_) => Err(ApiError::BadKey),
    }
}

/// A fresh nonce, and the signature with it of a request to `endpoint` that is
/// made now.
pub fn sign(cookies: &Cookies, endpoint: &str) -> (res: Result<(String, String), ApiError>)
    ensures
        res matches Ok((nonce, x_auth)) && is_nonce(nonce@, 21) && x_auth@.len() == 88
            && exists|now: u64|
            x_auth@ == signature(cookies.seed@, nonce@, endpoint@, #[trigger] date_text(now)),
{
    let nonce = random_string(21);
    let date = time30();
    match sign_with(cookies, endpoint, nonce.as_str(), date.as_str()) {
        Ok(x_auth) => Ok((nonce, x_auth)),
        Err(e) => Err(e),
    }
}

// ---------------------------------------------------------------------------
// Requests
// ---------------------------------------------------------------------------

/// A request to the service: where it goes and what headers it carries.
#[derive(Debug)]
pub struct ApiRequest {
    pub url: String,
    pub headers: Vec<(String, String)>,
}

/// The contents of a list of headers.
pub open spec fn header_texts(v: Seq<(String, String)>) -> Seq<(Seq<char>, Seq<char>)> {
    v.map_values(|h: (String, String)| (h.0@, h.1@))
}

/// The id of the first device, or nothing.
pub open spec fn first_device(cookies: Cookies) -> Seq<char> {
    if cookies.devices@.len() > 0 {
        cookies.devices@[0].id@
    } else {
        ""@
    }
}

/// The address of an endpoint.
pub open spec fn endpoint_url(endpoint: Seq<char>) -> Seq<char> {
    "https://api.sgtsa.pl/"@ + endpoint
}

/// The headers of a signed request.
pub open spec fn api_headers(
    cookies: Cookies,
    nonce: Seq<char>,
    x_auth: Seq<char>,
) -> Seq<(Seq<char>, Seq<char>)> {
    seq![
        ("host"@, "api.sgtsa.pl"@),
        ("accept"@, "*/*"@),
        ("X-Auth"@, x_auth),
        ("X-Nonce"@, nonce),
        ("X-Device-Id"@, cookies.id@),
        ("X-Device-Type"@, "other"@),
        ("X-Impersonate"@, first_device(cookies)),
        (
            "sec-ch-ua"@,
            "Google Chrome\";v=\"107\", \"Chromium\";v=\"107\", \"Not=A?Brand\";v=\"24\""@,
        ),
        (
            "user-agent"@,
            "Mozilla/5.0 (Windows NT 10.0; Win64; x64) AppleWebKit/537.36 (KHTML, like Gecko) Chrome/107.0.0.0 Safari/537.36"@,
        ),
        ("Sec-Fetch-Dest"@, "empty"@),
        ("Sec-Fetch-Mode"@, "cors"@),
        ("Sec-Fetch-Site"@, "cross-site"@),
        ("sec-ch-ua-mobile"@, "?0"@),
        ("sec-ch-ua-platform"@, "Windows"@),
    ]
}

/// A request with this signature.
pub open spec fn is_signed_request(
    req: ApiRequest,
    cookies: Cookies,
    endpoint: Seq<char>,
    nonce: Seq<char>,
    x_auth: Seq<char>,
) -> bool {
    &&& req.url@ == endpoint_url(endpoint)
    &&& header_texts(req.headers@) == api_headers(cookies, nonce, x_auth)
}

/// A request that is signed with a nonce of its own for some time.
pub open spec fn is_freshly_signed(req: ApiRequest, cookies: Cookies, endpoint: Seq<char>) -> bool {
    exists|nonce: Seq<char>, now: u64|
        is_nonce(nonce, 21) && #[trigger] is_signed_request(
            req,
            cookies,
            endpoint,
            nonce,
            signature(cookies.seed@, nonce, endpoint, date_text(now)),
        )
}

/// One more header at the end.
pub(crate) fn push_header(headers: &mut Vec<(String, String)>, name: &str, value: &str)
    ensures
        header_texts(final(headers)@) == header_texts(old(headers)@).push((name@, value@)),
{
    let ghost before = headers@;
    let header = (name.to_owned(), value.to_owned());
    headers.push(header);
    assert(header_texts(headers@) =~= header_texts(before).push((name@, value@)));
}

/// The id of the first device, or nothing.
pub(crate) fn device_id(cookies: &Cookies) -> (res: String)
    ensures
        res@ == first_device(*cookies),
{
    if cookies.devices.len() > 0 {
        cookies.devices[0].id.clone()
    } else {
        "".to_owned()
    }
}

/// The request to `endpoint` with this nonce and this signature.
pub fn api_get_builder(cookies: &Cookies, endpoint: &str, nonce: &str, x_auth: &str) -> (res:
    ApiRequest)
    ensures
        is_signed_request(res, *cookies, endpoint@, nonce@, x_auth@),
{
    let mut url = "https://api.sgtsa.pl/".to_owned();
    url.append(endpoint);
    let mut headers: Vec<(String, String)> = Vec::new();
    push_header(&mut headers, "host", "api.sgtsa.pl");
    push_header(&mut headers, "accept", "*/*");
    push_header(&mut headers, "X-Auth", x_auth);
    push_header(&mut headers, "X-Nonce", nonce);
    push_header(&mut headers, "X-Device-Id", cookies.id.as_str());
    push_header(&mut headers, "X-Device-Type", "other");
    push_header(&mut headers, "X-Impersonate", device_id(cookies).as_str());
    push_header(
        &mut headers,
        "sec-ch-ua",
        "Google Chrome\";v=\"107\", \"Chromium\";v=\"107\", \"Not=A?Brand\";v=\"24\"",
    );
    push_header(
        &mut headers,
        "user-agent",
        "Mozilla/5.0 (Windows NT 10.0; Win64; x64) AppleWebKit/537.36 (KHTML, like Gecko) Chrome/107.0.0.0 Safari/537.36",
    );
    push_header(&mut headers, "Sec-Fetch-Dest", "empty");
    push_header(&mut headers, "Sec-Fetch-Mode", "cors");
    push_header(&mut headers, "Sec-Fetch-Site", "cross-site");
    push_header(&mut headers, "sec-ch-ua-mobile", "?0");
    push_header(&mut headers, "sec-ch-ua-platform", "Windows");
    assert(header_texts(headers@) =~= api_headers(*cookies, nonce@, x_auth@));
    ApiRequest { url, headers }
}

/// The request to `endpoint`, signed now.
pub fn signed_request(cookies: &Cookies, endpoint: &str) -> (res: Result<ApiRequest, ApiError>)
    ensures
        res matches Ok(req) && is_freshly_signed(req, *cookies, endpoint@),
{
    match sign(cookies, endpoint) {
        Ok((nonce, x_auth)) => Ok(
            api_get_builder(cookies, endpoint, nonce.as_str(), x_auth.as_str()),
        ),
        Err(e) => Err(e),
    }
}

/// The request for a new token. Without a seed there is none.
pub fn token_request(cookies: &Cookies) -> (res: Result<ApiRequest, ApiError>)
    ensures
        cookies.seed@.len() == 0 ==> res matches Err(ApiError::MissingSeed),
        cookies.seed@.len() > 0 ==> (res matches Ok(req) && is_freshly_signed(
            req,
            *cookies,
            "v1/ott/token"@,
        )),
{
    if cookies.seed.as_str().is_empty() {
        return Err(ApiError::MissingSeed);
    }
    signed_request(cookies, "v1/ott/token")
}

/// The request for the list of channels.
pub fn assets_request(cookies: &Cookies) -> (res: Result<ApiRequest, ApiError>)
    ensures
        res matches Ok(req) && is_freshly_signed(req, *cookies, "v1/asset"@),
{
    signed_request(cookies, "v1/asset")
}

/// The request for the list of qualities.
pub fn qualities_request(cookies: &Cookies) -> (res: Result<ApiRequest, ApiError>)
    ensures
        res matches Ok(req) && is_freshly_signed(req, *cookies, "v1/ott/quality"@),
{
    signed_request(cookies, "v1/ott/quality")
}

/// The headers of a request for a login at a time.
pub open spec fn login_headers(now: u64) -> Seq<(Seq<char>, Seq<char>)> {
    seq![("host"@, "api.sgtsa.pl"@), ("X-Time"@, date_text(now))]
}

/// The request for a login at a time in seconds since the Unix epoch. Its body is
/// the credentials; it states the time and is not signed.
pub fn login_request_at(now: u64) -> (res: ApiRequest)
    ensures
        res.url@ == "https://api.sgtsa.pl/v1/auth/login"@,
        header_texts(res.headers@) == login_headers(now),
{
    let mut headers: Vec<(String, String)> = Vec::new();
    push_header(&mut headers, "host", "api.sgtsa.pl");
    push_header(&mut headers, "X-Time", time30_at(now).as_str());
    assert(header_texts(headers@) =~= login_headers(now));
    ApiRequest { url: "https://api.sgtsa.pl/v1/auth/login".to_owned(), headers }
}

/// The request for a login that is made now. A clock that stands before the Unix
/// epoch counts as standing at it.
pub fn login_request() -> (res: ApiRequest)
    ensures
        res.url@ == "https://api.sgtsa.pl/v1/auth/login"@,
        exists|now: u64| header_texts(res.headers@) == #[trigger] login_headers(now),
{
    match system_time() {
        Ok((now, _)) => login_request_at(now),
        Err(_) => login_request_at(0),
    }
}

/// The statuses that mean success.
pub open spec fn succeeds(status: u16) -> bool {
    200 <= status < 300
}

/// Whether a status means success.
pub fn is_success(status: u16) -> (res: bool)
    ensures
        res == succeeds(status),
{
    200 <= status && status < 300
}

/// What comes of the answer to a request for `what`: the answer is read where
/// its status means success, and is an error otherwise.
pub fn accept_answer(what: &str, status: u16, status_text: &str) -> (res: Result<(), ApiError>)
    ensures
        succeeds(status) ==> res is Ok,
        !succeeds(status) ==> (res matches Err(ApiError::Refused { what: w, status: s }) && w@
            == what@ && s@ == status_text@),
{
    if is_success(status) {
        Ok(())
    } else {
        Err(ApiError::Refused { what: what.to_owned(), status: status_text.to_owned() })
    }
}

/// What comes of the answer to a token request, given the token that was read
/// from it.
pub fn accept_token(parsed: Option<String>) -> (res: Result<String, ApiError>)
    ensures
        match parsed {
            Some(token) => res == Ok::<String, ApiError>(token),
            None => res matches Err(ApiError::TokenParse),
        },
{
    match parsed {
        Some(token) => Ok(token),
        None => Err(ApiError::TokenParse),
    }
}

/// What is kept of a login's answer, given what its text was laid out as.
pub fn keep_login(laid_out: Result<String, String>) -> (res: Result<String, ApiError>)
    ensures
        match laid_out {
            Ok(text) => res == Ok::<String, ApiError>(text),
            Err(reason) => res == Err::<String, ApiError>(ApiError::NotJson(reason)),
        },
{
    match laid_out {
        Ok(text) => Ok(text),
        Err(reason) => Err(ApiError::NotJson(reason)),
    }
}

/// What comes of the answer to a login: the text that is kept as the cookies,
/// which is the answer laid out for reading.
pub fn accept_login(status: u16, status_text: &str, body: &str) -> (res: Result<String, ApiError>)
    ensures
        !succeeds(status) ==> (res matches Err(ApiError::Refused { what: w, status: s }) && w@
            == "login"@ && s@ == status_text@),
        succeeds(status) ==> match pretty_json_text(body@) {
            Ok(text) => res is Ok && res->Ok_0@ == text,
            Err(reason) => res matches Err(ApiError::NotJson(r)) && r@ == reason,
        },
{
    match accept_answer("login", status, status_text) {
        Ok(_) => keep_login(pretty_json(body)),
        Err(e) => Err(e),
    }
}

// ---------------------------------------------------------------------------
// What holds of signatures
// ---------------------------------------------------------------------------

/// The date of a signature is a whole number of half minutes, and lies less than
/// half a minute back.
pub proof fn law_date_is_aligned(now: u64)
    ensures
        aligned(now) % 30 == 0,
        aligned(now) <= now < aligned(now) + 30,
{
}

/// All requests within one half minute state the same date.
pub proof fn law_date_is_steady(now: u64, later: u64)
    requires
        aligned(now) <= later < aligned(now) + 30,
    ensures
        date_text(later) == date_text(now),
{
}

} // verus!
