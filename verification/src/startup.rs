//! What is decided before the server runs.

use crate::domain::{quality_names, Cookies, Credentials, Qualities};
use crate::sorting::{is_sorting, law_sorting_is_unique, sorted};
use crate::text::{decimal, decimal_text, join, join_path, joined_with, path_in, same, texts};
use crate::upstream::{device_id, first_device};
use vstd::prelude::*;

verus! {

// ---------------------------------------------------------------------------
// Logging in
// ---------------------------------------------------------------------------

/// The cookies say who the client is, what it signs with, and its device.
pub open spec fn is_logged_in(cookies: Cookies) -> bool {
    cookies.id@.len() > 0 && cookies.seed@.len() > 0 && first_device(cookies).len() > 0
}

/// Whether the cookies say who the client is, what it signs with, and its device.
pub fn logged_in(cookies: &Cookies) -> (res: bool)
    ensures
        res == is_logged_in(*cookies),
{
    !cookies.id.as_str().is_empty() && !cookies.seed.as_str().is_empty() && !device_id(
        cookies,
    ).as_str().is_empty()
}

/// What is done about logging in.
#[derive(Debug)]
pub enum LoginPlan {
    /// The client is logged in.
    NotNeeded,
    /// Log in.
    Login(Credentials),
    /// A name and a password are given, but one of them is empty.
    EmptyCredentials,
    /// The name or the password is missing.
    NoCredentials,
}

/// What is done about logging in.
pub open spec fn is_login_plan(
    plan: LoginPlan,
    cookies: Cookies,
    username: Option<&str>,
    password: Option<&str>,
) -> bool {
    if is_logged_in(cookies) {
        plan is NotNeeded
    } else {
        match (username, password) {
            (Some(u), Some(p)) => if u@.len() > 0 && p@.len() > 0 {
                plan matches LoginPlan::Login(c) && c.username@ == u@ && c.password@ == p@
            } else {
                plan is EmptyCredentials
            },
            _ => plan is NoCredentials,
        }
    }
}

/// What is done about logging in.
pub fn login_plan(cookies: &Cookies, username: Option<&str>, password: Option<&str>) -> (res:
    LoginPlan)
    ensures
        is_login_plan(res, *cookies, username, password),
{
    if logged_in(cookies) {
        return LoginPlan::NotNeeded;
    }
    match (username, password) {
        (Some(u), Some(p)) => {
            if !u.is_empty() && !p.is_empty() {
                LoginPlan::Login(Credentials { username: u.to_owned(), password: p.to_owned() })
            } else {
                LoginPlan::EmptyCredentials
            }
        },
        _ => LoginPlan::NoCredentials,
    }
}

// ---------------------------------------------------------------------------
// The channel table
// ---------------------------------------------------------------------------

/// What is done about the channel table.
#[derive(Debug, Clone, Copy, PartialEq, Eq, Structural)]
pub enum TablePlan {
    /// It holds channels already.
    Keep,
    /// It is empty, and the client is not logged in.
    Skip,
    /// It is empty: fill it from the list of assets.
    Fill,
}

/// What is done about the channel table, given how many rows it holds.
pub fn table_plan(rows: usize, cookies: &Cookies) -> (res: TablePlan)
    ensures
        res == (if rows > 0 {
            TablePlan::Keep
        } else if is_logged_in(*cookies) {
            TablePlan::Fill
        } else {
            TablePlan::Skip
        }),
{
    if rows > 0 {
        TablePlan::Keep
    } else if logged_in(cookies) {
        TablePlan::Fill
    } else {
        TablePlan::Skip
    }
}

// ---------------------------------------------------------------------------
// The quality
// ---------------------------------------------------------------------------

/// The names of the qualities.
fn names_of(qualities: &Qualities) -> (res: Vec<String>)
    ensures
        texts(res@) == quality_names(qualities@),
{
    let mut res: Vec<String> = Vec::new();
    let mut i: usize = 0;
    while i < qualities.len()
        invariant
            i <= qualities.len(),
            texts(res@) == quality_names(qualities@).take(i as int),
        decreases qualities.len() - i,
    {
        let name = qualities[i].0.clone();
        let ghost before = res@;
        res.push(name);
        assert(texts(res@) =~= texts(before).push(name@));
        i += 1;
        assert(texts(res@) =~= quality_names(qualities@).take(i as int));
    }
    assert(texts(res@) =~= quality_names(qualities@));
    res
}

/// The names of the qualities in their order.
pub fn available(qualities: &Qualities) -> (res: Vec<String>)
    ensures
        is_sorting(texts(res@), quality_names(qualities@)),
{
    sorted(names_of(qualities))
}

/// The message for a quality that there is none of.
pub open spec fn quality_message(quality: Seq<char>, listing: Seq<Seq<char>>) -> Seq<char> {
    "Invalid quality '"@ + quality + "'. Available: "@ + joined_with(listing, ", "@)
}

/// The quality is one of those that there are. Where none are known, any will do.
pub fn check_quality(qualities: &Qualities, quality: &str) -> (res: Result<(), String>)
    ensures
        res is Ok <==> qualities@.len() == 0 || quality_names(qualities@).contains(quality@),
        forall|listing: Seq<Seq<char>>|
            res is Err && #[trigger] is_sorting(listing, quality_names(qualities@))
                ==> res->Err_0@ == quality_message(quality@, listing),
        res is Err ==> exists|listing: Seq<Seq<char>>| #[trigger]
            is_sorting(listing, quality_names(qualities@)),
{
    if qualities.len() == 0 {
        return Ok(());
    }
    let mut i: usize = 0;
    while i < qualities.len()
        invariant
            i <= qualities.len(),
            forall|k: int| 0 <= k < i ==> #[trigger] quality_names(qualities@)[k] != quality@,
        decreases qualities.len() - i,
    {
        if same(qualities[i].0.as_str(), quality) {
            assert(quality_names(qualities@)[i as int] == quality@);
            return Ok(());
        }
        i += 1;
    }
    let names = available(qualities);
    let mut message = "Invalid quality '".to_owned();
    message.append(quality);
    message.append("'. Available: ");
    message.append(join(&names, ", ").as_str());
    assert(message@ =~= quality_message(quality@, texts(names@)));
    assert forall|listing: Seq<Seq<char>>| #[trigger]
        is_sorting(listing, quality_names(qualities@)) implies message@ == quality_message(
        quality@,
        listing,
    ) by {
        law_sorting_is_unique(listing, texts(names@), quality_names(qualities@));
    }
    Err(message)
}

// ---------------------------------------------------------------------------
// Places
// ---------------------------------------------------------------------------

/// The file that the cookies are kept in.
pub fn cookie_path(data_dir: &str) -> (res: String)
    ensures
        res@ == path_in(data_dir@, "cookie.json"@),
{
    join_path(data_dir, "cookie.json")
}

/// The file of the channel table.
pub fn database_path(data_dir: &str) -> (res: String)
    ensures
        res@ == path_in(data_dir@, "jambox.db"@),
{
    join_path(data_dir, "jambox.db")
}

/// The directory that sessions are written to: the one that is set, or one in the
/// directory of temporary files.
pub fn stream_root(stream_dir: Option<&str>, temp_dir: &str) -> (res: String)
    ensures
        match stream_dir {
            Some(dir) => res@ == dir@,
            None => res@ == path_in(temp_dir@, "jambox_streams"@),
        },
{
    match stream_dir {
        Some(dir) => dir.to_owned(),
        None => join_path(temp_dir, "jambox_streams"),
    }
}

/// The address that is listened on.
pub open spec fn address(host: Seq<char>, port: u16) -> Seq<char> {
    host + ":"@ + decimal(port as nat)
}

/// The address that is listened on.
pub fn bind_address(host: &str, port: u16) -> (res: String)
    ensures
        res@ == address(host@, port),
{
    let mut res = host.to_owned();
    res.append(":");
    res.append(decimal_text(port as u64).as_str());
    res
}

/// The address that is listened on where the other one cannot be.
pub fn fallback_address(port: u16) -> (res: String)
    ensures
        res@ == address("0.0.0.0"@, port),
{
    bind_address("0.0.0.0", port)
}

} // verus!
