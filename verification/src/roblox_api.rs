//! Authentication and the addresses of the Roblox web APIs that the clone
//! and syncback commands call.

use vstd::prelude::*;
use crate::text::{chars_of, string_from_chars, push_str, push_decimal, decimal};

verus! {

/// How calls to the Roblox web APIs authenticate.
#[derive(Debug, Clone)]
pub enum RobloxAuth {
    /// The `.ROBLOSECURITY` cookie of a signed-in Studio.
    Cookie(String),
    /// An OpenCloud API key.
    ApiKey(String),
}

/// The view of an authentication: its kind and its secret.
pub open spec fn auth_view(a: RobloxAuth) -> (bool, Seq<char>) {
    match a {
        RobloxAuth::ApiKey(k) => (true, k@),
        RobloxAuth::Cookie(c) => (false, c@),
    }
}

/// Chooses the authentication: the OpenCloud key when one was given, else
/// the system cookie (which is only consulted when there is no key), else
/// none.
pub fn try_resolve_auth(opencloud_key: Option<&str>, cookie: Option<String>) -> (r: Option<RobloxAuth>)
    ensures
        match opencloud_key {
            Some(k) => r matches Some(a) && auth_view(a) == (true, k@),
            None => match cookie {
                Some(c) => r matches Some(a) && auth_view(a) == (false, c@),
                None => r is None,
            },
        },
{
    match opencloud_key {
        Some(k) => Some(RobloxAuth::ApiKey(string_from_chars(&chars_of(k)))),
        None => match cookie {
            Some(c) => Some(RobloxAuth::Cookie(c)),
            None => None,
        },
    }
}

/// The message given when neither a key nor a cookie is available.
pub open spec fn no_auth_message() -> Seq<char> {
    "No OpenCloud API key (--opencloud) or Roblox auth cookie found. Pass --opencloud <KEY> or log into Roblox Studio."@
}

/// As [`try_resolve_auth`], failing with a message that says what to do
/// when neither a key nor a cookie is available.
pub fn resolve_auth(opencloud_key: Option<&str>, cookie: Option<String>) -> (r: Result<RobloxAuth, String>)
    ensures
        match opencloud_key {
            Some(k) => r matches Ok(a) && auth_view(a) == (true, k@),
            None => match cookie {
                Some(c) => r matches Ok(a) && auth_view(a) == (false, c@),
                None => r matches Err(m) && m@ == no_auth_message(),
            },
        },
{
    match try_resolve_auth(opencloud_key, cookie) {
        Some(a) => Ok(a),
        None => {
            let m = "No OpenCloud API key (--opencloud) or Roblox auth cookie found. Pass --opencloud <KEY> or log into Roblox Studio.";
            Err(string_from_chars(&chars_of(m)))
        },
    }
}

/// The header a request carries to authenticate: `x-api-key` with the key,
/// or `cookie` with `.ROBLOSECURITY=` and the cookie.
pub fn auth_header(auth: &RobloxAuth) -> (r: (String, String))
    ensures
        match auth {
            RobloxAuth::ApiKey(k) => r.0@ == "x-api-key"@ && r.1@ == k@,
            RobloxAuth::Cookie(c) => r.0@ == "cookie"@ && r.1@ == ".ROBLOSECURITY="@ + c@,
        },
{
    match auth {
        RobloxAuth::ApiKey(k) => (string_from_chars(&chars_of("x-api-key")), string_from_chars(&chars_of(k.as_str()))),
        RobloxAuth::Cookie(c) => {
            let mut v = chars_of(".ROBLOSECURITY=");
            push_str(&mut v, c.as_str());
            (string_from_chars(&chars_of("cookie")), string_from_chars(&v))
        },
    }
}

fn url_with_id(prefix: &str, id: u64) -> (r: Vec<char>)
    ensures
        r@ == prefix@ + decimal(id as nat),
{
    let mut v = chars_of(prefix);
    push_decimal(&mut v, id);
    v
}

/// The address from which a place file is downloaded with a cookie.
pub fn legacy_asset_url(place_id: u64) -> (r: String)
    ensures
        r@ == "https://assetdelivery.roblox.com/v1/asset/?id="@ + decimal(place_id as nat),
{
    string_from_chars(&url_with_id("https://assetdelivery.roblox.com/v1/asset/?id=", place_id))
}

/// The OpenCloud address that tells where a place file can be downloaded.
pub fn opencloud_asset_url(place_id: u64) -> (r: String)
    ensures
        r@ == "https://apis.roblox.com/asset-delivery-api/v1/assetId/"@ + decimal(place_id as nat),
{
    string_from_chars(&url_with_id("https://apis.roblox.com/asset-delivery-api/v1/assetId/", place_id))
}

/// The address that tells which universe a place belongs to.
pub fn universe_url(place_id: u64) -> (r: String)
    ensures
        r@ == "https://apis.roblox.com/universes/v1/places/"@ + decimal(place_id as nat) + "/universe"@,
{
    let mut v = url_with_id("https://apis.roblox.com/universes/v1/places/", place_id);
    push_str(&mut v, "/universe");
    string_from_chars(&v)
}

/// The address that describes the experience of a universe.
pub fn games_url(universe_id: u64) -> (r: String)
    ensures
        r@ == "https://games.roblox.com/v1/games?universeIds="@ + decimal(universe_id as nat),
{
    string_from_chars(&url_with_id("https://games.roblox.com/v1/games?universeIds=", universe_id))
}

/// The link that opens a place of a universe for editing in Roblox Studio.
pub fn studio_launch_url(place_id: u64, universe_id: u64) -> (r: String)
    ensures
        r@ == "roblox-studio:1+launchmode:edit+task:EditPlace+placeId:"@ + decimal(place_id as nat) + "+universeId:"@
            + decimal(universe_id as nat),
{
    let mut v = url_with_id("roblox-studio:1+launchmode:edit+task:EditPlace+placeId:", place_id);
    push_str(&mut v, "+universeId:");
    push_decimal(&mut v, universe_id);
    string_from_chars(&v)
}

/// What to do after asking the games API for an experience's name.
#[derive(Debug, Clone, PartialEq, Eq)]
pub enum NameLookup {
    /// The experience is called this.
    Found(String),
    /// Ask again without authentication.
    RetryWithoutAuth,
    /// The name is not available.
    NotFound,
}

/// The next step after the games API answered `first_name` (the first
/// game's name, if the reply could be read and listed one): an API key may
/// not be accepted there, so a request made with a key is retried once
/// without authentication.
pub fn after_games_reply(auth: &RobloxAuth, authenticated: bool, first_name: Option<String>) -> (r: NameLookup)
    ensures
        match first_name {
            Some(n) => r == NameLookup::Found(n),
            None => if authenticated && auth is ApiKey {
                r == NameLookup::RetryWithoutAuth
            } else {
                r == NameLookup::NotFound
            },
        },
{
    match first_name {
        Some(n) => NameLookup::Found(n),
        None => match auth {
            RobloxAuth::ApiKey(_) => if authenticated {
                NameLookup::RetryWithoutAuth
            } else {
                NameLookup::NotFound
            },
            RobloxAuth::Cookie(_) => NameLookup::NotFound,
        },
    }
}

} // verus!
