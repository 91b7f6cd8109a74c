use librojo::roblox_api::{
    after_games_reply, auth_header, games_url, NameLookup, legacy_asset_url, opencloud_asset_url, resolve_auth, try_resolve_auth, universe_url,
    RobloxAuth,
};

#[test]
fn api_key_is_preferred_over_cookie() {
    match try_resolve_auth(Some("key"), Some("cookie".to_string())) {
        Some(RobloxAuth::ApiKey(k)) => assert_eq!(k, "key"),
        _ => panic!("expected the key"),
    }
}

#[test]
fn cookie_is_used_without_key() {
    match try_resolve_auth(None, Some("cookie".to_string())) {
        Some(RobloxAuth::Cookie(c)) => assert_eq!(c, "cookie"),
        _ => panic!("expected the cookie"),
    }
    assert!(try_resolve_auth(None, None).is_none());
}

#[test]
fn resolve_auth_explains_missing_credentials() {
    match resolve_auth(None, None) {
        Err(m) => assert_eq!(
            m,
            "No OpenCloud API key (--opencloud) or Roblox auth cookie found. Pass --opencloud <KEY> or log into Roblox Studio."
        ),
        Ok(_) => panic!("expected an error"),
    }
    assert!(matches!(resolve_auth(Some("k"), None), Ok(RobloxAuth::ApiKey(ref k)) if k == "k"));
}

#[test]
fn auth_headers() {
    assert_eq!(auth_header(&RobloxAuth::ApiKey("abc".into())), ("x-api-key".to_string(), "abc".to_string()));
    assert_eq!(auth_header(&RobloxAuth::Cookie("xyz".into())), ("cookie".to_string(), ".ROBLOSECURITY=xyz".to_string()));
}

#[test]
fn api_addresses() {
    assert_eq!(legacy_asset_url(123), "https://assetdelivery.roblox.com/v1/asset/?id=123");
    assert_eq!(opencloud_asset_url(42), "https://apis.roblox.com/asset-delivery-api/v1/assetId/42");
    assert_eq!(universe_url(1818), "https://apis.roblox.com/universes/v1/places/1818/universe");
    assert_eq!(games_url(0), "https://games.roblox.com/v1/games?universeIds=0");
}

#[test]
fn experience_name_lookup_steps() {
    let key = RobloxAuth::ApiKey("k".into());
    let cookie = RobloxAuth::Cookie("c".into());
    assert_eq!(after_games_reply(&key, true, Some("My Game".into())), NameLookup::Found("My Game".to_string()));
    assert_eq!(after_games_reply(&key, true, None), NameLookup::RetryWithoutAuth);
    assert_eq!(after_games_reply(&key, false, None), NameLookup::NotFound);
    assert_eq!(after_games_reply(&cookie, true, None), NameLookup::NotFound);
}

#[test]
fn studio_link() {
    assert_eq!(
        librojo::roblox_api::studio_launch_url(12, 34),
        "roblox-studio:1+launchmode:edit+task:EditPlace+placeId:12+universeId:34"
    );
}
