use librojo::cli::UploadCommand;
use librojo::upload::{
    asset_failure_message, asset_request_json, csrf_retry_token, asset_url, encodes_children, http_failure_message, legacy_cookie, legacy_upload_url,
    operation_id_of, operation_url, place_versions_url, PollReply, PollStep, UploadMode, UploadPoll,
    MAX_OPERATION_RETRIES,
};

fn cmd(cookie: Option<&str>, api_key: Option<&str>, universe_id: Option<u64>) -> UploadCommand {
    UploadCommand {
        project: String::new(),
        cookie: cookie.map(String::from),
        api_key: api_key.map(String::from),
        universe_id,
        asset_id: 7,
    }
}

#[test]
fn upload_modes() {
    assert_eq!(
        cmd(Some("c"), None, Some(3)).upload_mode(),
        UploadMode::Legacy { cookie: Some("c".to_string()), universe_ignored: true }
    );
    assert_eq!(cmd(None, None, None).upload_mode(), UploadMode::Legacy { cookie: None, universe_ignored: false });
    assert_eq!(
        cmd(Some("c"), Some("k"), None).upload_mode(),
        UploadMode::Assets { api_key: "k".to_string(), cookie_ignored: true }
    );
    assert_eq!(
        cmd(None, Some("k"), Some(9)).upload_mode(),
        UploadMode::Places { api_key: "k".to_string(), universe_id: 9, cookie_ignored: false }
    );
}

#[test]
fn legacy_cookie_choice() {
    assert_eq!(legacy_cookie(Some("a".into()), Some("b".into())), Ok("a".to_string()));
    assert_eq!(legacy_cookie(None, Some("b".into())), Ok("b".to_string()));
    assert_eq!(
        legacy_cookie(None, None),
        Err("Rojo could not find your Roblox auth cookie. Please log into Roblox Studio or pass one via --cookie.".to_string())
    );
}

#[test]
fn upload_addresses() {
    assert_eq!(legacy_upload_url(123), "https://data.roblox.com/Data/Upload.ashx?assetid=123");
    assert_eq!(asset_url(55), "https://apis.roblox.com/assets/v1/assets/55");
    assert_eq!(operation_url("abc"), "https://apis.roblox.com/assets/v1/operations/abc");
    assert_eq!(
        place_versions_url(1, 2),
        "https://apis.roblox.com/universes/v1/1/places/2/versions?versionType=Published"
    );
    assert!(encodes_children("DataModel"));
    assert!(!encodes_children("Model"));
}

#[test]
fn failure_messages() {
    assert_eq!(http_failure_message("403 Forbidden", ""), "The Roblox API returned HTTP 403 Forbidden: (empty response)");
    assert_eq!(http_failure_message("500 Internal Server Error", "oops"), "The Roblox API returned HTTP 500 Internal Server Error: oops");
    assert_eq!(
        asset_failure_message("400 Bad Request", Some("INVALID"), Some("bad asset")),
        "The Roblox API returned HTTP 400 Bad Request (INVALID): bad asset"
    );
    assert_eq!(asset_failure_message("400 Bad Request", None, None), "The Roblox API returned HTTP 400 Bad Request (): unknown error");
}

#[test]
fn operation_ids() {
    assert_eq!(operation_id_of("operations/xyz"), "xyz");
    assert_eq!(operation_id_of("xyz"), "xyz");
}

#[test]
fn polling_doubles_the_wait_and_gives_up() {
    let (mut poll, step) = UploadPoll::start("op1");
    assert_eq!(step, PollStep::Wait { delay_secs: 1 });
    let mut waits = vec![1];
    loop {
        let (next, step) = poll.on_reply(PollReply::Pending);
        match step {
            PollStep::Wait { delay_secs } => waits.push(delay_secs),
            PollStep::Failed { message } => {
                assert_eq!(message, "Operation op1 did not complete within 10 attempts");
                break;
            }
            PollStep::Succeeded => panic!("no success expected"),
        }
        poll = next;
    }
    assert_eq!(waits, vec![1, 2, 4, 8, 16, 32, 64, 128, 256, 512]);
    assert_eq!(waits.len() as u32, MAX_OPERATION_RETRIES);
}

#[test]
fn polling_ends_when_done() {
    let (poll, _) = UploadPoll::start("op2");
    let (poll, step) = poll.on_reply(PollReply::HttpError);
    assert_eq!(step, PollStep::Wait { delay_secs: 2 });
    assert_eq!(poll.on_reply(PollReply::Done { error: None }).1, PollStep::Succeeded);
    assert_eq!(
        poll.on_reply(PollReply::Done { error: Some(Some("moderated".into())) }).1,
        PollStep::Failed { message: "Asset processing failed: moderated".to_string() }
    );
    assert_eq!(
        poll.on_reply(PollReply::Done { error: Some(None) }).1,
        PollStep::Failed { message: "Asset processing failed: unknown error".to_string() }
    );
}

#[test]
fn csrf_challenge_is_retried_with_its_token() {
    assert_eq!(csrf_retry_token(403, Some("tok")), Some("tok".to_string()));
    assert_eq!(csrf_retry_token(403, None), None);
    assert_eq!(csrf_retry_token(200, Some("tok")), None);
}

#[test]
fn asset_request_body() {
    assert_eq!(asset_request_json(123), "{\"assetId\":123}");
}
