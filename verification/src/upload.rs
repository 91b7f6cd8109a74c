//! Decisions of the `upload` command: which API to publish through, the
//! addresses and messages of each, and the polling of an Open Cloud asset
//! operation until it completes.

use vstd::prelude::*;
use crate::cli::UploadCommand;
use crate::text::{chars_of, string_from_chars, push_str, push_decimal, decimal, has_prefix, matches_at};

verus! {

/// How many times an asset operation is polled before giving up.
pub const MAX_OPERATION_RETRIES: u32 = 10;

/// The API an upload goes through.
#[derive(Debug, Clone, PartialEq, Eq)]
pub enum UploadMode {
    /// The legacy upload endpoint, authenticated by a cookie (the given one,
    /// else the system's).
    Legacy { cookie: Option<String>, universe_ignored: bool },
    /// The Open Cloud Assets API, for models and plugins.
    Assets { api_key: String, cookie_ignored: bool },
    /// The Open Cloud Places API, for places.
    Places { api_key: String, universe_id: u64, cookie_ignored: bool },
}

impl UploadCommand {
    /// Chooses the upload API: without an API key the legacy endpoint (a
    /// universe id is then ignored); with a key, the Places API when a
    /// universe id is given and the Assets API otherwise (a cookie is then
    /// ignored).
    pub fn upload_mode(&self) -> (r: UploadMode)
        ensures
            match self.api_key {
                None => r == (UploadMode::Legacy { cookie: self.cookie, universe_ignored: self.universe_id is Some }),
                Some(k) => match self.universe_id {
                    None => r == (UploadMode::Assets { api_key: k, cookie_ignored: self.cookie is Some }),
                    Some(u) => r == (UploadMode::Places {
                        api_key: k,
                        universe_id: u,
                        cookie_ignored: self.cookie is Some,
                    }),
                },
            },
    {
        match &self.api_key {
            None => {
                let cookie = match &self.cookie {
                    Some(c) => Some(c.clone()),
                    None => None,
                };
                UploadMode::Legacy { cookie, universe_ignored: self.universe_id.is_some() }
            },
            Some(k) => match self.universe_id {
                None => UploadMode::Assets { api_key: k.clone(), cookie_ignored: self.cookie.is_some() },
                Some(u) => UploadMode::Places { api_key: k.clone(), universe_id: u, cookie_ignored: self.cookie.is_some() },
            },
        }
    }
}

/// The message given when no cookie is available for a legacy upload.
pub open spec fn missing_cookie_message() -> Seq<char> {
    "Rojo could not find your Roblox auth cookie. Please log into Roblox Studio or pass one via --cookie."@
}

/// The cookie for a legacy upload: the given one, else the system's one.
pub fn legacy_cookie(given: Option<String>, system: Option<String>) -> (r: Result<String, String>)
    ensures
        match given {
            Some(c) => r == Ok::<String, String>(c),
            None => match system {
                Some(c) => r == Ok::<String, String>(c),
                None => r matches Err(m) && m@ == missing_cookie_message(),
            },
        },
{
    match given {
        Some(c) => Ok(c),
        None => match system {
            Some(c) => Ok(c),
            None => Err(string_from_chars(&chars_of(
                "Rojo could not find your Roblox auth cookie. Please log into Roblox Studio or pass one via --cookie.",
            ))),
        },
    }
}

/// Whether the whole tree's root is encoded as its children (a place's
/// `DataModel`) rather than as itself (a model or plugin).
pub fn encodes_children(root_class: &str) -> (r: bool)
    ensures
        r == (root_class@ == "DataModel"@),
{
    crate::text::str_eq(root_class, "DataModel")
}

/// The address of the legacy upload endpoint for an asset.
pub fn legacy_upload_url(asset_id: u64) -> (r: String)
    ensures
        r@ == "https://data.roblox.com/Data/Upload.ashx?assetid="@ + decimal(asset_id as nat),
{
    let mut v = chars_of("https://data.roblox.com/Data/Upload.ashx?assetid=");
    push_decimal(&mut v, asset_id);
    string_from_chars(&v)
}

/// The Open Cloud address of an asset.
pub fn asset_url(asset_id: u64) -> (r: String)
    ensures
        r@ == "https://apis.roblox.com/assets/v1/assets/"@ + decimal(asset_id as nat),
{
    let mut v = chars_of("https://apis.roblox.com/assets/v1/assets/");
    push_decimal(&mut v, asset_id);
    string_from_chars(&v)
}

/// The Open Cloud address of an asset operation.
pub fn operation_url(operation_id: &str) -> (r: String)
    ensures
        r@ == "https://apis.roblox.com/assets/v1/operations/"@ + operation_id@,
{
    let mut v = chars_of("https://apis.roblox.com/assets/v1/operations/");
    push_str(&mut v, operation_id);
    string_from_chars(&v)
}

/// The Open Cloud address that publishes a new version of a place.
pub fn place_versions_url(universe_id: u64, place_id: u64) -> (r: String)
    ensures
        r@ == "https://apis.roblox.com/universes/v1/"@ + decimal(universe_id as nat) + "/places/"@ + decimal(
            place_id as nat,
        ) + "/versions?versionType=Published"@,
{
    let mut v = chars_of("https://apis.roblox.com/universes/v1/");
    push_decimal(&mut v, universe_id);
    push_str(&mut v, "/places/");
    push_decimal(&mut v, place_id);
    push_str(&mut v, "/versions?versionType=Published");
    string_from_chars(&v)
}

/// The token to retry a legacy upload with: the legacy endpoint answers a
/// CSRF challenge with status 403 and an `X-CSRF-Token` header, and the
/// upload is sent again once with that token.
pub fn csrf_retry_token(status: u16, token: Option<&str>) -> (r: Option<String>)
    ensures
        match r {
            Some(t) => status == 403 && (token matches Some(k) && t@ == k@),
            None => status != 403 || token is None,
        },
{
    if status == 403 {
        match token {
            Some(k) => Some(string_from_chars(&chars_of(k))),
            None => None,
        }
    } else {
        None
    }
}

/// The JSON request part of an asset upload: `{"assetId":ID}`.
pub fn asset_request_json(asset_id: u64) -> (r: String)
    ensures
        r@ == "{\"assetId\":"@ + decimal(asset_id as nat) + "}"@,
{
    let mut v = chars_of("{\"assetId\":");
    push_decimal(&mut v, asset_id);
    push_str(&mut v, "}");
    string_from_chars(&v)
}

/// The message for a failed legacy or Places upload: the HTTP status and
/// the reply's body, or `(empty response)` when it is empty.
pub fn http_failure_message(status: &str, body: &str) -> (r: String)
    ensures
        r@ == "The Roblox API returned HTTP "@ + status@ + ": "@ + (if body@.len() == 0 {
            "(empty response)"@
        } else {
            body@
        }),
{
    let mut v = chars_of("The Roblox API returned HTTP ");
    push_str(&mut v, status);
    push_str(&mut v, ": ");
    let b = chars_of(body);
    if b.len() == 0 {
        push_str(&mut v, "(empty response)");
    } else {
        push_str(&mut v, body);
    }
    string_from_chars(&v)
}

/// The message for a refused asset upload: the HTTP status, the reply's
/// `code` (empty when absent) and `message` (`unknown error` when absent).
pub fn asset_failure_message(status: &str, code: Option<&str>, message: Option<&str>) -> (r: String)
    ensures
        r@ == "The Roblox API returned HTTP "@ + status@ + " ("@ + match code {
            Some(c) => c@,
            None => Seq::empty(),
        } + "): "@ + match message {
            Some(m) => m@,
            None => "unknown error"@,
        },
{
    let mut v = chars_of("The Roblox API returned HTTP ");
    push_str(&mut v, status);
    push_str(&mut v, " (");
    match code {
        Some(c) => push_str(&mut v, c),
        None => {},
    }
    push_str(&mut v, "): ");
    match message {
        Some(m) => push_str(&mut v, m),
        None => push_str(&mut v, "unknown error"),
    }
    string_from_chars(&v)
}

/// The id of an asset operation from its path `operations/{id}` (the path
/// itself when it lacks that prefix).
pub fn operation_id_of(path: &str) -> (r: String)
    ensures
        r@ == (if has_prefix(path@, "operations/"@) {
            path@.skip("operations/"@.len() as int)
        } else {
            path@
        }),
{
    let p = chars_of(path);
    let pre = chars_of("operations/");
    if matches_at(&p, 0, &pre) {
        string_from_chars(&crate::text::chars_from(&p, pre.len()))
    } else {
        string_from_chars(&p)
    }
}

/// What a poll of an asset operation answered.
#[derive(Debug, Clone, PartialEq, Eq)]
pub enum PollReply {
    /// The poll itself failed (an HTTP error status).
    HttpError,
    /// The operation is not done yet.
    Pending,
    /// The operation is done; `error` is present when it failed, with its
    /// message when it has one.
    Done { error: Option<Option<String>> },
}

/// What to do next while polling an asset operation.
#[derive(Debug, Clone, PartialEq, Eq)]
pub enum PollStep {
    /// Wait this many seconds, then poll again.
    Wait { delay_secs: u64 },
    /// The asset was processed.
    Succeeded,
    /// The upload failed with this message.
    Failed { message: String },
}

/// The state of polling an asset operation: which attempt comes next and
/// how long to wait before it.
#[derive(Debug, Clone, PartialEq, Eq)]
pub struct UploadPoll {
    pub operation_id: String,
    pub attempt: u32,
    pub delay_secs: u64,
}

/// `2^n`.
pub open spec fn pow2(n: nat) -> nat
    decreases n,
{
    if n == 0 {
        1
    } else {
        2 * pow2((n - 1) as nat)
    }
}

/// The message given when an operation is still not done after the last
/// attempt.
pub open spec fn gave_up_message(operation_id: Seq<char>) -> Seq<char> {
    "Operation "@ + operation_id + " did not complete within "@ + decimal(MAX_OPERATION_RETRIES as nat)
        + " attempts"@
}

impl UploadPoll {
    /// Whether the poll is in a state it can reach: attempt `k` (from 1 up
    /// to the limit) comes after waiting `2^(k-1)` seconds.
    pub open spec fn wf(&self) -> bool {
        1 <= self.attempt <= MAX_OPERATION_RETRIES && self.delay_secs == pow2((self.attempt - 1) as nat)
    }

    /// Starts polling the operation `operation_id`: the first poll comes
    /// after one second.
    pub fn start(operation_id: &str) -> (r: (UploadPoll, PollStep))
        ensures
            r.0.wf(),
            r.0.operation_id@ == operation_id@,
            r.0.attempt == 1,
            r.1 == (PollStep::Wait { delay_secs: 1 }),
    {
        (UploadPoll { operation_id: string_from_chars(&chars_of(operation_id)), attempt: 1, delay_secs: 1 }, PollStep::Wait { delay_secs: 1 })
    }

    /// The next state and step after a poll's reply: a failed poll or a
    /// pending operation waits twice as long for the next attempt, until the
    /// last attempt, after which polling gives up; a done operation ends
    /// polling, failed when it carries an error.
    pub fn on_reply(&self, reply: PollReply) -> (r: (UploadPoll, PollStep))
        requires
            self.wf(),
        ensures
            match reply {
                PollReply::Done { error: None } => r.1 == PollStep::Succeeded && r.0 == *self,
                PollReply::Done { error: Some(m) } => r.0 == *self && (r.1 matches PollStep::Failed { message }
                    && message@ == "Asset processing failed: "@ + match m {
                    Some(t) => t@,
                    None => "unknown error"@,
                }),
                _ => if self.attempt < MAX_OPERATION_RETRIES {
                    &&& r.0.wf()
                    &&& r.0.operation_id == self.operation_id
                    &&& r.0.attempt == self.attempt + 1
                    &&& r.1 == (PollStep::Wait { delay_secs: r.0.delay_secs })
                    &&& r.0.delay_secs == 2 * self.delay_secs
                } else {
                    r.0 == *self && (r.1 matches PollStep::Failed { message } && message@ == gave_up_message(
                        self.operation_id@,
                    ))
                },
            },
    {
        match reply {
            PollReply::Done { error: None } => (self.clone_poll(), PollStep::Succeeded),
            PollReply::Done { error: Some(m) } => {
                let mut v = chars_of("Asset processing failed: ");
                match m {
                    Some(t) => push_str(&mut v, t.as_str()),
                    None => push_str(&mut v, "unknown error"),
                }
                (self.clone_poll(), PollStep::Failed { message: string_from_chars(&v) })
            },
            _ => {
                if self.attempt < MAX_OPERATION_RETRIES {
                    proof {
                        lemma_pow2_bound(self.attempt as nat);
                    }
                    let next = UploadPoll {
                        operation_id: self.operation_id.clone(),
                        attempt: self.attempt + 1,
                        delay_secs: self.delay_secs * 2,
                    };
                    let d = next.delay_secs;
                    (next, PollStep::Wait { delay_secs: d })
                } else {
                    let mut v = chars_of("Operation ");
                    push_str(&mut v, self.operation_id.as_str());
                    push_str(&mut v, " did not complete within ");
                    push_decimal(&mut v, MAX_OPERATION_RETRIES as u64);
                    push_str(&mut v, " attempts");
                    (self.clone_poll(), PollStep::Failed { message: string_from_chars(&v) })
                }
            },
        }
    }

    fn clone_poll(&self) -> (r: UploadPoll)
        ensures
            r == *self,
    {
        UploadPoll { operation_id: self.operation_id.clone(), attempt: self.attempt, delay_secs: self.delay_secs }
    }
}

proof fn lemma_pow2_mono(n: nat, m: nat)
    requires
        n <= m,
    ensures
        pow2(n) <= pow2(m),
    decreases m,
{
    if n < m {
        lemma_pow2_mono(n, (m - 1) as nat);
    }
}

proof fn lemma_pow2_bound(n: nat)
    requires
        n <= 10,
    ensures
        pow2(n) <= 1024,
{
    lemma_pow2_mono(n, 10);
    reveal_with_fuel(pow2, 11);
    assert(pow2(10) == 1024);
}

} // verus!
