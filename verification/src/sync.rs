//! The remote synchronization client and orchestrator: the library frames
//! the remote API's request bodies, interprets its responses, and decides
//! between the create and update paths on push. Sending the HTTP requests
//! themselves is the caller's concern.

use vstd::prelude::*;
use vstd::string::*;

use crate::config::{GistConfig, GistConfigView};
use crate::jsonenc::{append_json_escaped, json_escape};
use crate::AppError;

verus! {

/// The request body that creates the remote document: a fixed description,
/// non-public visibility, and one file entry holding the whole alias text.
pub open spec fn spec_create_body(content: Seq<char>) -> Seq<char> {
    "{\"description\":\"Alias Assistant - Shell Aliases\",\"public\":false,\"files\":{\"aliases.sh\":{\"content\":\""@
        + json_escape(content) + "\"}}}"@
}

/// The request body that overwrites the remote document's single file.
pub open spec fn spec_update_body(content: Seq<char>) -> Seq<char> {
    "{\"description\":\"Alias Assistant - Shell Aliases\",\"files\":{\"aliases.sh\":{\"content\":\""@
        + json_escape(content) + "\"}}}"@
}

/// Build the create-request body for the given alias text.
pub fn create_gist_body(content: &str) -> (r: String)
    ensures
        r@ == spec_create_body(content@),
{
    let mut out = String::from_str(
        "{\"description\":\"Alias Assistant - Shell Aliases\",\"public\":false,\"files\":{\"aliases.sh\":{\"content\":\"",
    );
    append_json_escaped(&mut out, content);
    out.append("\"}}}");
    out
}

/// Build the update-request body for the given alias text.
pub fn update_gist_body(content: &str) -> (r: String)
    ensures
        r@ == spec_update_body(content@),
{
    let mut out = String::from_str(
        "{\"description\":\"Alias Assistant - Shell Aliases\",\"files\":{\"aliases.sh\":{\"content\":\"",
    );
    append_json_escaped(&mut out, content);
    out.append("\"}}}");
    out
}

/// What the JSON reader makes of a remote document response: its `id` and
/// the content of its single `aliases.sh` file entry, or nothing if the
/// body is not such a document. The result depends on the body alone.
pub uninterp spec fn gist_fields_of(body: Seq<char>) -> Option<(Seq<char>, Seq<char>)>;

/// Relies on `serde_json::from_str` and `serde_json::Value::{get, as_str}`:
/// reads the response object's `id` string and its
/// `files`.`aliases.sh`.`content` string.
#[verifier::external_body]
fn parse_gist_response(body: &str) -> (r: Option<(String, String)>)
    ensures
        match r {
            Some(p) => gist_fields_of(body@) == Some((p.0@, p.1@)),
            None => gist_fields_of(body@) is None,
        },
{
    let v: serde_json::Value = serde_json::from_str(body).ok()?;
    let id = v.get("id")?.as_str()?.to_string();
    let content = v.get("files")?.get("aliases.sh")?.get("content")?.as_str()?.to_string();
    Some((id, content))
}

/// Interpret a create response: a non-success status is a remote error
/// carrying the server's message verbatim; a success body must hold the new
/// document's id.
pub fn handle_create_response(success: bool, body: String) -> (r: Result<String, AppError>)
    ensures
        r is Ok <==> success && gist_fields_of(body@) is Some,
        match r {
            Ok(id) => match gist_fields_of(body@) {
                Some(p) => id@ == p.0,
                None => false,
            },
            Err(e) => if !success {
                e matches AppError::RemoteError(m) && m@ == "GitHub API error: "@ + body@
            } else {
                e matches AppError::RemoteError(m) && m@ == "Failed to parse response"@
            },
        },
{
    if !success {
        let msg = String::from_str("GitHub API error: ").concat(body.as_str());
        return Err(AppError::RemoteError(msg));
    }
    match parse_gist_response(body.as_str()) {
        Some(p) => Ok(p.0),
        None => Err(AppError::RemoteError(String::from_str("Failed to parse response"))),
    }
}

/// Interpret an update response: only the status matters; a non-success
/// status is a remote error carrying the server's message verbatim.
pub fn handle_update_response(success: bool, body: String) -> (r: Result<(), AppError>)
    ensures
        r is Ok <==> success,
        match r {
            Ok(u) => true,
            Err(e) => e matches AppError::RemoteError(m) && m@ == "GitHub API error: "@ + body@,
        },
{
    if success {
        Ok(())
    } else {
        let msg = String::from_str("GitHub API error: ").concat(body.as_str());
        Err(AppError::RemoteError(msg))
    }
}

/// Interpret a fetch response: a success body must hold the single file
/// entry's content, which is returned verbatim.
pub fn handle_fetch_response(success: bool, body: String) -> (r: Result<String, AppError>)
    ensures
        r is Ok <==> success && gist_fields_of(body@) is Some,
        match r {
            Ok(content) => match gist_fields_of(body@) {
                Some(p) => content@ == p.1,
                None => false,
            },
            Err(e) => if !success {
                e matches AppError::RemoteError(m) && m@ == "GitHub API error: "@ + body@
            } else {
                e matches AppError::RemoteError(m) && m@ == "Failed to parse response"@
            },
        },
{
    if !success {
        let msg = String::from_str("GitHub API error: ").concat(body.as_str());
        return Err(AppError::RemoteError(msg));
    }
    match parse_gist_response(body.as_str()) {
        Some(p) => Ok(p.1),
        None => Err(AppError::RemoteError(String::from_str("Failed to parse response"))),
    }
}

/// What a push does next: create a fresh remote document, or update the one
/// already linked.
#[derive(Debug, Clone, PartialEq, Eq)]
pub enum PushAction {
    Create,
    Update(String),
}

/// Decide the push path from the stored configuration: no token forbids any
/// remote operation; with a token, an absent remote id means create and a
/// present one means update of exactly that document.
pub fn plan_push(config: &GistConfig) -> (r: Result<(String, PushAction), AppError>)
    ensures
        r is Ok <==> config@.token is Some,
        match r {
            Ok(p) => config@.token == Some(p.0@) && (match (config@.gist_id, p.1) {
                (Some(id), PushAction::Update(g)) => g@ == id,
                (None, PushAction::Create) => true,
                _ => false,
            }),
            Err(e) => e == AppError::AuthMissing,
        },
{
    match &config.token {
        None => Err(AppError::AuthMissing),
        Some(t) => {
            let tok = t.clone();
            match &config.gist_id {
                None => Ok((tok, PushAction::Create)),
                Some(id) => Ok((tok, PushAction::Update(id.clone()))),
            }
        },
    }
}

/// The configuration once a remote id has been stored.
pub open spec fn with_remote_id(c: GistConfigView, id: Seq<char>) -> GistConfigView {
    GistConfigView { token: c.token, gist_id: Some(id) }
}

/// After a successful create: the configuration now linked to the new id,
/// and the confirmation message naming it.
pub fn finish_push_create(config: &GistConfig, new_id: String) -> (r: (GistConfig, String))
    ensures
        r.0@ == with_remote_id(config@, new_id@),
        r.1@ == "Successfully created and synced to Gist: "@ + new_id@,
{
    let token = match &config.token {
        Some(t) => Some(t.clone()),
        None => None,
    };
    let msg = String::from_str("Successfully created and synced to Gist: ").concat(
        new_id.as_str(),
    );
    (GistConfig { token, gist_id: Some(new_id) }, msg)
}

/// The confirmation message after a successful update.
pub fn push_update_message(gist_id: &String) -> (r: String)
    ensures
        r@ == "Successfully synced to Gist: "@ + gist_id@,
{
    String::from_str("Successfully synced to Gist: ").concat(gist_id.as_str())
}

/// Decide the pull path: both the token and the remote id must be stored,
/// and both are handed back for the fetch; pulling never touches local
/// state.
pub fn plan_pull(config: &GistConfig) -> (r: Result<(String, String), AppError>)
    ensures
        r is Ok <==> config@.token is Some && config@.gist_id is Some,
        match r {
            Ok(p) => config@.token == Some(p.0@) && config@.gist_id == Some(p.1@),
            Err(e) => e == AppError::ConfigMissing,
        },
{
    match (&config.token, &config.gist_id) {
        (Some(t), Some(id)) => Ok((t.clone(), id.clone())),
        _ => Err(AppError::ConfigMissing),
    }
}

/// Whether a push on this configuration takes the create path.
pub open spec fn push_creates(c: GistConfigView) -> bool {
    c.token is Some && c.gist_id is None
}

/// Whether a push on this configuration takes the update path.
pub open spec fn push_updates(c: GistConfigView) -> bool {
    c.token is Some && c.gist_id is Some
}

/// Sync state transition: a push on a config with a token and no remote id
/// takes the create path, and once the returned id is stored, every later
/// push on the stored config takes the update path of exactly that id —
/// never a second create.
pub proof fn lemma_push_transition(c: GistConfigView, new_id: Seq<char>)
    requires
        c.token is Some,
        c.gist_id is None,
    ensures
        push_creates(c),
        push_updates(with_remote_id(c, new_id)),
        with_remote_id(c, new_id).gist_id == Some(new_id),
        !push_creates(with_remote_id(c, new_id)),
{
}

} // verus!
