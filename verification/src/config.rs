//! The persisted sync configuration: an optional API token and an optional
//! remote document id, kept as a small JSON object in the config file. Each
//! operation here is the compute half of the store's read-modify-write
//! cycle; reading and writing the file itself is the caller's concern.

use vstd::prelude::*;
use vstd::string::*;

use crate::jsonenc::{append_json_escaped, json_escape};
use crate::AppError;

verus! {

/// The persisted sync configuration.
#[derive(Debug, Clone, PartialEq, Eq)]
pub struct GistConfig {
    pub token: Option<String>,
    pub gist_id: Option<String>,
}

/// Spec-level image of a [`GistConfig`].
pub struct GistConfigView {
    pub token: Option<Seq<char>>,
    pub gist_id: Option<Seq<char>>,
}

/// The view of an optional string.
pub open spec fn opt_view(o: Option<String>) -> Option<Seq<char>> {
    match o {
        Some(s) => Some(s@),
        None => None,
    }
}

impl View for GistConfig {
    type V = GistConfigView;

    open spec fn view(&self) -> GistConfigView {
        GistConfigView { token: opt_view(self.token), gist_id: opt_view(self.gist_id) }
    }
}

/// The configuration with neither token nor remote id.
pub open spec fn default_config() -> GistConfigView {
    GistConfigView { token: None, gist_id: None }
}

/// What the JSON reader makes of a config document: its `token` and
/// `gist_id` fields, or nothing if the text is not such a document. The
/// result depends on the text alone.
pub uninterp spec fn config_fields_of(s: Seq<char>) -> Option<
    (Option<Seq<char>>, Option<Seq<char>>),
>;

/// Relies on `serde_json::from_str` and `serde_json::Value::{get, as_str,
/// is_null, is_object}`: reads the JSON object's `token` and `gist_id`
/// fields, each a string or null, treating an absent field as null and
/// anything else as a malformed document.
#[verifier::external_body]
fn parse_config_fields(s: &str) -> (r: Option<(Option<String>, Option<String>)>)
    ensures
        match r {
            Some(p) => config_fields_of(s@) == Some((opt_view(p.0), opt_view(p.1))),
            None => config_fields_of(s@) is None,
        },
{
    let v: serde_json::Value = serde_json::from_str(s).ok()?;
    if !v.is_object() {
        return None;
    }
    let token = match v.get("token") {
        None => None,
        Some(x) if x.is_null() => None,
        Some(x) => Some(x.as_str()?.to_string()),
    };
    let gist_id = match v.get("gist_id") {
        None => None,
        Some(x) if x.is_null() => None,
        Some(x) => Some(x.as_str()?.to_string()),
    };
    Some((token, gist_id))
}

/// What a config file's content means: empty is the default configuration,
/// anything else is read as a JSON config document or rejected.
pub open spec fn spec_read_config(s: Seq<char>) -> Option<GistConfigView> {
    if s.len() == 0 {
        Some(default_config())
    } else {
        match config_fields_of(s) {
            Some(p) => Some(GistConfigView { token: p.0, gist_id: p.1 }),
            None => None,
        }
    }
}

/// The serialized JSON form of an optional string field value.
pub open spec fn spec_opt_json(o: Option<Seq<char>>) -> Seq<char> {
    match o {
        None => "null"@,
        Some(s) => seq!['"'] + json_escape(s) + seq!['"'],
    }
}

/// The serialized JSON form of a configuration.
pub open spec fn spec_config_json(c: GistConfigView) -> Seq<char> {
    "{\"token\":"@ + spec_opt_json(c.token) + ",\"gist_id\":"@ + spec_opt_json(c.gist_id) + "}"@
}

fn append_opt_json(out: &mut String, o: &Option<String>)
    ensures
        final(out)@ == old(out)@ + spec_opt_json(opt_view(*o)),
{
    match o {
        None => {
            out.append("null");
        },
        Some(s) => {
            crate::text::push_char(out, '"');
            append_json_escaped(out, s.as_str());
            crate::text::push_char(out, '"');
            proof {
                assert(out@ =~= old(out)@ + spec_opt_json(opt_view(*o)));
            }
        },
    }
}

/// Serialize a configuration as the JSON object the config file holds.
pub fn serialize_gist_config(config: &GistConfig) -> (r: String)
    ensures
        r@ == spec_config_json(config@),
{
    let mut out = String::new();
    out.append("{\"token\":");
    append_opt_json(&mut out, &config.token);
    out.append(",\"gist_id\":");
    append_opt_json(&mut out, &config.gist_id);
    out.append("}");
    proof {
        assert(out@ =~= spec_config_json(config@));
    }
    out
}

/// Read the stored configuration from the config file's content: an absent
/// or empty file means the default configuration, not an error; any other
/// content must be a well-formed config document.
pub fn read_gist_config(content: &str) -> (r: Result<GistConfig, AppError>)
    ensures
        match r {
            Ok(c) => spec_read_config(content@) == Some(c@),
            Err(e) => spec_read_config(content@) is None && (e matches AppError::IoError(m)
                && m@ == "Failed to parse config"@),
        },
{
    if content.unicode_len() == 0 {
        Ok(GistConfig { token: None, gist_id: None })
    } else {
        match parse_config_fields(content) {
            Some(p) => Ok(GistConfig { token: p.0, gist_id: p.1 }),
            None => Err(AppError::IoError(String::from_str("Failed to parse config"))),
        }
    }
}

/// Store a token: read the current config from the file's content, replace
/// the token, and return the full new content to persist.
pub fn set_gist_token(content: &str, token: String) -> (r: Result<String, AppError>)
    ensures
        match r {
            Ok(out) => match spec_read_config(content@) {
                Some(c) => out@ == spec_config_json(
                    GistConfigView { token: Some(token@), gist_id: c.gist_id },
                ),
                None => false,
            },
            Err(e) => spec_read_config(content@) is None && (e matches AppError::IoError(m)
                && m@ == "Failed to parse config"@),
        },
{
    match read_gist_config(content) {
        Ok(c) => {
            let updated = GistConfig { token: Some(token), gist_id: c.gist_id };
            Ok(serialize_gist_config(&updated))
        },
        Err(e) => Err(e),
    }
}

/// Store a remote document id, in the same read-modify-write way.
pub fn set_gist_id(content: &str, gist_id: String) -> (r: Result<String, AppError>)
    ensures
        match r {
            Ok(out) => match spec_read_config(content@) {
                Some(c) => out@ == spec_config_json(
                    GistConfigView { token: c.token, gist_id: Some(gist_id@) },
                ),
                None => false,
            },
            Err(e) => spec_read_config(content@) is None && (e matches AppError::IoError(m)
                && m@ == "Failed to parse config"@),
        },
{
    match read_gist_config(content) {
        Ok(c) => {
            let updated = GistConfig { token: c.token, gist_id: Some(gist_id) };
            Ok(serialize_gist_config(&updated))
        },
        Err(e) => Err(e),
    }
}

/// The stored token, if any.
pub fn get_gist_token(content: &str) -> (r: Result<Option<String>, AppError>)
    ensures
        match r {
            Ok(t) => match spec_read_config(content@) {
                Some(c) => opt_view(t) == c.token,
                None => false,
            },
            Err(e) => spec_read_config(content@) is None && (e matches AppError::IoError(m)
                && m@ == "Failed to parse config"@),
        },
{
    match read_gist_config(content) {
        Ok(c) => Ok(c.token),
        Err(e) => Err(e),
    }
}

/// The stored remote document id, if any.
pub fn get_gist_id(content: &str) -> (r: Result<Option<String>, AppError>)
    ensures
        match r {
            Ok(g) => match spec_read_config(content@) {
                Some(c) => opt_view(g) == c.gist_id,
                None => false,
            },
            Err(e) => spec_read_config(content@) is None && (e matches AppError::IoError(m)
                && m@ == "Failed to parse config"@),
        },
{
    match read_gist_config(content) {
        Ok(c) => Ok(c.gist_id),
        Err(e) => Err(e),
    }
}

} // verus!
