//! The unified release metadata published as a gist.

use crate::config::metadata::AppMetadata;
use crate::protocol::types::opt_text;
use crate::services::downloader::{offers_update, should_offer_update};
use crate::text::same_text;
use vstd::prelude::*;

verus! {

/// A released version and where to get it.
#[derive(Debug)]
pub struct VersionInfo {
    pub latest_version: String,
    pub download_url: String,
    pub release_notes: String,
}

/// The published dictionary version.
#[derive(Debug)]
pub struct RemoteDictionary {
    pub version: String,
    pub updated_at: String,
}

/// The latest app, model and dictionary releases.
#[derive(Debug)]
pub struct GistMetadata {
    pub app: VersionInfo,
    pub model: VersionInfo,
    pub dictionary: RemoteDictionary,
}

/// Which updates to offer, with the release data.
#[derive(Debug)]
pub struct UpdateCheckResult {
    pub app_update_available: bool,
    pub model_update_available: bool,
    pub dict_update_available: bool,
    pub remote_data: GistMetadata,
}

/// Decides which updates to offer: an app or model release that differs from
/// what is installed and was not ignored, and a dictionary version that
/// differs from the installed one.
pub fn evaluate_updates(remote_data: GistMetadata, metadata: &AppMetadata, current_app_version: &str) -> (r:
    UpdateCheckResult)
    ensures
        r.app_update_available == offers_update(
            remote_data.app.latest_version@,
            current_app_version@,
            opt_text(metadata.ignored_app_version),
        ),
        r.model_update_available == offers_update(
            remote_data.model.latest_version@,
            metadata.current_model_version@,
            opt_text(metadata.ignored_model_version),
        ),
        r.dict_update_available == (remote_data.dictionary.version@ != metadata.current_dict_version@),
        r.remote_data == remote_data,
{
    let app_update_available = should_offer_update(
        &remote_data.app.latest_version,
        current_app_version,
        &metadata.ignored_app_version,
    );
    let model_update_available = should_offer_update(
        &remote_data.model.latest_version,
        metadata.current_model_version.as_str(),
        &metadata.ignored_model_version,
    );
    let dict_update_available = !same_text(
        remote_data.dictionary.version.as_str(),
        metadata.current_dict_version.as_str(),
    );
    UpdateCheckResult { app_update_available, model_update_available, dict_update_available, remote_data }
}

/// Records that the user ignores `version` of the app (`target` "app") or of
/// the model ("model"); any other target changes nothing.
pub fn ignore_update(metadata: &mut AppMetadata, target: &str, version: String)
    ensures
        target@ == "app"@ ==> final(metadata).ignored_app_version == Some(version)
            && final(metadata).ignored_model_version == old(metadata).ignored_model_version,
        target@ == "model"@ ==> final(metadata).ignored_model_version == Some(version)
            && final(metadata).ignored_app_version == old(metadata).ignored_app_version,
        target@ != "app"@ && target@ != "model"@ ==> final(metadata).ignored_app_version == old(
            metadata,
        ).ignored_app_version && final(metadata).ignored_model_version == old(
            metadata,
        ).ignored_model_version,
        final(metadata).current_model_version == old(metadata).current_model_version,
        final(metadata).current_dict_version == old(metadata).current_dict_version,
        final(metadata).last_update_check == old(metadata).last_update_check,
{
    proof {
        reveal_strlit("app");
        reveal_strlit("model");
        assert("app"@.len() != "model"@.len());
    }
    if same_text(target, "app") {
        metadata.ignored_app_version = Some(version);
    } else if same_text(target, "model") {
        metadata.ignored_model_version = Some(version);
    }
}

} // verus!
