//! The earlier release metadata: app and model only.

use crate::config::metadata::AppMetadata;
use crate::protocol::types::opt_text;
use crate::services::downloader::gist::VersionInfo;
use crate::services::downloader::{offers_update, should_offer_update};
use vstd::prelude::*;

verus! {

/// The latest app and model releases.
#[derive(Debug)]
pub struct RemoteVersions {
    pub app: VersionInfo,
    pub model: VersionInfo,
}

/// Which updates to offer, with the release data.
#[derive(Debug)]
pub struct UpdateCheckResult {
    pub app_update_available: bool,
    pub model_update_available: bool,
    pub remote_data: RemoteVersions,
}

/// Decides which app and model updates to offer.
pub fn evaluate_updates(remote_data: RemoteVersions, metadata: &AppMetadata, current_app_version: &str) -> (r:
    UpdateCheckResult)
    ensures
        r.app_update_available == offers_update(
            remote_data.app.latest_version@,
            current_app_version@,
            opt_text(metadata.ignored_app_version),
        ),
        r.model_update_available == offers_update(
            remote_data.model.latest_version@,
            metadata.current_model_version@,
            opt_text(metadata.ignored_model_version),
        ),
        r.remote_data == remote_data,
{
    let app_update_available = should_offer_update(
        &remote_data.app.latest_version,
        current_app_version,
        &metadata.ignored_app_version,
    );
    let model_update_available = should_offer_update(
        &remote_data.model.latest_version,
        metadata.current_model_version.as_str(),
        &metadata.ignored_model_version,
    );
    UpdateCheckResult { app_update_available, model_update_available, remote_data }
}

} // verus!
