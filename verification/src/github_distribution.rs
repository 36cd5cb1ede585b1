//! GitHub release metadata as read by update discovery and asset selection.
use vstd::prelude::*;

verus! {

/// The checked provenance of an installed GitHub package.
#[derive(Debug, Clone)]
pub struct GitHubSource {
    pub repository_url: String,
    pub owner: String,
    pub repository: String,
    pub repository_id: Option<u64>,
    pub owner_id: Option<u64>,
    pub release_id: u64,
    pub tag: String,
    pub asset_id: u64,
    pub asset_name: String,
    pub asset_url: String,
    pub asset_size: u64,
    pub sha256: String,
    pub upstream_digest_verified: bool,
}

/// One downloadable file of a release.
#[derive(Debug, Clone)]
pub struct GitHubAsset {
    pub id: u64,
    pub name: String,
    pub size: u64,
    pub content_type: String,
    pub download_url: String,
    pub digest: Option<String>,
    pub download_count: Option<u64>,
}

/// One published release.
#[derive(Debug, Clone)]
pub struct GitHubRelease {
    pub id: u64,
    pub tag: String,
    pub name: String,
    pub url: String,
    pub prerelease: bool,
    pub published_at: Option<String>,
    pub assets: Vec<GitHubAsset>,
}

/// The releases listed for one repository; `truncated` when the listing
/// did not reach the oldest release.
#[derive(Debug, Clone)]
pub struct ReleaseCatalog {
    pub repository_url: String,
    pub truncated: bool,
    pub requested_tag: Option<String>,
    pub requested_asset: Option<String>,
    pub releases: Vec<GitHubRelease>,
}

} // verus!
