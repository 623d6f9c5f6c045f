//! Plain data carried between the catalog, the installed-addon store and
//! the installation logic.  All fields are plain values; the collaborators
//! that produce them (HTTP, JSON, the database) live outside the library.

use vstd::prelude::*;

verus! {

/// The addon catalog: every addon available for installation.
#[derive(Debug, Clone)]
pub struct AddonIndex {
    /// Catalog format version.
    pub version: String,
    /// When the catalog was generated.
    pub generated_at: String,
    /// Total number of addons.
    pub addon_count: usize,
    /// The addon entries.
    pub addons: Vec<IndexAddon>,
    /// When this copy was fetched, if known.
    pub fetched_at: Option<String>,
}

/// One addon entry of the catalog.
#[derive(Debug, Clone)]
pub struct IndexAddon {
    /// Stable lowercase identifier, unique within the catalog.
    pub slug: String,
    /// Display name.
    pub name: String,
    pub description: String,
    pub authors: Vec<String>,
    pub license: Option<String>,
    pub tags: Vec<String>,
    /// Link to the addon's documentation or homepage.
    pub url: Option<String>,
    pub source: AddonSource,
    pub compatibility: AddonCompatibility,
    /// Explicit extraction instructions.
    pub install: InstallInfo,
    pub latest_release: Option<AddonRelease>,
    /// Version metadata precomputed by the catalog.
    pub version_info: Option<VersionInfo>,
    /// Alternative byte sources, in priority order.
    pub download_sources: Vec<DownloadSource>,
    /// When the addon was last updated, if known.
    pub last_updated: Option<String>,
}

/// Where an addon's source code lives.
#[derive(Debug, Clone)]
pub struct AddonSource {
    /// Kind of host, e.g. "github".
    pub source_type: String,
    /// Repository identifier, e.g. "owner/name".
    pub repo: String,
    /// Branch that the addon tracks.
    pub branch: String,
    /// Path within the repository for monorepo layouts.
    pub path: Option<String>,
}

/// Catalog-provided extraction instructions.
#[derive(Debug, Clone)]
pub struct InstallInfo {
    /// Installation method, e.g. "branch" or "github_release".
    pub method: String,
    /// Subtree of the archive to extract, if not the root.
    pub extract_path: Option<String>,
    /// Destination folder name in the addon directory.
    pub target_folder: String,
    /// Glob patterns naming entries to leave out.
    pub excludes: Vec<String>,
}

/// Compatibility constraints and dependencies of a catalog addon.
#[derive(Debug, Clone)]
pub struct AddonCompatibility {
    pub api_version: Option<String>,
    pub game_versions: Vec<String>,
    pub required_dependencies: Vec<String>,
    pub optional_dependencies: Vec<String>,
}

/// A released build of an addon.
#[derive(Debug, Clone)]
pub struct AddonRelease {
    pub version: String,
    pub download_url: String,
    pub published_at: Option<String>,
    pub file_size: Option<u64>,
    pub checksum: Option<String>,
    /// Commit the release was built from.
    pub commit_sha: Option<String>,
    /// Commit date, for branch-based releases.
    pub commit_date: Option<String>,
    /// Commit message, for branch-based releases.
    pub commit_message: Option<String>,
}

/// One alternative byte source for an addon archive.
#[derive(Debug, Clone)]
pub struct DownloadSource {
    /// Kind of source, e.g. "jsdelivr" or "github_archive".
    pub source_type: String,
    /// Download URL.
    pub url: String,
    /// Free-form note about the source.
    pub note: Option<String>,
}

/// Normalized semantic version components from the catalog.
#[derive(Debug, Clone)]
pub struct VersionNormalized {
    pub major: Option<i32>,
    pub minor: Option<i32>,
    pub patch: Option<i32>,
    pub prerelease: Option<String>,
}

/// Version metadata precomputed by the catalog for fast comparison.
#[derive(Debug, Clone)]
pub struct VersionInfo {
    /// Parsed components; absent for branch-based releases.
    pub version_normalized: Option<VersionNormalized>,
    /// Precomputed sort key for direct integer comparison.
    pub version_sort_key: Option<i64>,
    /// Whether the release is a pre-release.
    pub is_prerelease: Option<bool>,
    /// Release channel: "stable", "prerelease" or "branch".
    pub release_channel: Option<String>,
    /// Commit message, for branch-based releases.
    pub commit_message: Option<String>,
}

/// A cached copy of the catalog as stored by the collaborating database.
#[derive(Debug, Clone)]
pub struct IndexCache {
    pub id: i64,
    pub data: String,
    pub fetched_at: String,
    pub etag: Option<String>,
}

/// Where an installed addon came from.
#[derive(Debug, Clone, PartialEq, Eq, Structural)]
pub enum SourceType {
    Index,
    Github,
    Local,
}

impl SourceType {
    /// The lowercase name of the source kind, in place of `Display`.
    pub fn name(&self) -> (r: String)
        ensures
            match self {
                SourceType::Index => r@ == "index"@,
                SourceType::Github => r@ == "github"@,
                SourceType::Local => r@ == "local"@,
            },
    {
        match self {
            SourceType::Index => String::from_str("index"),
            SourceType::Github => String::from_str("github"),
            SourceType::Local => String::from_str("local"),
        }
    }
}

/// An addon recorded as installed on the local system.
#[derive(Debug, Clone)]
pub struct InstalledAddon {
    pub id: i64,
    pub slug: String,
    pub name: String,
    pub installed_version: String,
    pub source_type: SourceType,
    pub source_repo: Option<String>,
    pub installed_at: String,
    pub updated_at: String,
    pub auto_update: bool,
    /// Path of the addon's manifest file.
    pub manifest_path: String,
    /// Precomputed sort key of the installed version, if the catalog gave one.
    pub version_sort_key: Option<i64>,
    /// Commit the install was built from, for branch-tracked installs.
    pub commit_sha: Option<String>,
}

/// A tracked repository outside the catalog.
#[derive(Debug, Clone)]
pub struct CustomRepo {
    pub id: i64,
    pub repo: String,
    pub branch: String,
    pub release_type: ReleaseType,
    pub added_at: String,
    pub last_checked: Option<String>,
}

/// What kind of build a tracked repository installs from.
#[derive(Debug, Clone, PartialEq, Eq, Structural)]
pub enum ReleaseType {
    Release,
    Branch,
}

impl ReleaseType {
    /// The lowercase name of the release kind, in place of `Display`.
    pub fn name(&self) -> (r: String)
        ensures
            match self {
                ReleaseType::Release => r@ == "release"@,
                ReleaseType::Branch => r@ == "branch"@,
            },
    {
        match self {
            ReleaseType::Release => String::from_str("release"),
            ReleaseType::Branch => String::from_str("branch"),
        }
    }
}

/// A parsed addon manifest.
#[derive(Debug, Clone)]
pub struct AddonManifest {
    /// Required title.
    pub title: String,
    pub api_version: Option<String>,
    pub author: Option<String>,
    pub version: Option<String>,
    pub description: Option<String>,
    /// Required dependencies declared by the manifest.
    pub dependencies: Vec<String>,
    pub optional_dependencies: Vec<String>,
    /// Saved-variable names declared by the manifest.
    pub saved_variables: Vec<String>,
    /// Source files referenced by the manifest body.
    pub files: Vec<String>,
}

/// An available update for an installed addon.
#[derive(Debug, Clone)]
pub struct UpdateInfo {
    pub slug: String,
    pub name: String,
    pub current_version: String,
    pub new_version: String,
    pub download_url: String,
    pub source_type: SourceType,
    pub source_repo: Option<String>,
    /// Extraction instructions from the catalog, when it has the addon.
    pub install_info: Option<InstallInfo>,
}

/// The stage an install request is in.
#[derive(Debug, Clone, PartialEq, Eq, Structural)]
pub enum DownloadStatus {
    Pending,
    Downloading,
    Extracting,
    Complete,
    Failed,
}

/// Version tracking hints handed along with an install request.
#[derive(Debug, Clone)]
pub struct VersionTracking {
    /// Precomputed sort key from the catalog.
    pub version_sort_key: Option<i64>,
    /// Commit identifier for branch-tracked installs.
    pub commit_sha: Option<String>,
}

/// Application settings.
#[derive(Debug, Clone)]
pub struct AppSettings {
    /// Custom addon directory, when auto-detection is not wanted.
    pub eso_addon_path: Option<String>,
    /// Whether to check for updates on startup.
    pub check_updates_on_startup: bool,
    /// Whether to update addons automatically.
    pub auto_update: bool,
    /// Theme preference.
    pub theme: Theme,
    /// Catalog source URL override.
    pub index_url: Option<String>,
}

impl Default for AppSettings {
    /// Settings as they stand before the user changes anything.
    fn default() -> (r: AppSettings)
        ensures
            r.eso_addon_path is None,
            r.check_updates_on_startup == true,
            r.auto_update == false,
            r.theme == Theme::System,
            r.index_url is None,
    {
        AppSettings {
            eso_addon_path: None,
            check_updates_on_startup: true,
            auto_update: false,
            theme: Theme::System,
            index_url: None,
        }
    }
}

/// User interface theme preference.
#[derive(Debug, Clone, PartialEq, Eq, Structural)]
pub enum Theme {
    System,
    Light,
    Dark,
}

/// Summary information about a repository host's repository.
#[derive(Debug, Clone)]
pub struct GitHubRepoInfo {
    pub name: String,
    pub description: Option<String>,
    pub default_branch: String,
    pub stars: u64,
    pub updated_at: Option<String>,
    pub has_releases: bool,
}

/// The latest release of a repository, as reported by its host.
#[derive(Debug, Clone)]
pub struct GitHubReleaseInfo {
    pub tag_name: String,
    pub name: Option<String>,
    pub download_url: String,
    pub published_at: Option<String>,
}

/// One branch of a repository.
#[derive(Debug, Clone)]
pub struct GitHubBranch {
    pub name: String,
    pub is_default: bool,
}

/// Statistics over the cached catalog.
#[derive(Debug, Clone)]
pub struct IndexStats {
    pub total_addons: usize,
    pub fetched_at: String,
}

/// An addon found by scanning the addon directory.
#[derive(Debug, Clone)]
pub struct ScannedAddon {
    /// Title from the manifest.
    pub name: String,
    /// Path of the addon's folder.
    pub path: String,
    pub manifest: AddonManifest,
    /// Whether the addon has a saved-variables file on disk.
    pub has_saved_variables: bool,
}

} // verus!
