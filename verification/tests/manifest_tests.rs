use eso_addon_manager::chars::{str_cmp, to_lower};
use eso_addon_manager::downloader::{candidate_urls, get_best_download_url, get_github_branch_url};
use eso_addon_manager::error::AppError;
use eso_addon_manager::manifest::{get_addon_name_from_path, parse_dependency_list};
use eso_addon_manager::models::DownloadSource;
use eso_addon_manager::paths::{
    get_database_path, get_eso_addon_path_with_custom, get_saved_variables_path,
    manifest_parent_folder,
};

#[test]
fn test_parse_dependency_list() {
    let deps = Some("LibAddonMenu-2.0 LibStub".to_string());
    let result = parse_dependency_list(deps.as_ref());
    assert_eq!(result, vec!["LibAddonMenu-2.0", "LibStub"]);
}

#[test]
fn test_parse_dependency_list_empty() {
    let result = parse_dependency_list(None);
    assert!(result.is_empty());
}

#[test]
fn test_addon_name_from_path() {
    assert_eq!(
        get_addon_name_from_path("/addons/WarMask/WarMask.txt"),
        Some("WarMask".to_string())
    );
    assert_eq!(get_addon_name_from_path("Plain"), Some("Plain".to_string()));
}

#[test]
fn test_manifest_parent_folder() {
    assert_eq!(
        manifest_parent_folder("/AddOns/LibAddonMenu/LibAddonMenu.txt"),
        Some("LibAddonMenu".to_string())
    );
    assert_eq!(manifest_parent_folder("loose.txt"), None);
}

#[test]
fn test_paths() {
    assert_eq!(
        get_database_path("/data/app"),
        "/data/app/eso-addon-manager.db"
    );
    assert_eq!(
        get_saved_variables_path("/docs/ESO/live/AddOns"),
        Some("/docs/ESO/live/SavedVariables".to_string())
    );
    assert_eq!(
        get_eso_addon_path_with_custom(Some("/custom"), true, Some("/default".to_string())),
        Some("/custom".to_string())
    );
    assert_eq!(
        get_eso_addon_path_with_custom(Some("/custom"), false, Some("/default".to_string())),
        Some("/default".to_string())
    );
}

fn source(kind: &str, url: &str) -> DownloadSource {
    DownloadSource {
        source_type: kind.to_string(),
        url: url.to_string(),
        note: None,
    }
}

#[test]
fn test_best_download_url() {
    let sources = vec![
        source("jsdelivr", "https://cdn.example/file.lua"),
        source("github_archive", "https://gh.example/a.zip"),
    ];
    assert_eq!(
        get_best_download_url(&sources, None),
        Some("https://gh.example/a.zip".to_string())
    );

    let zip_only = vec![
        source("jsdelivr", "https://cdn.example/file.lua"),
        source("jsdelivr", "https://cdn.example/pack.zip"),
    ];
    assert_eq!(
        get_best_download_url(&zip_only, None),
        Some("https://cdn.example/pack.zip".to_string())
    );

    let none = vec![source("jsdelivr", "https://cdn.example/file.lua")];
    assert_eq!(
        get_best_download_url(&none, Some("https://fallback.example/x.zip")),
        Some("https://fallback.example/x.zip".to_string())
    );
    assert_eq!(get_best_download_url(&none, None), None);
}

#[test]
fn test_error_messages() {
    assert_eq!(
        AppError::Download("all sources failed".to_string()).message(),
        "Download failed: all sources failed"
    );
    assert_eq!(
        AppError::InvalidManifest("no title".to_string()).message(),
        "Invalid manifest: no title"
    );
    assert_eq!(
        AppError::EsoDirectoryNotFound.message(),
        "ESO directory not found"
    );
}

#[test]
fn test_string_helpers() {
    assert_eq!(to_lower("LibAddonMenu"), "libaddonmenu");
    assert_eq!(str_cmp("alpha", "beta"), std::cmp::Ordering::Less);
    assert_eq!(str_cmp("beta", "beta"), std::cmp::Ordering::Equal);
}

#[test]
fn test_candidate_urls_order() {
    let sources = vec![
        source("jsdelivr", "https://cdn.example/pack.zip"),
        source("github_archive", "https://gh.example/a.zip"),
        source("jsdelivr", "https://cdn.example/file.lua"),
        source("github_archive", "https://gh.example/b.zip"),
    ];
    let urls = candidate_urls(&sources, Some("https://fallback.example/x.zip"));
    assert_eq!(
        urls,
        vec![
            "https://gh.example/a.zip".to_string(),
            "https://gh.example/b.zip".to_string(),
            "https://cdn.example/pack.zip".to_string(),
            "https://fallback.example/x.zip".to_string(),
        ]
    );
    assert!(candidate_urls(&vec![], None).is_empty());
}

#[test]
fn test_github_branch_url() {
    assert_eq!(
        get_github_branch_url("owner/repo", "main"),
        "https://github.com/owner/repo/archive/refs/heads/main.zip"
    );
}
