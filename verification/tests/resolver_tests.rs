use eso_addon_manager::models::{
    AddonCompatibility, AddonIndex, AddonRelease, AddonSource, IndexAddon, InstallInfo,
    InstalledAddon, SourceType,
};
use eso_addon_manager::resolver::resolve_dependencies;

fn create_test_addon(slug: &str, name: &str, deps: Vec<&str>) -> IndexAddon {
    IndexAddon {
        slug: slug.to_string(),
        name: name.to_string(),
        description: "Test addon".to_string(),
        authors: vec!["Author".to_string()],
        license: None,
        tags: vec![],
        url: None,
        source: AddonSource {
            source_type: "github".to_string(),
            repo: "test/repo".to_string(),
            branch: "main".to_string(),
            path: None,
        },
        compatibility: AddonCompatibility {
            api_version: None,
            game_versions: vec![],
            required_dependencies: deps.into_iter().map(String::from).collect(),
            optional_dependencies: vec![],
        },
        install: InstallInfo {
            method: "branch".to_string(),
            extract_path: None,
            target_folder: slug.to_string(),
            excludes: vec![],
        },
        latest_release: Some(AddonRelease {
            version: "1.0.0".to_string(),
            download_url: format!("https://example.com/{}.zip", slug),
            published_at: None,
            file_size: None,
            checksum: None,
            commit_sha: None,
            commit_date: None,
            commit_message: None,
        }),
        version_info: None,
        download_sources: vec![],
        last_updated: None,
    }
}

fn make_index(addons: Vec<IndexAddon>) -> AddonIndex {
    AddonIndex {
        version: "1.0".to_string(),
        generated_at: "2024-01-01".to_string(),
        addon_count: addons.len(),
        addons,
        fetched_at: None,
    }
}

fn installed_record(slug: &str, folder: &str) -> InstalledAddon {
    InstalledAddon {
        id: 1,
        slug: slug.to_string(),
        name: slug.to_string(),
        installed_version: "1.0".to_string(),
        source_type: SourceType::Index,
        source_repo: None,
        installed_at: "2024-01-01".to_string(),
        updated_at: "2024-01-01".to_string(),
        auto_update: false,
        manifest_path: format!("/addons/{}/{}.txt", folder, folder),
        version_sort_key: None,
        commit_sha: None,
    }
}

#[test]
fn test_no_dependencies() {
    let index = make_index(vec![create_test_addon("test-addon", "Test Addon", vec![])]);

    let result = resolve_dependencies("test-addon", &index, &[]);

    assert!(result.resolved.is_empty());
    assert!(result.already_installed.is_empty());
    assert!(result.unresolved.is_empty());
}

#[test]
fn test_single_dependency() {
    let index = make_index(vec![
        create_test_addon("test-addon", "Test Addon", vec!["lib-addon"]),
        create_test_addon("lib-addon", "Lib Addon", vec![]),
    ]);

    let result = resolve_dependencies("test-addon", &index, &[]);

    assert_eq!(result.resolved.len(), 1);
    assert_eq!(result.resolved[0].slug, "lib-addon");
    assert!(result.already_installed.is_empty());
    assert!(result.unresolved.is_empty());
}

#[test]
fn test_unresolved_dependency() {
    let index = make_index(vec![create_test_addon(
        "test-addon",
        "Test Addon",
        vec!["unknown-lib"],
    )]);

    let result = resolve_dependencies("test-addon", &index, &[]);

    assert!(result.resolved.is_empty());
    assert!(result.already_installed.is_empty());
    assert_eq!(result.unresolved.len(), 1);
    assert_eq!(result.unresolved[0], "unknown-lib");
}

#[test]
fn test_dependency_cycle() {
    let index = make_index(vec![
        create_test_addon("addon-a", "Addon A", vec!["addon-b"]),
        create_test_addon("addon-b", "Addon B", vec!["addon-a"]),
    ]);

    let result = resolve_dependencies("addon-a", &index, &[]);

    let b_count = result.resolved.iter().filter(|r| r.slug == "addon-b").count();
    let a_count = result.resolved.iter().filter(|r| r.slug == "addon-a").count();
    assert_eq!(b_count, 1);
    assert!(a_count <= 1);
    assert!(result.unresolved.is_empty());
}

#[test]
fn test_dependency_chain_order() {
    let index = make_index(vec![
        create_test_addon("addon-a", "Addon A", vec!["addon-b"]),
        create_test_addon("addon-b", "Addon B", vec!["addon-c"]),
        create_test_addon("addon-c", "Addon C", vec![]),
    ]);

    let result = resolve_dependencies("addon-a", &index, &[]);

    assert_eq!(result.resolved.len(), 2);
    assert_eq!(result.resolved[0].slug, "addon-c");
    assert_eq!(result.resolved[0].depth, 1);
    assert_eq!(result.resolved[1].slug, "addon-b");
    assert_eq!(result.resolved[1].depth, 0);
}

#[test]
fn test_installed_dependency_never_listed() {
    let index = make_index(vec![
        create_test_addon("test-addon", "Test Addon", vec!["Lib-Addon"]),
        create_test_addon("lib-addon", "Lib Addon", vec![]),
    ]);
    let installed = vec![installed_record("lib-addon", "LibAddon")];

    let result = resolve_dependencies("test-addon", &index, &installed);

    assert!(result.resolved.is_empty());
    assert!(result.unresolved.is_empty());
    assert_eq!(result.already_installed, vec!["Lib-Addon".to_string()]);
}

#[test]
fn test_branch_fallback_url() {
    let mut lib = create_test_addon("lib-addon", "Lib Addon", vec![]);
    lib.latest_release = None;
    let index = make_index(vec![
        create_test_addon("test-addon", "Test Addon", vec!["lib-addon"]),
        lib,
    ]);

    let result = resolve_dependencies("test-addon", &index, &[]);

    assert_eq!(result.resolved.len(), 1);
    assert_eq!(
        result.resolved[0].download_url,
        "https://api.github.com/repos/test/repo/zipball/main"
    );
    assert_eq!(result.resolved[0].version, "main-latest");
}

#[test]
fn test_no_url_is_unresolved() {
    let mut lib = create_test_addon("lib-addon", "Lib Addon", vec![]);
    lib.latest_release = None;
    lib.source.source_type = "gitlab".to_string();
    let index = make_index(vec![
        create_test_addon("test-addon", "Test Addon", vec!["lib-addon"]),
        lib,
    ]);

    let result = resolve_dependencies("test-addon", &index, &[]);

    assert!(result.resolved.is_empty());
    assert_eq!(result.unresolved, vec!["lib-addon".to_string()]);
}

#[test]
fn test_has_dependencies_flags() {
    let index = make_index(vec![
        create_test_addon("test-addon", "Test Addon", vec!["lib-addon", "unknown-lib"]),
        create_test_addon("lib-addon", "Lib Addon", vec![]),
    ]);

    let result = resolve_dependencies("test-addon", &index, &[]);
    assert!(result.has_dependencies());
    assert!(result.has_unresolved());

    let empty = resolve_dependencies("absent", &index, &[]);
    assert!(!empty.has_dependencies());
    assert!(!empty.has_unresolved());
}
