use eso_addon_manager::archive::{
    extract_archive, extract_archive_with_options, find_addon_root, matches_glob_pattern,
    should_exclude, ArchiveEntry, DirView,
};
use eso_addon_manager::installer::{
    get_manifest_path, has_addon_content, pick_addon_name, FsFile,
};
use eso_addon_manager::models::InstallInfo;
use eso_addon_manager::paths::join_path;

fn entry(path: &[&str], is_dir: bool) -> ArchiveEntry {
    ArchiveEntry {
        path: path.iter().map(|s| s.to_string()).collect(),
        is_dir,
    }
}

fn info(target: &str, extract_path: Option<&str>, excludes: &[&str]) -> InstallInfo {
    InstallInfo {
        method: "github_release".to_string(),
        extract_path: extract_path.map(|s| s.to_string()),
        target_folder: target.to_string(),
        excludes: excludes.iter().map(|s| s.to_string()).collect(),
    }
}

#[test]
fn test_glob_patterns() {
    assert!(matches_glob_pattern("readme.psd", "*.psd"));
    assert!(!matches_glob_pattern("readme.txt", "*.psd"));
    assert!(matches_glob_pattern(".git", ".*"));
    assert!(!matches_glob_pattern("git", ".*"));
    assert!(matches_glob_pattern("notes.bak", "*bak"));
    assert!(matches_glob_pattern("exact", "exact"));
    assert!(!matches_glob_pattern("other", "exact"));
}

#[test]
fn test_should_exclude_any_component() {
    let comps = vec!["art".to_string(), ".hidden".to_string(), "f.tga".to_string()];
    let excludes = vec!["*.psd".to_string(), ".*".to_string()];
    assert!(should_exclude(&comps, &excludes));

    let clean = vec!["art".to_string(), "f.tga".to_string()];
    assert!(!should_exclude(&clean, &excludes));
}

#[test]
fn test_extraction_excludes() {
    let entries = vec![
        entry(&["pkg-main"], true),
        entry(&["pkg-main", "Mod.txt"], false),
        entry(&["pkg-main", "icon.psd"], false),
        entry(&["pkg-main", ".github"], true),
        entry(&["pkg-main", ".github", "ci.yml"], false),
        entry(&["pkg-main", "lib", "Mod.lua"], false),
    ];
    let opts = info("Mod", None, &["*.psd", ".*"]);
    let planned = extract_archive_with_options(&entries, Some(&opts));

    let paths: Vec<Vec<String>> = planned.iter().map(|e| e.path.clone()).collect();
    assert_eq!(
        paths,
        vec![
            vec!["Mod.txt".to_string()],
            vec!["lib".to_string(), "Mod.lua".to_string()],
        ]
    );
}

#[test]
fn test_extraction_strips_wrapper() {
    let entries = vec![
        entry(&["pkg-main"], true),
        entry(&["pkg-main", "a.txt"], false),
        entry(&["pkg-main", "sub"], true),
        entry(&["pkg-main", "sub", "b.lua"], false),
    ];
    let planned = extract_archive(&entries);
    let paths: Vec<Vec<String>> = planned.iter().map(|e| e.path.clone()).collect();
    assert_eq!(
        paths,
        vec![
            vec!["a.txt".to_string()],
            vec!["sub".to_string()],
            vec!["sub".to_string(), "b.lua".to_string()],
        ]
    );
}

#[test]
fn test_extraction_with_extract_path() {
    let entries = vec![
        entry(&["repo-main"], true),
        entry(&["repo-main", "Addon"], true),
        entry(&["repo-main", "Addon", "Addon.txt"], false),
        entry(&["repo-main", "other", "x.lua"], false),
    ];
    let opts = info("Addon", Some("Addon"), &[]);
    let planned = extract_archive_with_options(&entries, Some(&opts));
    let paths: Vec<Vec<String>> = planned.iter().map(|e| e.path.clone()).collect();
    assert_eq!(paths, vec![vec!["Addon.txt".to_string()]]);
}

#[test]
fn test_install_scenario() {
    // Catalog entry slug "libfoo" with target folder "LibFoo"; the
    // archive wraps the content in a version-suffixed top folder.
    let entries = vec![
        entry(&["libfoo-main"], true),
        entry(&["libfoo-main", "LibFoo.txt"], false),
        entry(&["libfoo-main", "LibFoo.lua"], false),
    ];
    let opts = info("LibFoo", None, &[]);
    let planned = extract_archive_with_options(&entries, Some(&opts));
    let names: Vec<String> = planned.iter().map(|e| e.path.join("/")).collect();
    assert_eq!(names, vec!["LibFoo.txt".to_string(), "LibFoo.lua".to_string()]);

    let files = vec![
        FsFile {
            name: "LibFoo.txt".to_string(),
            text: Some("## Title: LibFoo".to_string()),
        },
        FsFile {
            name: "LibFoo.lua".to_string(),
            text: Some("-- code".to_string()),
        },
    ];
    assert!(has_addon_content(&files));
    let manifest = get_manifest_path("LibFoo", &files).unwrap();
    assert_eq!(join_path("LibFoo", &manifest), "LibFoo/LibFoo.txt");
}

#[test]
fn test_manifest_fallback_search() {
    let files = vec![
        FsFile {
            name: "readme.md".to_string(),
            text: Some("hi".to_string()),
        },
        FsFile {
            name: "Other.txt".to_string(),
            text: Some("## Title: Other".to_string()),
        },
    ];
    assert_eq!(get_manifest_path("Addon", &files), Some("Other.txt".to_string()));

    let none = vec![FsFile {
        name: "readme.md".to_string(),
        text: Some("## Title: X".to_string()),
    }];
    assert_eq!(get_manifest_path("Addon", &none), None);
}

#[test]
fn test_extraction_skips_traversal_entries() {
    // Decoded entry names are untrusted: parent-directory and empty
    // components must never reach the plan.
    let entries = vec![
        entry(&["pkg-main"], true),
        entry(&["pkg-main", "..", "..", "evil.txt"], false),
        entry(&["pkg-main", "", "odd.txt"], false),
        entry(&["..", "escape.txt"], false),
        entry(&["pkg-main", "ok.txt"], false),
    ];
    let planned = extract_archive(&entries);
    let paths: Vec<Vec<String>> = planned.iter().map(|e| e.path.clone()).collect();
    assert_eq!(paths, vec![vec!["ok.txt".to_string()]]);
}

fn manifest_file(name: &str, title: &str) -> FsFile {
    FsFile {
        name: name.to_string(),
        text: Some(format!("## Title: {}", title)),
    }
}

#[test]
fn test_dot_named_files_are_not_manifests() {
    // A name that is only an extension has no extension at all.
    let files = vec![
        FsFile {
            name: ".txt".to_string(),
            text: Some("## Title: Hidden".to_string()),
        },
        FsFile {
            name: ".addon".to_string(),
            text: Some("## Title: Hidden".to_string()),
        },
    ];
    assert!(!has_addon_content(&files));
    assert_eq!(get_manifest_path("Thing", &files), None);
}

fn dir(path: &[&str], files: Vec<FsFile>) -> DirView {
    DirView {
        path: path.iter().map(|s| s.to_string()).collect(),
        files,
    }
}

#[test]
fn test_find_addon_root_prefers_shallow_and_skips_examples() {
    let dirs = vec![
        dir(&[], vec![]),
        dir(&["_example"], vec![manifest_file("Ex.txt", "Ex")]),
        dir(&["zeta"], vec![manifest_file("Zeta.txt", "Zeta")]),
        dir(&["alpha"], vec![manifest_file("Alpha.txt", "Alpha")]),
        dir(&["alpha", "inner"], vec![manifest_file("Inner.txt", "Inner")]),
    ];
    // depth 1 beats depth 2; "alpha" beats "zeta"; "_example" is skipped
    assert_eq!(find_addon_root(&dirs), Some(3));

    let none = vec![dir(&[], vec![]), dir(&["_test_fixture"], vec![manifest_file("T.txt", "T")])];
    assert_eq!(find_addon_root(&none), None);
}

#[test]
fn test_find_addon_root_takes_root_itself() {
    let dirs = vec![
        dir(&[], vec![manifest_file("Top.txt", "Top")]),
        dir(&["sub"], vec![manifest_file("Sub.txt", "Sub")]),
    ];
    assert_eq!(find_addon_root(&dirs), Some(0));
}

#[test]
fn test_pick_addon_name() {
    let names = vec![
        "_example_addon.txt".to_string(),
        "WarMask.txt".to_string(),
        "ZOther.txt".to_string(),
    ];
    assert_eq!(pick_addon_name(&names), Some("WarMask".to_string()));
    assert_eq!(pick_addon_name(&vec![]), None);
    let tie = vec!["B.txt".to_string(), "A.txt".to_string()];
    assert_eq!(pick_addon_name(&tie), Some("A".to_string()));
}
