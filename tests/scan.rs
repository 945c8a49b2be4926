use dev_cleaner::clean::{artifact_dirs, reclaimed_bytes, ArtifactOutcome};
use dev_cleaner::project::{
    classify_dir, get_composer_variants, get_npm_variants, get_project, get_project_base_type,
    get_variants, str_equals, str_starts_with, ProjectBaseType, ProjectVariant, WalkedDir,
};
use dev_cleaner::utils::{dir_size, get_content, ContentType, EntryMeta, ListedEntry};
use dev_cleaner::{list_projects, Error};

fn file(name: &str) -> ListedEntry {
    ListedEntry { name: name.to_string(), is_file: true }
}

fn folder(name: &str) -> ListedEntry {
    ListedEntry { name: name.to_string(), is_file: false }
}

fn walked(path: &str, listing: Option<Vec<ListedEntry>>, size: u64) -> WalkedDir {
    WalkedDir { path: path.to_string(), listing, size }
}

fn names(v: &[&str]) -> Vec<String> {
    v.iter().map(|s| s.to_string()).collect()
}

#[test]
fn marker_names_are_matched_exactly() {
    assert_eq!(get_project_base_type("composer.json"), Some(ProjectBaseType::Composer));
    assert_eq!(get_project_base_type("package.json"), Some(ProjectBaseType::NPM));
    assert_eq!(get_project_base_type("Cargo.toml"), Some(ProjectBaseType::Cargo));
    assert_eq!(get_project_base_type("cargo.toml"), None);
    assert_eq!(get_project_base_type("package.json.bak"), None);
    assert_eq!(get_project_base_type("package.jso"), None);
    assert_eq!(get_project_base_type(""), None);
}

#[test]
fn string_helpers() {
    assert!(str_equals("abc", "abc"));
    assert!(!str_equals("abc", "abd"));
    assert!(!str_equals("abc", "ab"));
    assert!(str_starts_with("next.config.js", "next.config."));
    assert!(!str_starts_with("next.config", "next.config."));
    assert!(str_starts_with("x", ""));
}

#[test]
fn one_marker_gives_one_project_of_its_type() {
    for (marker, base) in [
        ("Cargo.toml", ProjectBaseType::Cargo),
        ("composer.json", ProjectBaseType::Composer),
        ("package.json", ProjectBaseType::NPM),
    ] {
        let dir = walked("/p", Some(vec![file("README.md"), file(marker), folder("src")]), 7);
        let projects = list_projects(Ok(vec![dir])).unwrap();
        assert_eq!(projects.len(), 1);
        assert_eq!(projects[0].base_type, base);
        assert_eq!(projects[0].path, "/p");
        assert_eq!(projects[0].size, 7);
    }
}

#[test]
fn no_marker_no_project() {
    let dir = walked("/p", Some(vec![file("README.md"), folder("src")]), 0);
    assert_eq!(classify_dir(&dir.listing), None);
    assert!(get_project(&dir).is_none());
    assert!(list_projects(Ok(vec![dir])).unwrap().is_empty());
}

#[test]
fn marker_that_is_a_directory_is_ignored() {
    let dir = walked("/p", Some(vec![folder("package.json")]), 0);
    assert!(get_project(&dir).is_none());
}

#[test]
fn first_marker_in_listing_order_wins() {
    let listing = Some(vec![file("package.json"), file("Cargo.toml")]);
    assert_eq!(classify_dir(&listing), Some(ProjectBaseType::NPM));
    let listing = Some(vec![file("Cargo.toml"), file("package.json")]);
    assert_eq!(classify_dir(&listing), Some(ProjectBaseType::Cargo));
}

#[test]
fn npm_with_angular_json() {
    let dir = walked("/web", Some(vec![file("package.json"), file("angular.json")]), 0);
    let p = get_project(&dir).unwrap();
    assert_eq!(p.base_type, ProjectBaseType::NPM);
    assert!(p.variants.contains(&ProjectVariant::Angular));
}

#[test]
fn composer_with_symfony_lock() {
    let dir = walked("/php", Some(vec![file("composer.json"), file("symfony.lock")]), 0);
    let p = get_project(&dir).unwrap();
    assert_eq!(p.base_type, ProjectBaseType::Composer);
    assert_eq!(p.variants, vec![ProjectVariant::Symfony]);
}

#[test]
fn npm_variants_in_listing_order() {
    let content = names(&[
        "gatsby-config.js",
        "README.md",
        "next.config.mjs",
        "docusaurus.config.ts",
        "angular.json",
        "next.config",
        "angular.json.bak",
    ]);
    assert_eq!(
        get_npm_variants(&content),
        vec![
            ProjectVariant::Gatsby,
            ProjectVariant::NextJS,
            ProjectVariant::Docusaurus,
            ProjectVariant::Angular,
        ]
    );
}

#[test]
fn composer_variants() {
    assert_eq!(get_composer_variants(&names(&["symfony.lock"])), vec![ProjectVariant::Symfony]);
    assert!(get_composer_variants(&names(&["symfony.lock.dist", "vendor"])).is_empty());
}

#[test]
fn variants_depend_on_base_type() {
    let content = names(&["symfony.lock", "angular.json"]);
    assert_eq!(get_variants(&content, ProjectBaseType::Cargo), vec![]);
    assert_eq!(get_variants(&content, ProjectBaseType::Composer), vec![ProjectVariant::Symfony]);
    assert_eq!(get_variants(&content, ProjectBaseType::NPM), vec![ProjectVariant::Angular]);
}

#[test]
fn variants_see_directories_too() {
    let dir = walked("/web", Some(vec![file("package.json"), folder("next.config.d")]), 0);
    assert_eq!(get_project(&dir).unwrap().variants, vec![ProjectVariant::NextJS]);
}

#[test]
fn project_without_variants_has_empty_sequence() {
    let dir = walked("/web", Some(vec![file("package.json")]), 0);
    assert!(get_project(&dir).unwrap().variants.is_empty());
}

#[test]
fn content_filtering() {
    let listing = vec![file("a"), folder("b"), file("c")];
    assert_eq!(get_content(&listing, ContentType::All), names(&["a", "b", "c"]));
    assert_eq!(get_content(&listing, ContentType::Files), names(&["a", "c"]));
}

#[test]
fn size_of_empty_directory_is_zero() {
    assert_eq!(dir_size(&vec![]), 0);
    assert_eq!(dir_size(&vec![EntryMeta { is_file: false, len: 4096 }]), 0);
}

#[test]
fn size_sums_regular_files() {
    let entries = vec![
        EntryMeta { is_file: false, len: 4096 },
        EntryMeta { is_file: true, len: 10 },
        EntryMeta { is_file: true, len: 20 },
        EntryMeta { is_file: true, len: 30 },
    ];
    assert_eq!(dir_size(&entries), 60);
}

#[test]
fn size_saturates() {
    let entries = vec![
        EntryMeta { is_file: true, len: u64::MAX - 1 },
        EntryMeta { is_file: true, len: 5 },
    ];
    assert_eq!(dir_size(&entries), u64::MAX);
}

#[test]
fn artifact_directories_per_type() {
    assert_eq!(artifact_dirs(ProjectBaseType::Cargo), names(&["target"]));
    assert_eq!(artifact_dirs(ProjectBaseType::Composer), names(&["vendor"]));
    assert_eq!(artifact_dirs(ProjectBaseType::NPM), names(&["node_modules"]));
}

#[test]
fn reclaimed_bytes_are_remeasured() {
    let outcomes = vec![
        ArtifactOutcome { size_before: 100, size_after: 0 },
        ArtifactOutcome { size_before: 50, size_after: 20 },
        ArtifactOutcome { size_before: 5, size_after: 9 },
    ];
    assert_eq!(reclaimed_bytes(&outcomes), 130);
    assert_eq!(reclaimed_bytes(&vec![]), 0);
}

#[test]
fn second_clean_reclaims_nothing() {
    let outcomes = vec![ArtifactOutcome { size_before: 0, size_after: 0 }];
    assert_eq!(reclaimed_bytes(&outcomes), 0);
}

#[test]
fn nested_project_reported_independently() {
    let dirs = vec![
        walked("/rs", Some(vec![file("Cargo.toml"), folder("examples"), folder("target")]), 900),
        walked("/rs/examples", Some(vec![folder("web")]), 0),
        walked("/rs/examples/web", Some(vec![file("package.json")]), 40),
    ];
    let projects = list_projects(Ok(dirs)).unwrap();
    assert_eq!(projects.len(), 2);
    assert_eq!(projects[0].path, "/rs");
    assert_eq!(projects[0].base_type, ProjectBaseType::Cargo);
    assert_eq!(projects[1].path, "/rs/examples/web");
    assert_eq!(projects[1].base_type, ProjectBaseType::NPM);
}

#[test]
fn unreadable_sibling_does_not_stop_scan() {
    let dirs = vec![
        walked("/a", None, 0),
        walked("/b", Some(vec![file("composer.json")]), 3),
    ];
    let projects = list_projects(Ok(dirs)).unwrap();
    assert_eq!(projects.len(), 1);
    assert_eq!(projects[0].path, "/b");
}

#[test]
fn root_failure_is_reported() {
    let r = list_projects(Err(Error::Io("not found".to_string())));
    match r {
        Err(Error::Io(m)) => assert_eq!(m, "not found"),
        Ok(_) => panic!("expected an error"),
    }
}
