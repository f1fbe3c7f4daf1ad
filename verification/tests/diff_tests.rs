use pacdef::backend::{Backend, BackendError, BackendKind};
use pacdef::group::{group_file_paths, sorted_group_names, Declaration, Group};
use pacdef::order::{contains_name, insert_sorted, str_eq, str_lt};

fn names(v: &[&str]) -> Vec<String> {
    v.iter().map(|s| s.to_string()).collect()
}

fn group(name: &str, section: &str, packages: &[&str]) -> Group {
    Group {
        name: name.to_string(),
        entries: packages
            .iter()
            .map(|p| Declaration { section: section.to_string(), package: p.to_string() })
            .collect(),
    }
}

#[test]
fn str_order_basics() {
    assert!(str_lt("abc", "abd"));
    assert!(!str_lt("abd", "abc"));
    assert!(str_lt("ab", "abc"));
    assert!(!str_lt("abc", "ab"));
    assert!(!str_lt("abc", "abc"));
    assert!(str_lt("", "a"));
    assert!(!str_lt("a", ""));
    assert!(str_eq("same", "same"));
    assert!(!str_eq("same", "sama"));
    assert!(!str_eq("same", "sam"));
}

#[test]
fn contains_and_insert() {
    let mut v = names(&["b", "d"]);
    assert!(contains_name(&v, "b"));
    assert!(!contains_name(&v, "c"));
    insert_sorted(&mut v, "c".to_string());
    assert_eq!(v, names(&["b", "c", "d"]));
    insert_sorted(&mut v, "a".to_string());
    assert_eq!(v, names(&["a", "b", "c", "d"]));
    insert_sorted(&mut v, "c".to_string());
    assert_eq!(v, names(&["a", "b", "c", "d"]));
    insert_sorted(&mut v, "e".to_string());
    assert_eq!(v, names(&["a", "b", "c", "d", "e"]));
}

#[test]
fn load_keeps_own_section_only() {
    let groups = vec![group("base", "pkg", &["vim", "git"]), group("tools", "lang", &["serde"])];
    let mut b = Backend::new(BackendKind::Pkg);
    assert!(!b.loaded);
    b.load(&groups);
    assert!(b.loaded);
    assert_eq!(b.declared, names(&["git", "vim"]));
    let mut l = Backend::new(BackendKind::Lang);
    l.load(&groups);
    assert_eq!(l.declared, names(&["serde"]));
}

#[test]
fn load_unions_duplicate_declarations() {
    let groups = vec![group("base", "pkg", &["vim", "git"]), group("extra", "pkg", &["git", "zsh"])];
    let mut b = Backend::new(BackendKind::Pkg);
    b.load(&groups);
    assert_eq!(b.declared, names(&["git", "vim", "zsh"]));
}

#[test]
fn load_twice_is_idempotent() {
    let groups = vec![group("base", "pkg", &["zsh", "vim", "git"])];
    let mut b = Backend::new(BackendKind::Pkg);
    b.load(&groups);
    let first = b.declared.clone();
    b.load(&groups);
    assert_eq!(b.declared, first);
}

#[test]
fn missing_is_sorted_difference() {
    let groups = vec![group("base", "pkg", &["zsh", "vim", "alpha", "git"])];
    let mut b = Backend::new(BackendKind::Pkg);
    b.load(&groups);
    let diff = b.diff_missing(&names(&["git"]));
    assert_eq!(diff, names(&["alpha", "vim", "zsh"]));
    let none_installed = b.diff_missing(&names(&[]));
    assert_eq!(none_installed, names(&["alpha", "git", "vim", "zsh"]));
}

#[test]
fn unmanaged_is_sorted_difference() {
    let groups = vec![group("base", "pkg", &["vim"])];
    let mut b = Backend::new(BackendKind::Pkg);
    b.load(&groups);
    let diff = b.diff_unmanaged(&names(&["zsh", "curl", "vim", "curl"]));
    assert_eq!(diff, names(&["curl", "zsh"]));
}

#[test]
fn base_group_scenario() {
    let groups = vec![group("base", "pkg", &["vim", "git"])];
    let mut b = Backend::new(BackendKind::Pkg);
    b.load(&groups);
    let missing = b.diff_missing(&names(&["git", "curl"]));
    assert_eq!(missing, names(&["vim"]));
    let unmanaged = b.diff_unmanaged(&names(&["git", "curl"]));
    assert_eq!(unmanaged, names(&["curl"]));
}

#[test]
fn empty_sets_give_empty_diffs() {
    let groups: Vec<Group> = Vec::new();
    let mut b = Backend::new(BackendKind::Pkg);
    b.load(&groups);
    assert_eq!(b.declared, names(&[]));
    assert_eq!(b.diff_missing(&names(&[])), names(&[]));
    assert_eq!(b.diff_unmanaged(&names(&[])), names(&[]));
}

#[test]
fn query_failure_passes_through() {
    let groups = vec![group("base", "pkg", &["vim"])];
    let mut b = Backend::new(BackendKind::Pkg);
    b.load(&groups);
    let r = b.get_missing_packages_sorted(&Err(BackendError::Unavailable));
    assert_eq!(r, Err(BackendError::Unavailable));
    let r2 = b.get_unmanaged_packages_sorted(&Err(BackendError::QueryFailure));
    assert_eq!(r2, Err(BackendError::QueryFailure));
    let ok = b.get_missing_packages_sorted(&Ok(names(&[])));
    assert_eq!(ok, Ok(names(&["vim"])));
}

#[test]
fn sections_are_stable() {
    assert_eq!(Backend::new(BackendKind::Pkg).get_section(), "pkg");
    assert_eq!(Backend::new(BackendKind::Lang).get_section(), "lang");
}

#[test]
fn group_names_are_sorted_and_unique() {
    let groups = vec![
        group("tools", "pkg", &[]),
        group("base", "pkg", &[]),
        group("audio", "lang", &[]),
        group("base", "pkg", &["vim"]),
    ];
    assert_eq!(sorted_group_names(&groups), names(&["audio", "base", "tools"]));
}

#[test]
fn names_are_compared_exactly_not_normalized() {
    // Uppercase code points order before lowercase ones, and differently
    // cased names are different packages.
    assert!(str_lt("Zebra", "apple"));
    assert!(!str_eq("Vim", "vim"));
    let groups = vec![group("base", "pkg", &["Vim"])];
    let mut b = Backend::new(BackendKind::Pkg);
    b.load(&groups);
    assert_eq!(b.diff_missing(&names(&["vim"])), names(&["Vim"]));
}

#[test]
fn group_paths_join_with_slash() {
    let paths = group_file_paths("/home/user/.config/pacdef/groups", &names(&["base", "dev"]));
    assert_eq!(
        paths,
        names(&["/home/user/.config/pacdef/groups/base", "/home/user/.config/pacdef/groups/dev"])
    );
}
