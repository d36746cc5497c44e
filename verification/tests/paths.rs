use fs_provision::paths::{ancestor_prefixes, chain_of, parent_of};

#[test]
fn parent_of_nested_path() {
    assert_eq!(parent_of("a/b/c"), Some("a/b".to_string()));
}

#[test]
fn parent_of_bare_filename() {
    assert_eq!(parent_of("name.txt"), None);
}

#[test]
fn parent_of_path_at_root() {
    assert_eq!(parent_of("/out.txt"), Some(String::new()));
}

#[test]
fn parent_of_absolute_path() {
    assert_eq!(parent_of("/tmp/app/data/out.txt"), Some("/tmp/app/data".to_string()));
}

#[test]
fn ancestors_of_nested_path() {
    assert_eq!(ancestor_prefixes("a/b/c"), vec!["a".to_string(), "a/b".to_string()]);
}

#[test]
fn ancestors_of_absolute_path() {
    assert_eq!(
        ancestor_prefixes("/tmp/app/data/out.txt"),
        vec!["/tmp".to_string(), "/tmp/app".to_string(), "/tmp/app/data".to_string()]
    );
}

#[test]
fn ancestors_of_bare_filename() {
    assert_eq!(ancestor_prefixes("name.txt"), Vec::<String>::new());
}

#[test]
fn chain_of_nested_path() {
    assert_eq!(
        chain_of("a/b/c"),
        vec!["a".to_string(), "a/b".to_string(), "a/b/c".to_string()]
    );
}

#[test]
fn chain_of_empty_path() {
    assert_eq!(chain_of(""), Vec::<String>::new());
}
