use repomons::config::{find_origin, remotes_to_add, ConfigError, Remote};

fn remote(name: &str) -> Remote {
    Remote { name: name.to_string(), url: format!("git@example.com:{}.git", name) }
}

#[test]
fn origin_is_the_last_remote_so_named() {
    let rs = vec![remote("origin"), remote("upstream"), remote("origin")];
    assert_eq!(find_origin(&rs), Ok(2));
    assert_eq!(find_origin(&vec![remote("upstream"), remote("origin")]), Ok(1));
}

#[test]
fn no_origin_is_an_error() {
    assert_eq!(find_origin(&vec![remote("upstream")]), Err(ConfigError::NoOrigin));
    assert_eq!(find_origin(&vec![]), Err(ConfigError::NoOrigin));
}

#[test]
fn missing_remotes_other_than_origin_are_added() {
    let configured = vec![remote("origin"), remote("upstream"), remote("fork"), remote("mirror")];
    let existing = vec!["origin".to_string(), "fork".to_string()];
    assert_eq!(remotes_to_add(&configured, &existing), vec![1, 3]);
    assert_eq!(remotes_to_add(&configured, &vec![]), vec![1, 2, 3]);
    let all: Vec<String> = configured.iter().map(|r| r.name.clone()).collect();
    assert!(remotes_to_add(&configured, &all).is_empty());
}

#[test]
fn a_repeated_missing_name_is_added_once() {
    let configured = vec![remote("origin"), remote("upstream"), remote("upstream"), remote("fork"), remote("origin")];
    let existing = vec!["origin".to_string()];
    assert_eq!(remotes_to_add(&configured, &existing), vec![1, 3]);
    let existing = vec!["upstream".to_string()];
    assert_eq!(remotes_to_add(&configured, &existing), vec![3]);
}
