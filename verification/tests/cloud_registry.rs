use kosmos_explorer::cloud::{CloudConfig, CloudState};

fn names(list: &[CloudConfig]) -> Vec<String> {
    list.iter().map(|c| c.name.clone()).collect()
}

#[test]
fn new_registry_is_empty() {
    let state = CloudState::new();
    assert!(state.clouds().is_empty());
}

#[test]
fn add_trims_trailing_slashes_and_has_no_token() {
    let mut state = CloudState::new();
    let list = state.add("Work".to_string(), "https://cloud.example.org///");
    assert_eq!(list.len(), 1);
    assert_eq!(list[0].name, "Work");
    assert_eq!(list[0].url, "https://cloud.example.org");
    assert_eq!(list[0].bearer, None);
}

#[test]
fn add_keeps_url_without_slash_unchanged() {
    let mut state = CloudState::new();
    let list = state.add("Home".to_string(), "https://home.example");
    assert_eq!(list[0].url, "https://home.example");
}

#[test]
fn add_appends_in_order() {
    let mut state = CloudState::new();
    state.add("A".to_string(), "https://a.example");
    let list = state.add("B".to_string(), "https://b.example/");
    assert_eq!(names(&list), vec!["A", "B"]);
    assert_eq!(list[1].url, "https://b.example");
}

#[test]
fn add_then_remove_last_restores_list() {
    let mut state = CloudState::new();
    state.add("A".to_string(), "https://a.example");
    state.add("B".to_string(), "https://b.example");
    let before = names(&state.clouds());
    state.add("C".to_string(), "https://c.example");
    assert!(state.remove(2));
    assert_eq!(names(&state.clouds()), before);
}

#[test]
fn remove_out_of_range_changes_nothing() {
    let mut state = CloudState::new();
    state.add("A".to_string(), "https://a.example");
    assert!(!state.remove(1));
    assert_eq!(names(&state.clouds()), vec!["A"]);
}

#[test]
fn remove_keeps_the_others_in_order() {
    let mut state = CloudState::new();
    state.add("A".to_string(), "https://a.example");
    state.add("B".to_string(), "https://b.example");
    state.add("C".to_string(), "https://c.example");
    assert!(state.remove(1));
    assert_eq!(names(&state.clouds()), vec!["A", "C"]);
}

#[test]
fn update_bearer_sets_only_that_token() {
    let mut state = CloudState::new();
    state.add("A".to_string(), "https://a.example");
    state.add("B".to_string(), "https://b.example");
    assert!(state.update_bearer(1, "tok".to_string()));
    let list = state.clouds();
    assert_eq!(list[0].bearer, None);
    assert_eq!(list[1].bearer, Some("tok".to_string()));
    assert_eq!(list[1].name, "B");
    assert_eq!(list[1].url, "https://b.example");
}

#[test]
fn update_bearer_last_token_wins() {
    let mut state = CloudState::new();
    state.add("A".to_string(), "https://a.example");
    state.update_bearer(0, "first".to_string());
    state.update_bearer(0, "second".to_string());
    assert_eq!(state.clouds()[0].bearer, Some("second".to_string()));
}

#[test]
fn update_bearer_out_of_range_changes_nothing() {
    let mut state = CloudState::new();
    state.add("A".to_string(), "https://a.example");
    assert!(!state.update_bearer(3, "tok".to_string()));
    assert_eq!(state.clouds()[0].bearer, None);
}

#[test]
fn load_replaces_the_list() {
    let mut state = CloudState::new();
    state.add("Old".to_string(), "https://old.example");
    let loaded = vec![CloudConfig {
        name: "Disk".to_string(),
        url: "https://disk.example/".to_string(),
        bearer: Some("t".to_string()),
    }];
    let list = state.load(loaded);
    assert_eq!(names(&list), vec!["Disk"]);
    assert_eq!(list[0].url, "https://disk.example/");
    assert_eq!(state.clouds()[0].bearer, Some("t".to_string()));
}

#[test]
fn duplicate_copies_every_field() {
    let c = CloudConfig {
        name: "N".to_string(),
        url: "https://u".to_string(),
        bearer: Some("b".to_string()),
    };
    let d = c.duplicate();
    assert_eq!(d.name, c.name);
    assert_eq!(d.url, c.url);
    assert_eq!(d.bearer, c.bearer);
}
