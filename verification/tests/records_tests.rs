use vrcaster::config::{delete_profile, generate_access_key, get_profile, merge_profiles, save_profile};
use vrcaster::history::{add_history, delete_history, MAX_ENTRIES};
use vrcaster::types::{AuthKind, HistoryEntry, ServerProfile};

fn profile(id: &str, name: &str) -> ServerProfile {
    ServerProfile {
        id: id.to_string(),
        name: name.to_string(),
        host: "h".to_string(),
        port: 22,
        username: "u".to_string(),
        auth_kind: AuthKind::Password,
        private_key_path: None,
        remote_dir: "/d".to_string(),
        url_prefix: "http://h".to_string(),
        access_key: "k".to_string(),
    }
}

fn entry(id: &str) -> HistoryEntry {
    HistoryEntry {
        id: id.to_string(),
        file_name: format!("{id}.mp4"),
        output_path: format!("/o/{id}.mp4"),
        url: format!("http://h/{id}.mp4?key=k"),
        size_bytes: 10,
        created_at: "2024-01-01 10:00".to_string(),
        profile_name: "home".to_string(),
    }
}

#[test]
fn profile_lookup() {
    let ps = vec![profile("a", "A"), profile("b", "B")];
    assert_eq!(get_profile(&ps, "b"), Ok(profile("b", "B")));
    assert_eq!(get_profile(&ps, "c"), Err("未找到 profile: c".to_string()));
    assert_eq!(get_profile(&Vec::new(), "a"), Err("未找到 profile: a".to_string()));
}

#[test]
fn saving_replaces_or_appends() {
    let mut ps = vec![profile("a", "A"), profile("b", "B")];
    save_profile(&mut ps, profile("a", "A2"));
    assert_eq!(ps, vec![profile("a", "A2"), profile("b", "B")]);
    save_profile(&mut ps, profile("c", "C"));
    assert_eq!(ps, vec![profile("a", "A2"), profile("b", "B"), profile("c", "C")]);
    assert_eq!(get_profile(&ps, "a"), Ok(profile("a", "A2")));
}

#[test]
fn deleting_profiles() {
    let mut ps = vec![profile("a", "A"), profile("b", "B"), profile("a", "A again")];
    assert!(delete_profile(&mut ps, "a"));
    assert_eq!(ps, vec![profile("b", "B")]);
    assert!(!delete_profile(&mut ps, "zz"));
    assert_eq!(ps, vec![profile("b", "B")]);
    assert!(get_profile(&ps, "a").is_err());
}

#[test]
fn importing_merges_profiles() {
    let mut ps = vec![profile("a", "A"), profile("b", "B")];
    merge_profiles(&mut ps, vec![profile("b", "B2"), profile("c", "C"), profile("c", "C2")]);
    assert_eq!(ps, vec![profile("a", "A"), profile("b", "B2"), profile("c", "C2")]);
}

#[test]
fn access_keys_are_32_hex_digits() {
    let a = generate_access_key();
    let b = generate_access_key();
    assert_eq!(a.len(), 32);
    assert!(a.chars().all(|c| c.is_ascii_digit() || ('a'..='f').contains(&c)));
    assert_ne!(a, b);
}

#[test]
fn history_newest_first_without_duplicates() {
    let mut h = vec![entry("x"), entry("y")];
    add_history(&mut h, entry("y"));
    assert_eq!(h, vec![entry("y"), entry("x")]);
    add_history(&mut h, entry("z"));
    assert_eq!(h, vec![entry("z"), entry("y"), entry("x")]);
    delete_history(&mut h, "y");
    assert_eq!(h, vec![entry("z"), entry("x")]);
}

#[test]
fn history_is_capped() {
    let mut h: Vec<HistoryEntry> = (0..MAX_ENTRIES).map(|i| entry(&i.to_string())).collect();
    add_history(&mut h, entry("new"));
    assert_eq!(h.len(), MAX_ENTRIES);
    assert_eq!(h[0], entry("new"));
    assert_eq!(h[MAX_ENTRIES - 1], entry(&(MAX_ENTRIES - 2).to_string()));
}
