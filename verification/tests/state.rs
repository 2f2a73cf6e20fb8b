use ws::project::{ProjectInfo, ScanEntry};
use ws::state::{
    current_timestamp, ProjectCache, State, CACHE_TTL_SECONDS, FALLBACK_DATA_DIR, STATE_DIR,
    STATE_FILE, STATE_VERSION,
};

fn dir(category: &str, name: &str) -> ScanEntry {
    ScanEntry {
        is_dir: true,
        path: format!("/root/{}/{}", category, name),
        category: Some(category.to_string()),
        name: Some(name.to_string()),
    }
}

fn stamped(updated_at: i64, ttl: i64) -> State {
    State {
        version: STATE_VERSION,
        history: Vec::new(),
        cache: ProjectCache { projects: Vec::new(), updated_at, ttl },
    }
}

#[test]
fn default_state_is_empty() {
    let state = State::default();
    assert_eq!(state.version, 1);
    assert!(state.history.is_empty());
    assert!(state.cache.projects.is_empty());
    assert_eq!(state.cache.updated_at, 0);
    assert_eq!(state.cache.ttl, 3600);
    assert_eq!(CACHE_TTL_SECONDS, 3600);
}

#[test]
fn state_file_names() {
    assert_eq!(STATE_DIR, "ws");
    assert_eq!(STATE_FILE, "state.json");
    assert_eq!(FALLBACK_DATA_DIR, "/tmp");
}

#[test]
fn state_path_below_a_data_directory() {
    assert_eq!(
        State::state_path_in(Some("/home/u/.local/share")),
        "/home/u/.local/share/ws/state.json"
    );
    assert_eq!(State::state_path_in(Some("")), "/ws/state.json");
}

#[test]
fn state_path_without_a_data_directory_is_below_the_fallback() {
    assert_eq!(State::state_path_in(None), "/tmp/ws/state.json");
}

#[test]
fn state_path_of_this_user() {
    let expected = match dirs::data_local_dir() {
        Some(dir) => dir.join("ws").join("state.json"),
        None => std::path::PathBuf::from("/tmp/ws/state.json"),
    };
    assert_eq!(std::path::PathBuf::from(State::state_path()), expected);
    assert!(State::state_path().ends_with("/ws/state.json"));
}

#[test]
fn load_without_a_stored_record_gives_the_default() {
    assert_eq!(State::load(None), State::default());
}

#[test]
fn load_keeps_a_stored_record() {
    let mut stored = stamped(42, 7);
    stored.version = 3;
    stored.history.push("main".to_string());
    stored.cache.projects.push(ProjectInfo {
        path: "/w/a/b".to_string(),
        category: "a".to_string(),
        name: "b".to_string(),
    });
    let loaded = State::load(Some(stamped_copy(&stored)));
    assert_eq!(loaded, stored);
}

fn stamped_copy(state: &State) -> State {
    State {
        version: state.version,
        history: state.history.clone(),
        cache: ProjectCache {
            projects: state.cache.projects.clone(),
            updated_at: state.cache.updated_at,
            ttl: state.cache.ttl,
        },
    }
}

#[test]
fn cache_is_valid_within_the_ttl_and_stale_after() {
    let t: i64 = 1_700_000_000;
    let state = stamped(t, 3600);
    assert!(state.cache_valid(t + 3599));
    assert!(!state.cache_valid(t + 3601));
}

#[test]
fn cache_is_stale_at_exactly_the_ttl() {
    let t: i64 = 1_700_000_000;
    let state = stamped(t, 3600);
    assert!(state.cache_valid(t));
    assert!(!state.cache_valid(t + 3600));
    assert!(state.cache_valid(t - 10));
}

#[test]
fn never_filled_cache_is_stale() {
    let state = State::default();
    assert!(!state.cache_valid(1_700_000_000));
}

#[test]
fn cache_validity_at_the_ends_of_the_range() {
    assert!(!stamped(i64::MIN, 3600).cache_valid(i64::MAX));
    assert!(stamped(i64::MAX, 3600).cache_valid(i64::MIN));
    assert!(!stamped(0, i64::MIN).cache_valid(0));
    assert!(!stamped(5, 0).cache_valid(5));
    assert!(stamped(i64::MIN, i64::MAX).cache_valid(-2));
    assert!(!stamped(i64::MIN, i64::MAX).cache_valid(-1));
}

#[test]
fn timestamp_of_seconds() {
    assert_eq!(current_timestamp(0), 0);
    assert_eq!(current_timestamp(1_700_000_000), 1_700_000_000);
    assert_eq!(current_timestamp(i64::MAX as u64), i64::MAX);
    assert_eq!(current_timestamp(i64::MAX as u64 + 1), i64::MIN);
    assert_eq!(current_timestamp(u64::MAX), -1);
}

#[test]
fn refresh_fills_sorts_and_stamps() {
    let mut state = State::default();
    state.push_history("keep".to_string());
    let entries = vec![dir("work", "zulu"), dir("personal", "beta"), dir("work", "alpha")];
    state.refresh_cache(&entries, 99);
    let shown: Vec<String> = state.cache.projects.iter().map(|p| p.display_name()).collect();
    assert_eq!(shown, vec!["personal/beta", "work/alpha", "work/zulu"]);
    assert_eq!(state.cache.updated_at, 99);
    assert_eq!(state.cache.ttl, 3600);
    assert_eq!(state.history, vec!["keep".to_string()]);
    assert_eq!(state.version, 1);
}

#[test]
fn refresh_replaces_the_whole_cache() {
    let mut state = State::default();
    state.refresh_cache(&vec![dir("a", "one"), dir("a", "two")], 1);
    state.refresh_cache(&vec![dir("b", "three")], 2);
    assert_eq!(state.cache.projects.len(), 1);
    assert_eq!(state.cache.projects[0].display_name(), "b/three");
    assert_eq!(state.cache.updated_at, 2);
}

#[test]
fn ensure_leaves_a_valid_cache_alone() {
    let mut state = State::default();
    state.refresh_cache(&vec![dir("a", "one")], 1000);
    let mut walked = false;
    state.ensure_cache_valid(1000 + 3599, || {
        walked = true;
        vec![dir("b", "two")]
    });
    assert!(!walked);
    assert_eq!(state.cache.projects.len(), 1);
    assert_eq!(state.cache.projects[0].display_name(), "a/one");
    assert_eq!(state.cache.updated_at, 1000);
}

#[test]
fn ensure_refreshes_a_stale_cache() {
    let mut state = State::default();
    state.refresh_cache(&vec![dir("a", "one")], 1000);
    let mut walked = false;
    state.ensure_cache_valid(1000 + 3600, || {
        walked = true;
        vec![dir("b", "two"), dir("a", "zero")]
    });
    assert!(walked);
    let shown: Vec<String> = state.cache.projects.iter().map(|p| p.display_name()).collect();
    assert_eq!(shown, vec!["a/zero", "b/two"]);
    assert_eq!(state.cache.updated_at, 4600);
}
