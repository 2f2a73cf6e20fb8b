use ws::commands::{
    handle_back_command, handle_kill_command, handle_pick_command, handle_refresh_command,
    handle_selection, kill_candidates, selection_query, KillPlan,
};
use ws::error::WsError;
use ws::project::{ProjectInfo, ScanEntry};
use ws::selection::{SelectableItem, Selection};
use ws::state::State;
use ws::tmux::{SessionInfo, TmuxClient};

fn state_with(history: &[&str]) -> State {
    let mut state = State::default();
    state.history = history.iter().map(|s| s.to_string()).collect();
    state
}

fn names(list: &[&str]) -> Vec<String> {
    list.iter().map(|s| s.to_string()).collect()
}

fn alpha() -> ProjectInfo {
    ProjectInfo {
        path: "/w/work/alpha".to_string(),
        category: "work".to_string(),
        name: "alpha".to_string(),
    }
}

#[test]
fn killing_the_current_session_switches_to_the_previous() {
    let mut state = state_with(&["P", "S"]);
    let plan = handle_kill_command(&mut state, &names(&["P", "S"]), Some(1), Ok("S"));
    assert_eq!(
        plan,
        Ok(Some(KillPlan {
            kill: names(&["kill-session", "-t", "S"]),
            switch: Some(names(&["switch-client", "-t", "P"])),
        }))
    );
    assert_eq!(state.history, names(&["P"]));
}

#[test]
fn killing_another_session_does_not_switch() {
    let mut state = state_with(&["P", "S"]);
    let plan = handle_kill_command(&mut state, &names(&["P", "S", "T"]), Some(2), Ok("S"));
    assert_eq!(plan, Ok(Some(KillPlan { kill: names(&["kill-session", "-t", "T"]), switch: None })));
    assert_eq!(state.history, names(&["P", "S"]));
    let plan = handle_kill_command(&mut state, &names(&["P", "S"]), Some(0), Ok("S"));
    assert_eq!(plan, Ok(Some(KillPlan { kill: names(&["kill-session", "-t", "P"]), switch: None })));
    assert_eq!(state.history, names(&["S"]));
}

#[test]
fn killing_the_only_entry_of_the_history_does_not_switch() {
    let mut state = state_with(&["S"]);
    let plan = handle_kill_command(&mut state, &names(&["S"]), Some(0), Ok("S"));
    assert_eq!(plan, Ok(Some(KillPlan { kill: names(&["kill-session", "-t", "S"]), switch: None })));
    assert!(state.history.is_empty());
}

#[test]
fn killing_with_an_empty_history_does_not_switch() {
    let mut state = state_with(&[]);
    let plan = handle_kill_command(&mut state, &names(&["S"]), Some(0), Ok("S"));
    assert_eq!(plan, Ok(Some(KillPlan { kill: names(&["kill-session", "-t", "S"]), switch: None })));
}

#[test]
fn killing_fails_where_the_current_session_is_unknown() {
    let mut state = state_with(&["P", "S"]);
    let plan =
        handle_kill_command(&mut state, &names(&["P", "S"]), Some(1), Err(WsError::NoCurrentSession));
    assert_eq!(plan, Err(WsError::NoCurrentSession));
    assert_eq!(state.history, names(&["P", "S"]));
    let plan =
        handle_kill_command(&mut state, &names(&["P", "S"]), None, Err(WsError::NoCurrentSession));
    assert_eq!(plan, Err(WsError::NoCurrentSession));
    assert_eq!(state.history, names(&["P", "S"]));
}

#[test]
fn killing_after_a_failed_answer_of_the_multiplexer_fails() {
    let mut state = state_with(&["P", "S"]);
    let current = TmuxClient::current_session(false, "");
    let current = current.as_ref().map(|name| name.as_str()).map_err(|failure| *failure);
    let plan = handle_kill_command(&mut state, &names(&["P", "S"]), Some(0), current);
    assert_eq!(plan, Err(WsError::NoCurrentSession));
    assert_eq!(state, state_with(&["P", "S"]));
}

#[test]
fn killing_the_previous_session_itself_does_not_switch_to_it() {
    let mut state = state_with(&["A", "S", "B"]);
    let plan = handle_kill_command(&mut state, &names(&["S"]), Some(0), Ok("S"));
    assert_eq!(plan, Ok(Some(KillPlan { kill: names(&["kill-session", "-t", "S"]), switch: None })));
    assert_eq!(state.history, names(&["A", "B"]));
}

#[test]
fn giving_up_the_kill_changes_nothing() {
    let mut state = state_with(&["P", "S"]);
    assert_eq!(handle_kill_command(&mut state, &names(&["P", "S"]), None, Ok("S")), Ok(None));
    assert_eq!(state.history, names(&["P", "S"]));
}

#[test]
fn kill_candidates_are_the_session_names() {
    let sessions = vec![
        SessionInfo { name: "one".to_string(), last_active: 1 },
        SessionInfo { name: "two".to_string(), last_active: 2 },
    ];
    assert_eq!(kill_candidates(&sessions), Some(names(&["one", "two"])));
}

#[test]
fn without_sessions_there_is_nothing_to_kill() {
    assert_eq!(kill_candidates(&Vec::new()), None);
}

#[test]
fn back_switches_to_the_previous_and_promotes_it() {
    let mut state = state_with(&["A", "B", "C"]);
    assert_eq!(handle_back_command(&mut state), Some(names(&["switch-client", "-t", "B"])));
    assert_eq!(state.history, names(&["A", "C", "B"]));
    assert_eq!(handle_back_command(&mut state), Some(names(&["switch-client", "-t", "C"])));
    assert_eq!(state.history, names(&["A", "B", "C"]));
}

#[test]
fn back_with_one_entry_goes_to_it() {
    let mut state = state_with(&["A"]);
    assert_eq!(handle_back_command(&mut state), Some(names(&["switch-client", "-t", "A"])));
    assert_eq!(state.history, names(&["A"]));
}

#[test]
fn back_with_an_empty_history_does_nothing() {
    let mut state = state_with(&[]);
    assert_eq!(handle_back_command(&mut state), None);
    assert_eq!(state, State::default());
}

#[test]
fn selecting_a_session_enters_it() {
    let mut state = state_with(&["old"]);
    let item = SelectableItem::Session("main".to_string());
    assert_eq!(selection_query(&item), None);
    let commands = handle_selection(&item, &mut state, true, true);
    assert_eq!(commands, vec![names(&["switch-client", "-t", "main"])]);
    assert_eq!(state.history, names(&["old", "main"]));
    let commands = handle_selection(&item, &mut state, false, false);
    assert_eq!(commands, vec![names(&["attach-session", "-t", "main"])]);
    assert_eq!(state.history, names(&["old", "main"]));
}

#[test]
fn selecting_a_project_without_a_session_creates_one() {
    let mut state = state_with(&[]);
    let item = SelectableItem::Project(alpha());
    assert_eq!(selection_query(&item), Some(names(&["has-session", "-t", "alpha"])));
    let commands = handle_selection(&item, &mut state, false, true);
    assert_eq!(
        commands,
        vec![
            names(&[
                "new-session",
                "-d",
                "-s",
                "alpha",
                "-c",
                "/w/work/alpha",
                "-n",
                "editor",
                "fish -C \"hx\""
            ]),
            names(&["new-window", "-t", "alpha:9", "-c", "/w/work/alpha", "-n", "files", "fx"]),
            names(&["select-window", "-t", "alpha:1"]),
            names(&["switch-client", "-t", "alpha"]),
        ]
    );
    assert_eq!(state.history, names(&["alpha"]));
}

#[test]
fn selecting_a_project_with_a_session_only_enters_it() {
    let mut state = state_with(&["alpha", "beta"]);
    let item = SelectableItem::Project(alpha());
    let commands = handle_selection(&item, &mut state, true, false);
    assert_eq!(commands, vec![names(&["attach-session", "-t", "alpha"])]);
    assert_eq!(state.history, names(&["beta", "alpha"]));
}

#[test]
fn pick_command_resolves_the_row() {
    let sessions = vec![SessionInfo { name: "main".to_string(), last_active: 0 }];
    let projects = vec![alpha()];
    let list = Selection::build(&sessions, &projects, true);
    assert_eq!(handle_pick_command(&list, None), Ok(None));
    assert_eq!(handle_pick_command(&list, Some(1)), Ok(None));
    assert_eq!(
        handle_pick_command(&list, Some(0)),
        Ok(Some(SelectableItem::Session("main".to_string())))
    );
    assert_eq!(handle_pick_command(&list, Some(2)), Ok(Some(SelectableItem::Project(alpha()))));
    assert_eq!(handle_pick_command(&list, Some(3)), Err(WsError::InvalidSelection));
}

#[test]
fn refresh_command_counts_the_projects() {
    let mut state = state_with(&["keep"]);
    let entries = vec![
        ScanEntry {
            is_dir: true,
            path: "/w/b/y".to_string(),
            category: Some("b".to_string()),
            name: Some("y".to_string()),
        },
        ScanEntry {
            is_dir: false,
            path: "/w/b/file".to_string(),
            category: Some("b".to_string()),
            name: Some("file".to_string()),
        },
        ScanEntry {
            is_dir: true,
            path: "/w/a/x".to_string(),
            category: Some("a".to_string()),
            name: Some("x".to_string()),
        },
    ];
    assert_eq!(handle_refresh_command(&mut state, &entries, 77), 2);
    assert_eq!(state.cache.projects[0].display_name(), "a/x");
    assert_eq!(state.cache.projects[1].display_name(), "b/y");
    assert_eq!(state.cache.updated_at, 77);
    assert_eq!(state.history, names(&["keep"]));
}
