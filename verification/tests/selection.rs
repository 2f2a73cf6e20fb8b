use ws::error::WsError;
use ws::project::ProjectInfo;
use ws::selection::{
    offered_sessions, resolve_index, Resolved, SelectableItem, Selection, SEPARATOR,
};
use ws::tmux::SessionInfo;

fn sessions(n: usize) -> Vec<SessionInfo> {
    (0..n).map(|i| SessionInfo { name: format!("s{}", i), last_active: i as i64 }).collect()
}

fn projects(n: usize) -> Vec<ProjectInfo> {
    (0..n)
        .map(|i| ProjectInfo {
            path: format!("/w/cat/proj{}", i),
            category: "cat".to_string(),
            name: format!("proj{}", i),
        })
        .collect()
}

#[test]
fn labels_of_items() {
    assert_eq!(SelectableItem::Session("main".to_string()).to_display_string(), "session: main");
    let p = ProjectInfo {
        path: "/w/work/alpha".to_string(),
        category: "work".to_string(),
        name: "alpha".to_string(),
    };
    assert_eq!(SelectableItem::Project(p).to_display_string(), "project: work/alpha");
}

#[test]
fn session_names_of_items() {
    assert_eq!(SelectableItem::Session("main".to_string()).session_name(), "main");
    let p = ProjectInfo {
        path: "/w/work/alpha".to_string(),
        category: "work".to_string(),
        name: "alpha".to_string(),
    };
    assert_eq!(SelectableItem::Project(p).session_name(), "alpha");
}

#[test]
fn separator_row_maps_to_nothing_and_later_rows_shift() {
    let ss = sessions(2);
    let ps = projects(3);
    let list = Selection::build(&ss, &ps, true);
    assert!(list.separator);
    assert_eq!(
        list.rows,
        vec![
            "session: s0",
            "session: s1",
            "---",
            "project: cat/proj0",
            "project: cat/proj1",
            "project: cat/proj2"
        ]
    );
    assert_eq!(list.resolve(2), Ok(None));
    assert_eq!(list.resolve(3), Ok(Some(SelectableItem::Project(ps[0].clone()))));
    assert_eq!(list.resolve(1), Ok(Some(SelectableItem::Session("s1".to_string()))));
    assert_eq!(list.resolve(0), Ok(Some(SelectableItem::Session("s0".to_string()))));
    assert_eq!(list.resolve(5), Ok(Some(SelectableItem::Project(ps[2].clone()))));
    assert_eq!(list.resolve(6), Err(WsError::InvalidSelection));
    assert_eq!(list.resolve(usize::MAX), Err(WsError::InvalidSelection));
}

#[test]
fn without_sessions_there_is_no_separator() {
    let ps = projects(3);
    let list = Selection::build(&Vec::new(), &ps, true);
    assert!(!list.separator);
    assert_eq!(list.rows, vec!["project: cat/proj0", "project: cat/proj1", "project: cat/proj2"]);
    assert_eq!(list.resolve(0), Ok(Some(SelectableItem::Project(ps[0].clone()))));
    assert_eq!(list.resolve(2), Ok(Some(SelectableItem::Project(ps[2].clone()))));
    assert_eq!(list.resolve(3), Err(WsError::InvalidSelection));
}

#[test]
fn without_projects_there_is_no_separator() {
    let list = Selection::build(&sessions(2), &Vec::new(), true);
    assert!(!list.separator);
    assert_eq!(list.rows, vec!["session: s0", "session: s1"]);
    assert_eq!(list.resolve(1), Ok(Some(SelectableItem::Session("s1".to_string()))));
    assert_eq!(list.resolve(2), Err(WsError::InvalidSelection));
}

#[test]
fn outside_the_multiplexer_there_is_no_separator() {
    let ps = projects(1);
    let list = Selection::build(&sessions(1), &ps, false);
    assert!(!list.separator);
    assert_eq!(list.rows, vec!["session: s0", "project: cat/proj0"]);
    assert_eq!(list.resolve(1), Ok(Some(SelectableItem::Project(ps[0].clone()))));
}

#[test]
fn inside_the_multiplexer_the_live_sessions_are_offered() {
    let mut asked = false;
    let offered = offered_sessions(true, || {
        asked = true;
        sessions(2)
    });
    assert!(asked);
    assert_eq!(offered, sessions(2));
}

#[test]
fn outside_the_multiplexer_no_session_is_offered() {
    let mut asked = false;
    let offered = offered_sessions(false, || {
        asked = true;
        sessions(2)
    });
    assert!(!asked);
    assert!(offered.is_empty());
    let ps = projects(2);
    let list = Selection::build(&offered, &ps, false);
    assert_eq!(list.rows, vec!["project: cat/proj0", "project: cat/proj1"]);
}

#[test]
fn empty_list_resolves_nothing() {
    let list = Selection::build(&Vec::new(), &Vec::new(), true);
    assert!(list.rows.is_empty());
    assert!(list.items.is_empty());
    assert_eq!(list.resolve(0), Err(WsError::InvalidSelection));
}

#[test]
fn every_row_resolves_to_the_item_it_shows() {
    for s in 0..4 {
        for p in 0..4 {
            for in_tmux in [false, true] {
                let ss = sessions(s);
                let ps = projects(p);
                let list = Selection::build(&ss, &ps, in_tmux);
                let separator = in_tmux && s > 0 && p > 0;
                assert_eq!(list.separator, separator);
                assert_eq!(list.session_count, s);
                assert_eq!(list.items.len(), s + p);
                assert_eq!(list.rows.len(), s + p + if separator { 1 } else { 0 });
                for raw in 0..list.rows.len() {
                    match list.resolve(raw) {
                        Ok(None) => {
                            assert!(separator && raw == s);
                            assert_eq!(list.rows[raw], SEPARATOR);
                        }
                        Ok(Some(item)) => {
                            assert_eq!(item.to_display_string(), list.rows[raw]);
                            match item {
                                SelectableItem::Session(_) => assert!(raw < s),
                                SelectableItem::Project(_) => assert!(raw >= s),
                            }
                        }
                        Err(e) => panic!("row {} gave {:?}", raw, e),
                    }
                }
                assert_eq!(list.resolve(list.rows.len()), Err(WsError::InvalidSelection));
            }
        }
    }
}

#[test]
fn index_arithmetic_in_all_four_regions() {
    assert_eq!(resolve_index(1, 2, 5, true), Resolved::Item(1));
    assert_eq!(resolve_index(2, 2, 5, true), Resolved::Separator);
    assert_eq!(resolve_index(3, 2, 5, true), Resolved::Item(2));
    assert_eq!(resolve_index(5, 2, 5, true), Resolved::Item(4));
    assert_eq!(resolve_index(6, 2, 5, true), Resolved::Invalid);
    assert_eq!(resolve_index(1, 2, 5, false), Resolved::Item(1));
    assert_eq!(resolve_index(2, 2, 5, false), Resolved::Item(2));
    assert_eq!(resolve_index(4, 2, 5, false), Resolved::Item(4));
    assert_eq!(resolve_index(5, 2, 5, false), Resolved::Invalid);
    assert_eq!(resolve_index(0, 0, 0, false), Resolved::Invalid);
}

#[test]
fn failure_messages() {
    assert_eq!(WsError::InvalidSelection.message(), "Invalid selection");
    assert_eq!(WsError::NoCurrentSession.message(), "Failed to get current session");
}
