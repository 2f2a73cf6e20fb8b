//! What each command decides: from the record and what the multiplexer and
//! the picker answered, to the new record and the commands to run.

use vstd::prelude::*;
use crate::error::WsError;
use crate::history::{previous, visited, without};
use crate::project::{projects_in, sorts, ScanEntry};
use crate::selection::{
    resolved, session_name_of, ItemView, Resolved, SelectableItem, Selection,
};
use crate::state::State;
use crate::tmux::{
    create_session_commands, switch_or_attach_command, target_command, SessionInfo, TmuxClient,
};

verus! {

/// The question to put to the multiplexer before `handle_selection`: for a
/// project, whether a session of its name is live. A session needs none.
pub open spec fn existence_query(item: ItemView) -> Option<Seq<Seq<char>>> {
    match item {
        ItemView::Session(_) => None,
        ItemView::Project(info) => Some(target_command("has-session"@, info.name)),
    }
}

/// The commands that bring the user to the picked item. A project without
/// a live session of its name gets one first, in its directory.
pub open spec fn selection_commands(item: ItemView, exists: bool, in_tmux: bool) -> Seq<
    Seq<Seq<char>>,
> {
    let enter = seq![switch_or_attach_command(session_name_of(item), in_tmux)];
    match item {
        ItemView::Session(_) => enter,
        ItemView::Project(info) => if exists {
            enter
        } else {
            create_session_commands(info.name, info.path) + enter
        },
    }
}

/// The session to switch to once `killed` is gone: the previous one of the
/// history, where the killed session was the current one and the previous
/// one is another.
pub open spec fn kill_fallback(history: Seq<Seq<char>>, killed: Seq<char>, current: Seq<char>) -> Option<
    Seq<char>,
> {
    if current == killed && previous(history) is Some && previous(history)->0 != killed {
        previous(history)
    } else {
        None
    }
}

/// With the history `p`, `s`, killing the current session `s` leads to
/// `p`. Killing a session that is not the current one leads nowhere, and
/// neither does killing the only session that the history names.
pub proof fn lemma_kill_fallback(
    p: Seq<char>,
    s: Seq<char>,
    history: Seq<Seq<char>>,
    killed: Seq<char>,
    current: Seq<char>,
)
    ensures
        p != s ==> kill_fallback(seq![p, s], s, s) == Some(p),
        current != killed ==> kill_fallback(history, killed, current) is None,
        kill_fallback(seq![s], s, current) is None,
        kill_fallback(Seq::empty(), killed, current) is None,
{
}

/// The texts of a list of words that may be absent.
pub open spec fn words_of(command: Option<Vec<String>>) -> Option<Seq<Seq<char>>> {
    match command {
        Some(words) => Some(words.deep_view()),
        None => None,
    }
}

/// The names of `sessions`, in their order.
pub open spec fn names_of(sessions: Seq<crate::tmux::SessionView>) -> Seq<Seq<char>> {
    Seq::new(sessions.len(), |i: int| sessions[i].name)
}

/// What killing a session takes: the command that kills, which must run,
/// and the command that then switches to the previous session, where
/// there is one to switch to; that one may fail.
#[derive(Debug, PartialEq, Eq)]
pub struct KillPlan {
    pub kill: Vec<String>,
    pub switch: Option<Vec<String>>,
}

/// The question to put to the multiplexer before `handle_selection`.
pub fn selection_query(item: &SelectableItem) -> (query: Option<Vec<String>>)
    ensures
        words_of(query) == existence_query(item@),
{
    match item {
        SelectableItem::Session(_) => None,
        SelectableItem::Project(info) => Some(TmuxClient::has_session(info.name.as_str())),
    }
}

/// What the picker's answer stands for: nothing where the user gave up or
/// chose the separator row, else the entry of the row, and a failure for
/// a number that is no row of an entry.
pub fn handle_pick_command(list: &Selection, picked: Option<usize>) -> (chosen: Result<
    Option<SelectableItem>,
    WsError,
>)
    ensures
        picked is None ==> chosen == Ok::<Option<SelectableItem>, WsError>(None),
        picked matches Some(raw) ==> match resolved(
            raw,
            list.session_count,
            list.items.len(),
            list.separator,
        ) {
            Resolved::Separator => chosen == Ok::<Option<SelectableItem>, WsError>(None),
            Resolved::Item(place) => chosen == Ok::<Option<SelectableItem>, WsError>(
                Some(list.items[place as int]),
            ),
            Resolved::Invalid => chosen == Err::<Option<SelectableItem>, WsError>(
                WsError::InvalidSelection,
            ),
        },
{
    match picked {
        None => Ok(None),
        Some(raw) => list.resolve(raw),
    }
}

/// Goes to the picked item: its session becomes the newest entry of the
/// history, and the commands returned make the session where a project
/// has none yet (`exists` says whether it has), and bring the user to it.
pub fn handle_selection(item: &SelectableItem, state: &mut State, exists: bool, in_tmux: bool) -> (commands:
    Vec<Vec<String>>)
    ensures
        commands.deep_view() == selection_commands(item@, exists, in_tmux),
        final(state)@.history == visited(old(state)@.history, session_name_of(item@)),
        final(state).version == old(state).version,
        final(state).cache == old(state).cache,
        old(state).well_formed() ==> final(state).well_formed(),
{
    let mut commands: Vec<Vec<String>> = match item {
        SelectableItem::Session(_) => Vec::new(),
        SelectableItem::Project(info) => if exists {
            Vec::new()
        } else {
            TmuxClient::create_session(info.name.as_str(), info.path.as_str())
        },
    };
    let ghost made = commands.deep_view();
    let name = item.session_name();
    state.push_history(name.clone());
    let enter = TmuxClient::switch_or_attach(name.as_str(), in_tmux);
    commands.push(enter);
    proof {
        assert(commands.deep_view() =~= made + seq![enter.deep_view()]);
        if made.len() == 0 {
            assert(made + seq![enter.deep_view()] =~= seq![enter.deep_view()]);
        }
    }
    commands
}

/// The names that the user picks the session to kill from, in the order
/// of the sessions. With no session there is nothing to kill, and no list.
pub fn kill_candidates(sessions: &Vec<SessionInfo>) -> (names: Option<Vec<String>>)
    ensures
        sessions.len() == 0 ==> names is None,
        sessions.len() > 0 ==> words_of(names) == Some(names_of(sessions.deep_view())),
{
    if sessions.len() == 0 {
        return None;
    }
    let mut names: Vec<String> = Vec::new();
    let mut i: usize = 0;
    while i < sessions.len()
        invariant
            i <= sessions.len(),
            names.len() == i,
            forall|k: int| 0 <= k < i ==> (#[trigger] names[k])@ == sessions[k].name@,
        decreases sessions.len() - i,
    {
        names.push(sessions[i].name.clone());
        i += 1;
    }
    assert(names.deep_view() =~= names_of(sessions.deep_view()));
    Some(names)
}

/// Kills the session that the user picked among `names`. `current` is
/// what the multiplexer answered when asked for the current session: where
/// it could not say, the command fails with that failure and nothing
/// changes. There is nothing to do where the user gave up. Else the
/// session leaves the history, and the plan holds the command that kills
/// it and, where it was the current session and the history, as it was
/// before, names another session to go back to, the command that switches
/// to that one.
pub fn handle_kill_command(
    state: &mut State,
    names: &Vec<String>,
    picked: Option<usize>,
    current: Result<&str, WsError>,
) -> (plan: Result<Option<KillPlan>, WsError>)
    requires
        picked matches Some(at) ==> at < names.len(),
    ensures
        match current {
            Err(failure) => plan == Err::<Option<KillPlan>, WsError>(failure) && *final(state)
                == *old(state),
            Ok(name) => match picked {
                None => plan == Ok::<Option<KillPlan>, WsError>(None) && *final(state) == *old(
                    state,
                ),
                Some(at) => {
                    let killed = names[at as int]@;
                    &&& plan is Ok
                    &&& plan->Ok_0 is Some
                    &&& plan->Ok_0->0.kill.deep_view() == target_command("kill-session"@, killed)
                    &&& words_of(plan->Ok_0->0.switch) == match kill_fallback(
                        old(state)@.history,
                        killed,
                        name@,
                    ) {
                        Some(back) => Some(target_command("switch-client"@, back)),
                        None => None,
                    }
                    &&& final(state)@.history == without(old(state)@.history, killed)
                },
            },
        },
        final(state).version == old(state).version,
        final(state).cache == old(state).cache,
        old(state).well_formed() ==> final(state).well_formed(),
{
    let name = match current {
        Ok(name) => name,
        Err(failure) => {
            return Err(failure);
        },
    };
    match picked {
        None => Ok(None),
        Some(at) => {
            let killed = &names[at];
            let switch = if name.to_owned() == *killed {
                match state.previous_session() {
                    Some(back) => if back.to_owned() == *killed {
                        None
                    } else {
                        Some(TmuxClient::switch_client(back))
                    },
                    None => None,
                }
            } else {
                None
            };
            let kill = TmuxClient::kill_session(killed.as_str());
            state.remove_session(killed.as_str());
            Ok(Some(KillPlan { kill, switch }))
        },
    }
}

/// Goes back to the previous session of the history, and makes it the
/// newest entry. With an empty history there is nothing to do.
pub fn handle_back_command(state: &mut State) -> (switch: Option<Vec<String>>)
    ensures
        match previous(old(state)@.history) {
            Some(back) => {
                &&& words_of(switch) == Some(target_command("switch-client"@, back))
                &&& final(state)@.history == visited(old(state)@.history, back)
            },
            None => switch is None && *final(state) == *old(state),
        },
        final(state).version == old(state).version,
        final(state).cache == old(state).cache,
        old(state).well_formed() ==> final(state).well_formed(),
{
    let back: Option<String> = match state.previous_session() {
        Some(name) => Some(name.to_owned()),
        None => None,
    };
    match back {
        Some(name) => {
            let switch = TmuxClient::switch_client(name.as_str());
            state.push_history(name);
            Some(switch)
        },
        None => None,
    }
}

/// Fills the cache anew from a walk of the workspace made at the time
/// `now`, and tells how many projects it found.
pub fn handle_refresh_command(state: &mut State, entries: &Vec<ScanEntry>, now: i64) -> (count:
    usize)
    ensures
        sorts(projects_in(entries.deep_view()), final(state)@.cache.projects),
        count == final(state).cache.projects.len(),
        final(state).cache.updated_at == now,
        final(state).cache.ttl == old(state).cache.ttl,
        final(state).version == old(state).version,
        final(state).history == old(state).history,
        old(state).well_formed() ==> final(state).well_formed(),
{
    state.refresh_cache(entries, now);
    state.cache.projects.len()
}

} // verus!
