//! The multiplexer's side: what it reports of its sessions and the commands
//! that it is given.

use vstd::prelude::*;
use vstd::string::{StrSliceExecFns, StringExecFns};
use crate::error::WsError;
use crate::text::{
    chars_of, find, lines, lines_of, parse_i64_in, parsed_i64, position, trim, trimmed,
};

verus! {

/// A live session, as the multiplexer lists it.
#[derive(Debug, PartialEq, Eq)]
pub struct SessionInfo {
    pub name: String,
    pub last_active: i64,
}

/// What a session record holds, as text and number.
pub struct SessionView {
    pub name: Seq<char>,
    pub last_active: i64,
}

impl View for SessionInfo {
    type V = SessionView;

    open spec fn view(&self) -> SessionView {
        SessionView { name: self.name@, last_active: self.last_active }
    }
}

impl DeepView for SessionInfo {
    type V = SessionView;

    open spec fn deep_view(&self) -> SessionView {
        self@
    }
}

impl Clone for SessionInfo {
    fn clone(&self) -> (copy: Self)
        ensures
            copy == *self,
    {
        SessionInfo { name: self.name.clone(), last_active: self.last_active }
    }
}

/// The window that a new session opens on: the editor.
pub const EDITOR_WINDOW: &'static str = "1";

/// The window of a new session that holds the file browser.
pub const FILES_WINDOW: &'static str = "9";

/// A window of a session, as the multiplexer is told of it: the session's
/// name, a colon, and the window's number.
pub open spec fn window_of(name: Seq<char>, number: Seq<char>) -> Seq<char> {
    name + seq![':'] + number
}

/// The three commands that make the session `name` in the directory `path`:
/// a detached session whose first window runs the editor in a shell, a
/// second window for the file browser, and the focus back on the editor.
pub open spec fn create_session_commands(name: Seq<char>, path: Seq<char>) -> Seq<Seq<Seq<char>>> {
    seq![
        seq![
            "new-session"@,
            "-d"@,
            "-s"@,
            name,
            "-c"@,
            path,
            "-n"@,
            "editor"@,
            "fish -C \"hx\""@,
        ],
        seq![
            "new-window"@,
            "-t"@,
            window_of(name, "9"@),
            "-c"@,
            path,
            "-n"@,
            "files"@,
            "fx"@,
        ],
        seq!["select-window"@, "-t"@, window_of(name, "1"@)],
    ]
}

/// A command of one verb that aims at the session `name`.
pub open spec fn target_command(verb: Seq<char>, name: Seq<char>) -> Seq<Seq<char>> {
    seq![verb, "-t"@, name]
}

/// The command that brings the user to the session `name`: inside the
/// multiplexer the client switches, outside it a new client attaches.
pub open spec fn switch_or_attach_command(name: Seq<char>, in_tmux: bool) -> Seq<Seq<char>> {
    if in_tmux {
        target_command("switch-client"@, name)
    } else {
        target_command("attach-session"@, name)
    }
}

/// The command that asks for every session's name and the time of its last
/// use, one session a line, the two parted by a bar.
pub open spec fn list_sessions_command() -> Seq<Seq<char>> {
    seq!["list-sessions"@, "-F"@, "#{session_name}|#{session_last_attached}"@]
}

/// The command that asks for the name of the current session.
pub open spec fn current_session_command() -> Seq<Seq<char>> {
    seq!["display-message"@, "-p"@, "#{session_name}"@]
}

/// The session that a line of the list tells of. The name stands before the
/// first bar. The time of last use stands between that bar and the next, or
/// the end of the line, and counts as 0 where it is no number. A line
/// without a bar tells of no session.
pub open spec fn session_of(line: Seq<char>) -> Option<SessionView> {
    let bar = position(line, '|') as int;
    if bar >= line.len() {
        None
    } else {
        let rest = line.skip(bar + 1);
        let stamp = rest.take(position(rest, '|') as int);
        Some(
            SessionView {
                name: line.take(bar),
                last_active: match parsed_i64(stamp) {
                    Some(seconds) => seconds,
                    None => 0,
                },
            },
        )
    }
}

/// The sessions that `lines` tell of, in the order of the lines.
pub open spec fn sessions_among(lines: Seq<Seq<char>>) -> Seq<SessionView>
    decreases lines.len(),
{
    if lines.len() == 0 {
        Seq::empty()
    } else {
        let before = sessions_among(lines.drop_last());
        match session_of(lines.last()) {
            Some(session) => before.push(session),
            None => before,
        }
    }
}

/// The sessions that the multiplexer's list tells of.
pub open spec fn sessions_in(output: Seq<char>) -> Seq<SessionView> {
    sessions_among(lines_of(output))
}

/// What a session record that may be absent holds.
pub open spec fn session_view(session: Option<SessionInfo>) -> Option<SessionView> {
    match session {
        Some(info) => Some(info@),
        None => None,
    }
}

/// Reads one line of the multiplexer's list.
pub fn parse_session(line: &str) -> (session: Option<SessionInfo>)
    ensures
        session_view(session) == session_of(line@),
{
    let chars = chars_of(line);
    let n: usize = chars.len();
    proof {
        assert(chars@.subrange(0, n as int) =~= line@);
    }
    let bar = find(&chars, 0, n, '|');
    if bar == n {
        return None;
    }
    let stop = find(&chars, bar + 1, n, '|');
    let stamp = parse_i64_in(&chars, bar + 1, stop);
    proof {
        let rest = line@.skip(bar + 1);
        assert(chars@.subrange(bar + 1, n as int) =~= rest);
        assert(chars@.subrange(bar + 1, stop as int) =~= rest.take(stop - (bar + 1)));
        assert(line@.subrange(0, bar as int) =~= line@.take(bar as int));
    }
    let last_active: i64 = match stamp {
        Some(seconds) => seconds,
        None => 0,
    };
    Some(SessionInfo { name: line.substring_char(0, bar).to_owned(), last_active })
}

fn window(name: &str, number: &str) -> (target: String)
    ensures
        target@ == window_of(name@, number@),
{
    proof {
        reveal_strlit(":");
        assert(":"@ =~= seq![':']);
    }
    let mut target = String::from_str(name);
    target.append(":");
    target.append(number);
    target
}

fn target(verb: &str, name: &str) -> (words: Vec<String>)
    ensures
        words.deep_view() == target_command(verb@, name@),
{
    let mut words: Vec<String> = Vec::new();
    words.push(String::from_str(verb));
    words.push(String::from_str("-t"));
    words.push(String::from_str(name));
    assert(words.deep_view() =~= target_command(verb@, name@));
    words
}

/// The multiplexer's commands, as the words that follow its name, and the
/// reading of what it answers.
pub struct TmuxClient;

impl TmuxClient {
    /// The commands that make the session `name` in the directory `path`,
    /// in the order in which they run.
    pub fn create_session(name: &str, path: &str) -> (commands: Vec<Vec<String>>)
        ensures
            commands.deep_view() == create_session_commands(name@, path@),
    {
        let mut session: Vec<String> = Vec::new();
        session.push(String::from_str("new-session"));
        session.push(String::from_str("-d"));
        session.push(String::from_str("-s"));
        session.push(String::from_str(name));
        session.push(String::from_str("-c"));
        session.push(String::from_str(path));
        session.push(String::from_str("-n"));
        session.push(String::from_str("editor"));
        session.push(String::from_str("fish -C \"hx\""));
        let mut files: Vec<String> = Vec::new();
        files.push(String::from_str("new-window"));
        files.push(String::from_str("-t"));
        files.push(window(name, FILES_WINDOW));
        files.push(String::from_str("-c"));
        files.push(String::from_str(path));
        files.push(String::from_str("-n"));
        files.push(String::from_str("files"));
        files.push(String::from_str("fx"));
        let mut focus: Vec<String> = Vec::new();
        focus.push(String::from_str("select-window"));
        focus.push(String::from_str("-t"));
        focus.push(window(name, EDITOR_WINDOW));
        let ghost wanted = create_session_commands(name@, path@);
        assert(session.deep_view() =~= wanted[0]);
        assert(files.deep_view() =~= wanted[1]);
        assert(focus.deep_view() =~= wanted[2]);
        let mut commands: Vec<Vec<String>> = Vec::new();
        commands.push(session);
        commands.push(files);
        commands.push(focus);
        assert(commands.deep_view() =~= wanted);
        commands
    }

    /// The command that asks for the list of live sessions.
    pub fn list_sessions_command() -> (words: Vec<String>)
        ensures
            words.deep_view() == list_sessions_command(),
    {
        let mut words: Vec<String> = Vec::new();
        words.push(String::from_str("list-sessions"));
        words.push(String::from_str("-F"));
        words.push(String::from_str("#{session_name}|#{session_last_attached}"));
        assert(words.deep_view() =~= list_sessions_command());
        words
    }

    /// Reads the multiplexer's answer to the command that lists the
    /// sessions. Where the command failed there are no sessions.
    pub fn list_sessions(success: bool, output: &str) -> (sessions: Vec<SessionInfo>)
        ensures
            success ==> sessions.deep_view() == sessions_in(output@),
            !success ==> sessions.len() == 0,
    {
        let mut sessions: Vec<SessionInfo> = Vec::new();
        if !success {
            return sessions;
        }
        let all = lines(output);
        let ghost told = all.deep_view();
        let mut i: usize = 0;
        proof {
            assert(told.take(0) =~= Seq::<Seq<char>>::empty());
            assert(sessions.deep_view() =~= Seq::<SessionView>::empty());
        }
        while i < all.len()
            invariant
                i <= all.len(),
                told == all.deep_view(),
                sessions.deep_view() == sessions_among(told.take(i as int)),
            decreases all.len() - i,
        {
            let ghost found = sessions.deep_view();
            proof {
                assert(told.take(i + 1).drop_last() =~= told.take(i as int));
                assert(told.take(i + 1).last() == all[i as int]@);
            }
            match parse_session(all[i].as_str()) {
                Some(session) => {
                    sessions.push(session);
                    assert(sessions.deep_view() =~= found.push(session@));
                },
                None => {},
            }
            i += 1;
        }
        proof {
            assert(told.take(i as int) =~= told);
        }
        sessions
    }

    /// The command that asks for the name of the current session.
    pub fn current_session_command() -> (words: Vec<String>)
        ensures
            words.deep_view() == current_session_command(),
    {
        let mut words: Vec<String> = Vec::new();
        words.push(String::from_str("display-message"));
        words.push(String::from_str("-p"));
        words.push(String::from_str("#{session_name}"));
        assert(words.deep_view() =~= current_session_command());
        words
    }

    /// Reads the multiplexer's answer to the command that names the current
    /// session: the name is the answer without the white space around it.
    /// Where the command failed there is no name.
    pub fn current_session(success: bool, output: &str) -> (name: Result<String, WsError>)
        ensures
            success ==> name is Ok && name->Ok_0@ == trimmed(output@),
            !success ==> name == Err::<String, WsError>(WsError::NoCurrentSession),
    {
        if success {
            Ok(trim(output).to_owned())
        } else {
            Err(WsError::NoCurrentSession)
        }
    }

    /// The command that asks whether a session `name` is live.
    pub fn has_session(name: &str) -> (words: Vec<String>)
        ensures
            words.deep_view() == target_command("has-session"@, name@),
    {
        target("has-session", name)
    }

    /// The command that switches the client to the session `name`.
    pub fn switch_client(name: &str) -> (words: Vec<String>)
        ensures
            words.deep_view() == target_command("switch-client"@, name@),
    {
        target("switch-client", name)
    }

    /// The command that attaches a client to the session `name`.
    pub fn attach_session(name: &str) -> (words: Vec<String>)
        ensures
            words.deep_view() == target_command("attach-session"@, name@),
    {
        target("attach-session", name)
    }

    /// The command that ends the session `name`.
    pub fn kill_session(name: &str) -> (words: Vec<String>)
        ensures
            words.deep_view() == target_command("kill-session"@, name@),
    {
        target("kill-session", name)
    }

    /// The command that brings the user to the session `name`.
    pub fn switch_or_attach(name: &str, in_tmux: bool) -> (words: Vec<String>)
        ensures
            words.deep_view() == switch_or_attach_command(name@, in_tmux),
    {
        if in_tmux {
            Self::switch_client(name)
        } else {
            Self::attach_session(name)
        }
    }
}

} // verus!
