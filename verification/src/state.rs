//! The record that outlives a run: the history of visited sessions and the
//! cache of projects found on disk.

use vstd::prelude::*;
use vstd::string::StringExecFns;
use crate::history::{lemma_without, previous, text_of, visited, well_formed, without};
use crate::project::{
    ordered, projects_in, scan_projects, sorts, ProjectInfo, ProjectView, ScanEntry,
};

verus! {

/// The version of the record that this library writes.
pub const STATE_VERSION: u32 = 1;

/// The seconds for which a scan of the workspace stays valid.
pub const CACHE_TTL_SECONDS: i64 = 3600;

/// The directory, below the user's local data, that holds the record.
pub const STATE_DIR: &'static str = "ws";

/// The file that holds the record.
pub const STATE_FILE: &'static str = "state.json";

/// The directory that takes the place of the user's local data where the
/// system names none.
pub const FALLBACK_DATA_DIR: &'static str = "/tmp";

/// The projects of the last scan, with the time of the scan and the
/// seconds for which it stays valid.
#[derive(Debug, PartialEq, Eq)]
pub struct ProjectCache {
    pub projects: Vec<ProjectInfo>,
    pub updated_at: i64,
    pub ttl: i64,
}

/// What a cache holds.
pub struct CacheView {
    pub projects: Seq<ProjectView>,
    pub updated_at: i64,
    pub ttl: i64,
}

impl View for ProjectCache {
    type V = CacheView;

    open spec fn view(&self) -> CacheView {
        CacheView {
            projects: self.projects.deep_view(),
            updated_at: self.updated_at,
            ttl: self.ttl,
        }
    }
}

/// The record that outlives a run.
#[derive(Debug, PartialEq, Eq)]
pub struct State {
    pub version: u32,
    pub history: Vec<String>,
    pub cache: ProjectCache,
}

/// What a record holds.
pub struct StateView {
    pub version: u32,
    pub history: Seq<Seq<char>>,
    pub cache: CacheView,
}

impl View for State {
    type V = StateView;

    open spec fn view(&self) -> StateView {
        StateView { version: self.version, history: self.history.deep_view(), cache: self.cache@ }
    }
}

/// The record of a first run: no history, and an empty cache that was
/// never filled.
pub open spec fn empty_state() -> StateView {
    StateView {
        version: STATE_VERSION,
        history: Seq::empty(),
        cache: CacheView { projects: Seq::empty(), updated_at: 0, ttl: CACHE_TTL_SECONDS },
    }
}

/// Whether a cache is still valid at the time `now`: fewer seconds than it
/// stays valid for have passed since it was filled.
pub open spec fn fresh(cache: CacheView, now: i64) -> bool {
    now - cache.updated_at < cache.ttl
}

/// The place of the record's file: below the user's local data directory
/// `data_dir`, or below the fallback directory where there is none.
pub open spec fn state_path_of(data_dir: Option<Seq<char>>) -> Seq<char> {
    let base = match data_dir {
        Some(dir) => dir,
        None => "/tmp"@,
    };
    base + seq!['/'] + "ws"@ + seq!['/'] + "state.json"@
}

/// Calls `dirs::data_local_dir`, which asks the system for the user's
/// local data directory, and hands it on as text. What comes back differs
/// from system to system and from user to user: the contract claims
/// nothing of it.
#[verifier::external_body]
fn data_local_dir() -> (dir: Option<String>) {
    dirs::data_local_dir().map(|path| path.to_string_lossy().into_owned())
}

/// A cache is valid from the time of its stamp until the seconds that it
/// stays valid for have passed, and at no time later.
pub proof fn lemma_cache_ttl(cache: CacheView, elapsed: int)
    requires
        i64::MIN <= cache.updated_at + elapsed <= i64::MAX,
    ensures
        fresh(cache, (cache.updated_at + elapsed) as i64) <==> elapsed < cache.ttl,
{
}

/// The seconds since the epoch as a time stamp. A count beyond the largest
/// stamp wraps round to the negative ones.
pub open spec fn stamp_of(seconds: u64) -> int {
    if seconds <= i64::MAX {
        seconds as int
    } else {
        seconds - 0x1_0000_0000_0000_0000
    }
}

/// The time stamp for a count of seconds since the epoch.
pub fn current_timestamp(seconds: u64) -> (stamp: i64)
    ensures
        stamp == stamp_of(seconds),
{
    if seconds <= 0x7fff_ffff_ffff_ffff {
        seconds as i64
    } else {
        let over: u64 = seconds - 0x8000_0000_0000_0000;
        i64::MIN + (over as i64)
    }
}

impl Default for State {
    fn default() -> (state: Self)
        ensures
            state@ == empty_state(),
            state.well_formed(),
    {
        let state = State {
            version: STATE_VERSION,
            history: Vec::new(),
            cache: ProjectCache { projects: Vec::new(), updated_at: 0, ttl: CACHE_TTL_SECONDS },
        };
        assert(state@.history =~= Seq::<Seq<char>>::empty());
        assert(state@.cache.projects =~= Seq::<ProjectView>::empty());
        state
    }
}

impl State {
    /// The history is within its bound and names nothing twice, and the
    /// cached projects are in order.
    pub open spec fn well_formed(&self) -> bool {
        well_formed(self@.history) && ordered(self@.cache.projects)
    }

    /// The place of the record's file below the local data directory
    /// `data_dir`, or below the fallback directory where there is none.
    pub fn state_path_in(data_dir: Option<&str>) -> (path: String)
        ensures
            path@ == state_path_of(text_of(data_dir)),
    {
        proof {
            reveal_strlit("/");
            assert("/"@ =~= seq!['/']);
        }
        let mut path = match data_dir {
            Some(dir) => String::from_str(dir),
            None => String::from_str(FALLBACK_DATA_DIR),
        };
        path.append("/");
        path.append(STATE_DIR);
        path.append("/");
        path.append(STATE_FILE);
        path
    }

    /// The place of the record's file for the user who runs the program.
    pub fn state_path() -> (path: String)
        ensures
            exists|data_dir: Option<Seq<char>>| path@ == #[trigger] state_path_of(data_dir),
    {
        match data_local_dir() {
            Some(dir) => {
                let path = Self::state_path_in(Some(dir.as_str()));
                assert(path@ == state_path_of(Some(dir@)));
                path
            },
            None => {
                let path = Self::state_path_in(None);
                assert(path@ == state_path_of(None));
                path
            },
        }
    }

    /// The record to start from: the one read from the file, or where
    /// there was none to read, the record of a first run.
    pub fn load(stored: Option<State>) -> (state: State)
        ensures
            stored matches Some(read) ==> state == read,
            stored is None ==> state@ == empty_state(),
    {
        match stored {
            Some(read) => read,
            None => State::default(),
        }
    }

    /// Records a visit to `session`: it becomes the newest entry of the
    /// history, any earlier entry of that name leaves, and the oldest
    /// entries leave until the bound holds.
    pub fn push_history(&mut self, session: String)
        ensures
            final(self)@.history == visited(old(self)@.history, session@),
            0 < final(self).history.len() <= crate::history::MAX_HISTORY_SIZE,
            final(self)@.history.last() == session@,
            old(self)@.history.no_duplicates() ==> final(self)@.history.no_duplicates(),
            final(self).version == old(self).version,
            final(self).cache == old(self).cache,
            old(self).well_formed() ==> final(self).well_formed(),
    {
        crate::history::push_history(&mut self.history, session);
    }

    /// The session to go back to: the entry before the newest, or the only
    /// entry, or none where the history is empty.
    pub fn previous_session(&self) -> (name: Option<&str>)
        ensures
            text_of(name) == previous(self@.history),
    {
        crate::history::previous_session(&self.history)
    }

    /// Takes every entry named `session` out of the history. The others
    /// keep their order.
    pub fn remove_session(&mut self, session: &str)
        ensures
            final(self)@.history == without(old(self)@.history, session@),
            final(self).version == old(self).version,
            final(self).cache == old(self).cache,
            old(self).well_formed() ==> final(self).well_formed(),
    {
        proof {
            lemma_without(self@.history, session@);
        }
        crate::history::remove_session(&mut self.history, session);
    }

    /// Whether the cache is still valid at the time `now`.
    pub fn cache_valid(&self, now: i64) -> (valid: bool)
        ensures
            valid == fresh(self@.cache, now),
    {
        (now as i128) - (self.cache.updated_at as i128) < (self.cache.ttl as i128)
    }

    /// Fills the cache from a walk of the workspace made at the time `now`.
    pub fn refresh_cache(&mut self, entries: &Vec<ScanEntry>, now: i64)
        ensures
            sorts(projects_in(entries.deep_view()), final(self)@.cache.projects),
            final(self).cache.updated_at == now,
            final(self).cache.ttl == old(self).cache.ttl,
            final(self).version == old(self).version,
            final(self).history == old(self).history,
            old(self).well_formed() ==> final(self).well_formed(),
    {
        self.cache.projects = scan_projects(entries);
        self.cache.updated_at = now;
    }

    /// Makes sure that the cache is valid at the time `now`. A valid cache
    /// stays as it is, and the workspace is not walked. A stale one is
    /// filled from what `walk` finds, and stamped with `now`.
    pub fn ensure_cache_valid<F: FnOnce() -> Vec<ScanEntry>>(&mut self, now: i64, walk: F)
        requires
            !fresh(old(self)@.cache, now) ==> call_requires(walk, ()),
        ensures
            fresh(old(self)@.cache, now) ==> *final(self) == *old(self),
            !fresh(old(self)@.cache, now) ==> exists|entries: Vec<ScanEntry>|
                #![trigger call_ensures(walk, (), entries)]
                call_ensures(walk, (), entries) && sorts(
                    projects_in(entries.deep_view()),
                    final(self)@.cache.projects,
                ) && final(self).cache.updated_at == now,
            final(self).cache.ttl == old(self).cache.ttl,
            final(self).version == old(self).version,
            final(self).history == old(self).history,
            old(self).well_formed() ==> final(self).well_formed(),
    {
        if !self.cache_valid(now) {
            let entries = walk();
            self.refresh_cache(&entries, now);
        }
    }
}

} // verus!
