//! Projects: directories two levels below a workspace root, each named by its
//! category (the parent directory) and its own name.

use vstd::prelude::*;
use vstd::string::StringExecFns;
use crate::text::{
    lemma_precedes_asymmetric, lemma_precedes_irreflexive, lemma_precedes_total,
    lemma_precedes_transitive, precedes, text_lt,
};

verus! {

/// How far below the workspace root the walk begins to report entries.
pub const PROJECT_SCAN_MIN_DEPTH: usize = 2;

/// How far below the workspace root the walk goes.
pub const PROJECT_SCAN_MAX_DEPTH: usize = 2;

/// A project found on disk.
#[derive(Debug, PartialEq, Eq)]
pub struct ProjectInfo {
    pub path: String,
    pub category: String,
    pub name: String,
}

/// What a project holds, as text.
pub struct ProjectView {
    pub path: Seq<char>,
    pub category: Seq<char>,
    pub name: Seq<char>,
}

impl View for ProjectInfo {
    type V = ProjectView;

    open spec fn view(&self) -> ProjectView {
        ProjectView { path: self.path@, category: self.category@, name: self.name@ }
    }
}

impl DeepView for ProjectInfo {
    type V = ProjectView;

    open spec fn deep_view(&self) -> ProjectView {
        self@
    }
}

impl Clone for ProjectInfo {
    fn clone(&self) -> (copy: Self)
        ensures
            copy == *self,
    {
        ProjectInfo {
            path: self.path.clone(),
            category: self.category.clone(),
            name: self.name.clone(),
        }
    }
}

/// The name under which a project is shown: its category, a slash, its name.
pub open spec fn display_name_of(project: ProjectView) -> Seq<char> {
    project.category + seq!['/'] + project.name
}

impl ProjectInfo {
    /// The name under which the project is shown.
    pub fn display_name(&self) -> (shown: String)
        ensures
            shown@ == display_name_of(self@),
    {
        proof {
            reveal_strlit("/");
            assert("/"@ =~= seq!['/']);
        }
        let mut shown = self.category.clone();
        shown.append("/");
        shown.append(self.name.as_str());
        shown
    }
}

/// A directory entry two levels below the workspace root, as the walk
/// reports it. The category is the name of the parent directory. A name
/// that is no valid text is absent.
#[derive(Debug, PartialEq, Eq)]
pub struct ScanEntry {
    pub is_dir: bool,
    pub path: String,
    pub category: Option<String>,
    pub name: Option<String>,
}

/// The text of a name that may be absent.
pub open spec fn name_text(name: Option<String>) -> Option<Seq<char>> {
    match name {
        Some(text) => Some(text@),
        None => None,
    }
}

/// What a directory entry holds, as text.
pub struct ScanEntryView {
    pub is_dir: bool,
    pub path: Seq<char>,
    pub category: Option<Seq<char>>,
    pub name: Option<Seq<char>>,
}

impl View for ScanEntry {
    type V = ScanEntryView;

    open spec fn view(&self) -> ScanEntryView {
        ScanEntryView {
            is_dir: self.is_dir,
            path: self.path@,
            category: name_text(self.category),
            name: name_text(self.name),
        }
    }
}

impl DeepView for ScanEntry {
    type V = ScanEntryView;

    open spec fn deep_view(&self) -> ScanEntryView {
        self@
    }
}

/// The project that an entry stands for: a directory whose category and
/// name are both valid text. Any other entry stands for none.
pub open spec fn project_of(entry: ScanEntryView) -> Option<ProjectView> {
    if entry.is_dir && entry.category is Some && entry.name is Some {
        Some(
            ProjectView {
                path: entry.path,
                category: entry.category->0,
                name: entry.name->0,
            },
        )
    } else {
        None
    }
}

/// The projects among `entries`, in the order of the entries.
pub open spec fn projects_in(entries: Seq<ScanEntryView>) -> Seq<ProjectView>
    decreases entries.len(),
{
    if entries.len() == 0 {
        Seq::empty()
    } else {
        let before = projects_in(entries.drop_last());
        match project_of(entries.last()) {
            Some(project) => before.push(project),
            None => before,
        }
    }
}

/// Whether `p` is listed before `q`: by category, and within one category
/// by name.
pub open spec fn comes_before(p: ProjectView, q: ProjectView) -> bool {
    precedes(p.category, q.category) || (p.category == q.category && precedes(p.name, q.name))
}

/// No project of the list is followed by one that comes before it.
pub open spec fn ordered(projects: Seq<ProjectView>) -> bool {
    forall|i: int, j: int|
        0 <= i < j < projects.len() ==> !comes_before(#[trigger] projects[j], #[trigger] projects[i])
}

/// The test that the projects of one category and name pass.
pub open spec fn named(category: Seq<char>, name: Seq<char>) -> spec_fn(ProjectView) -> bool {
    |p: ProjectView| p.category == category && p.name == name
}

/// `sorted` lists the projects of `given` in order: each as often as `given`
/// has it, and those of one category and name in the order that `given` had
/// them in.
pub open spec fn sorts(given: Seq<ProjectView>, sorted: Seq<ProjectView>) -> bool {
    &&& ordered(sorted)
    &&& sorted.to_multiset() == given.to_multiset()
    &&& forall|category: Seq<char>, name: Seq<char>|
        #[trigger] sorted.filter(named(category, name)) == given.filter(named(category, name))
}

/// Of two projects at most one comes before the other, and a project that
/// comes before another differs from it in category or in name.
pub proof fn lemma_comes_before_asymmetric(p: ProjectView, q: ProjectView)
    requires
        comes_before(p, q),
    ensures
        !comes_before(q, p),
        !named(p.category, p.name)(q),
{
    lemma_precedes_irreflexive(p.category);
    lemma_precedes_irreflexive(p.name);
    if precedes(p.category, q.category) {
        lemma_precedes_asymmetric(p.category, q.category);
    } else {
        lemma_precedes_asymmetric(p.name, q.name);
    }
}

/// A project that does not come before `q` does not come before anything
/// that `q` does not come before.
pub proof fn lemma_not_before_transitive(p: ProjectView, q: ProjectView, r: ProjectView)
    requires
        !comes_before(p, q),
        !comes_before(q, r),
    ensures
        !comes_before(p, r),
{
    if comes_before(p, r) {
        if precedes(p.category, r.category) {
            if precedes(q.category, p.category) {
                lemma_precedes_transitive(q.category, p.category, r.category);
            } else {
                lemma_precedes_total(p.category, q.category);
            }
        } else {
            if precedes(q.category, p.category) {
            } else {
                lemma_precedes_total(p.category, q.category);
                if precedes(q.name, p.name) {
                    lemma_precedes_transitive(q.name, p.name, r.name);
                } else {
                    lemma_precedes_total(p.name, q.name);
                }
            }
        }
    }
}

/// Putting a project behind everything that it does not come before keeps
/// the list in order.
proof fn lemma_insert_ordered(list: Seq<ProjectView>, at: int, project: ProjectView)
    requires
        ordered(list),
        0 <= at <= list.len(),
        forall|k: int| at <= k < list.len() ==> comes_before(project, #[trigger] list[k]),
        at > 0 ==> !comes_before(project, list[at - 1]),
    ensures
        ordered(list.insert(at, project)),
{
    let out = list.insert(at, project);
    assert forall|i: int, j: int| 0 <= i < j < out.len() implies !comes_before(
        #[trigger] out[j],
        #[trigger] out[i],
    ) by {
        if j == at {
            if i < at - 1 {
                assert(!comes_before(list[at - 1], list[i]));
                lemma_not_before_transitive(project, list[at - 1], list[i]);
            }
        } else if i == at {
            assert(comes_before(project, list[j - 1]));
            lemma_comes_before_asymmetric(project, list[j - 1]);
        } else {
            let a = if i < at { i } else { i - 1 };
            let b = if j < at { j } else { j - 1 };
            assert(!comes_before(list[b], list[a]));
        }
    }
}

/// Putting a project behind everything that it does not come before adds
/// it at the end of those of its category and name, and leaves the others
/// as they were.
proof fn lemma_insert_groups(
    list: Seq<ProjectView>,
    at: int,
    project: ProjectView,
    category: Seq<char>,
    name: Seq<char>,
)
    requires
        0 <= at <= list.len(),
        forall|k: int| at <= k < list.len() ==> comes_before(project, #[trigger] list[k]),
    ensures
        list.insert(at, project).filter(named(category, name)) == list.push(project).filter(
            named(category, name),
        ),
{
    let test = named(category, name);
    let head = list.subrange(0, at);
    let tail = list.subrange(at, list.len() as int);
    assert(list =~= head + tail);
    assert(list.insert(at, project) =~= head.push(project) + tail);
    Seq::filter_distributes_over_add(head.push(project), tail, test);
    Seq::filter_distributes_over_add(head, tail, test);
    head.lemma_filter_push(project, test);
    list.lemma_filter_push(project, test);
    if test(project) {
        assert forall|k: int| 0 <= k < tail.len() implies !test(#[trigger] tail[k]) by {
            assert(comes_before(project, list[at + k]));
            lemma_comes_before_asymmetric(project, list[at + k]);
        }
        tail.lemma_all_neg_filter_empty(test);
        assert(head.filter(test).push(project) + tail.filter(test) =~= (head.filter(test)
            + tail.filter(test)).push(project));
    }
}

/// Two lists in order that hold the same projects, those of one category
/// and name in the same order, are the same list.
proof fn lemma_same_list(a: Seq<ProjectView>, b: Seq<ProjectView>)
    requires
        ordered(a),
        ordered(b),
        a.to_multiset() == b.to_multiset(),
        forall|category: Seq<char>, name: Seq<char>|
            #[trigger] a.filter(named(category, name)) == b.filter(named(category, name)),
    ensures
        a == b,
    decreases a.len(),
{
    vstd::seq_lib::to_multiset_len(a);
    vstd::seq_lib::to_multiset_len(b);
    if a.len() == 0 {
        assert(a =~= b);
    } else {
        let x = a[0];
        let y = b[0];
        let rest_a = a.drop_first();
        let rest_b = b.drop_first();
        assert(a =~= seq![x] + rest_a);
        assert(b =~= seq![y] + rest_b);
        assert(!comes_before(x, y)) by {
            vstd::seq_lib::to_multiset_contains(a, x);
            vstd::seq_lib::to_multiset_contains(b, x);
            assert(a.contains(x));
            let j = choose|j: int| 0 <= j < b.len() && b[j] == x;
            if j > 0 {
                assert(!comes_before(b[j], b[0]));
            } else {
                lemma_precedes_irreflexive(x.category);
                lemma_precedes_irreflexive(x.name);
            }
        }
        assert(!comes_before(y, x)) by {
            vstd::seq_lib::to_multiset_contains(a, y);
            vstd::seq_lib::to_multiset_contains(b, y);
            assert(b.contains(y));
            let j = choose|j: int| 0 <= j < a.len() && a[j] == y;
            if j > 0 {
                assert(!comes_before(a[j], a[0]));
            } else {
                lemma_precedes_irreflexive(y.category);
                lemma_precedes_irreflexive(y.name);
            }
        }
        assert(x.category == y.category && x.name == y.name) by {
            lemma_precedes_total(x.category, y.category);
            lemma_precedes_total(x.name, y.name);
        }
        let own = named(x.category, x.name);
        rest_a.lemma_filter_prepend(x, own);
        rest_b.lemma_filter_prepend(y, own);
        assert(a.filter(own) == b.filter(own));
        assert(a.filter(own)[0] == x);
        assert(b.filter(own)[0] == y);
        assert(x == y);
        assert(ordered(rest_a)) by {
            assert forall|i: int, j: int| 0 <= i < j < rest_a.len() implies !comes_before(
                #[trigger] rest_a[j],
                #[trigger] rest_a[i],
            ) by {
                assert(!comes_before(a[j + 1], a[i + 1]));
            }
        }
        assert(ordered(rest_b)) by {
            assert forall|i: int, j: int| 0 <= i < j < rest_b.len() implies !comes_before(
                #[trigger] rest_b[j],
                #[trigger] rest_b[i],
            ) by {
                assert(!comes_before(b[j + 1], b[i + 1]));
            }
        }
        assert(rest_a.to_multiset() == rest_b.to_multiset()) by {
            assert(rest_a =~= a.remove(0));
            assert(rest_b =~= b.remove(0));
            vstd::seq_lib::to_multiset_remove(a, 0);
            vstd::seq_lib::to_multiset_remove(b, 0);
        }
        assert forall|category: Seq<char>, name: Seq<char>|
            #[trigger] rest_a.filter(named(category, name)) == rest_b.filter(
                named(category, name),
            ) by {
            let test = named(category, name);
            rest_a.lemma_filter_prepend(x, test);
            rest_b.lemma_filter_prepend(y, test);
            assert(a.filter(test) == b.filter(test));
            let fa = rest_a.filter(test);
            let fb = rest_b.filter(test);
            if test(x) {
                assert((seq![x] + fa).drop_first() =~= fa);
                assert((seq![x] + fb).drop_first() =~= fb);
            } else {
                assert(Seq::<ProjectView>::empty() + fa =~= fa);
                assert(Seq::<ProjectView>::empty() + fb =~= fb);
            }
        }
        lemma_same_list(rest_a, rest_b);
    }
}

/// Only one list sorts a given one: `sorts` leaves nothing open.
pub proof fn lemma_sorts_unique(
    given: Seq<ProjectView>,
    first: Seq<ProjectView>,
    second: Seq<ProjectView>,
)
    requires
        sorts(given, first),
        sorts(given, second),
    ensures
        first == second,
{
    lemma_same_list(first, second);
}

/// Whether `p` is listed before `q`.
pub fn project_lt(p: &ProjectInfo, q: &ProjectInfo) -> (less: bool)
    ensures
        less == comes_before(p@, q@),
{
    if text_lt(p.category.as_str(), q.category.as_str()) {
        true
    } else if p.category == q.category {
        text_lt(p.name.as_str(), q.name.as_str())
    } else {
        false
    }
}

/// Lists `projects` in order, by category and within one category by name.
/// Projects of one category and name keep the order they came in.
pub fn sort_projects(projects: &Vec<ProjectInfo>) -> (sorted: Vec<ProjectInfo>)
    ensures
        sorts(projects.deep_view(), sorted.deep_view()),
        sorted.len() == projects.len(),
{
    let ghost given = projects.deep_view();
    let mut sorted: Vec<ProjectInfo> = Vec::new();
    let mut i: usize = 0;
    proof {
        assert(given.take(0) =~= sorted.deep_view());
    }
    while i < projects.len()
        invariant
            i <= projects.len(),
            given == projects.deep_view(),
            sorted.len() == i,
            sorts(given.take(i as int), sorted.deep_view()),
        decreases projects.len() - i,
    {
        let project = projects[i].clone();
        let mut at: usize = sorted.len();
        while at > 0 && project_lt(&project, &sorted[at - 1])
            invariant
                at <= sorted.len(),
                forall|k: int|
                    at <= k < sorted.len() ==> comes_before(project@, #[trigger] sorted.deep_view()[k]),
            decreases at,
        {
            at -= 1;
        }
        let ghost list = sorted.deep_view();
        let ghost done = given.take(i as int);
        sorted.insert(at, project);
        proof {
            let out = sorted.deep_view();
            assert(out =~= list.insert(at as int, project@));
            assert(given.take(i + 1) =~= done.push(project@));
            lemma_insert_ordered(list, at as int, project@);
            vstd::seq_lib::to_multiset_insert(list, at as int, project@);
            vstd::seq_lib::to_multiset_build(done, project@);
            assert forall|category: Seq<char>, name: Seq<char>|
                #[trigger] out.filter(named(category, name)) == done.push(project@).filter(
                    named(category, name),
                ) by {
                lemma_insert_groups(list, at as int, project@, category, name);
                list.lemma_filter_push(project@, named(category, name));
                done.lemma_filter_push(project@, named(category, name));
            }
        }
        i += 1;
    }
    proof {
        assert(given.take(i as int) =~= given);
    }
    sorted
}

/// Whether a path is written from the user's home directory: a tilde,
/// and then nothing, a slash or a backslash.
pub open spec fn home_relative(path: Seq<char>) -> bool {
    &&& path.len() > 0
    &&& path[0] == '~'
    &&& path.len() > 1 ==> path[1] == '/' || path[1] == '\\'
}

/// What a path may expand to: itself, or, where it is written from the
/// home directory, some directory and what followed the tilde.
pub open spec fn expands_to(path: Seq<char>, expanded: Seq<char>) -> bool {
    expanded == path || (home_relative(path) && exists|home: Seq<char>|
        expanded == #[trigger] (home + path.skip(1)))
}

/// Calls `shellexpand::tilde`. It asks the system for the user's home
/// directory, so what comes back is not fixed by `path`. The contract
/// claims what holds whatever the system answers: what comes back is
/// `path` itself, or, where `path` begins with a tilde followed by
/// nothing, a slash or a backslash, some directory in place of the tilde
/// and then the rest of `path`.
#[verifier::external_body]
fn expand_tilde(path: &str) -> (expanded: String)
    ensures
        expands_to(path@, expanded@),
{
    shellexpand::tilde(path).into_owned()
}

/// The workspace root that the user named, with a leading tilde expanded
/// to the home directory where one is known.
pub fn workspace_root(workspace: &str) -> (root: String)
    ensures
        expands_to(workspace@, root@),
        !home_relative(workspace@) ==> root@ == workspace@,
{
    expand_tilde(workspace)
}

/// The projects among `entries`, in the order of the entries.
pub fn collect_projects(entries: &Vec<ScanEntry>) -> (projects: Vec<ProjectInfo>)
    ensures
        projects.deep_view() == projects_in(entries.deep_view()),
{
    let ghost given = entries.deep_view();
    let mut projects: Vec<ProjectInfo> = Vec::new();
    let mut i: usize = 0;
    proof {
        assert(given.take(0) =~= Seq::<ScanEntryView>::empty());
        assert(projects.deep_view() =~= Seq::<ProjectView>::empty());
    }
    while i < entries.len()
        invariant
            i <= entries.len(),
            given == entries.deep_view(),
            projects.deep_view() == projects_in(given.take(i as int)),
        decreases entries.len() - i,
    {
        let ghost found = projects.deep_view();
        let entry = &entries[i];
        proof {
            assert(given.take(i + 1).drop_last() =~= given.take(i as int));
            assert(given.take(i + 1).last() == entry@);
        }
        if entry.is_dir {
            match (&entry.category, &entry.name) {
                (Some(category), Some(name)) => {
                    let project = ProjectInfo {
                        path: entry.path.clone(),
                        category: category.clone(),
                        name: name.clone(),
                    };
                    projects.push(project);
                    assert(projects.deep_view() =~= found.push(project@));
                },
                _ => {},
            }
        }
        i += 1;
    }
    proof {
        assert(given.take(i as int) =~= given);
    }
    projects
}

/// The projects that a walk of the workspace found, in order: by category,
/// and within one category by name.
pub fn scan_projects(entries: &Vec<ScanEntry>) -> (projects: Vec<ProjectInfo>)
    ensures
        sorts(projects_in(entries.deep_view()), projects.deep_view()),
{
    let found = collect_projects(entries);
    sort_projects(&found)
}

} // verus!
