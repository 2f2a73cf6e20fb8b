//! The record of recently visited sessions: ordered by recency, newest last,
//! without duplicates, and bounded in length.

use vstd::prelude::*;

verus! {

/// The most names that a history keeps.
pub const MAX_HISTORY_SIZE: usize = 10;

/// The test that every name but `name` passes.
pub open spec fn other_than(name: Seq<char>) -> spec_fn(Seq<char>) -> bool {
    |n: Seq<char>| n != name
}

/// `names` with every occurrence of `name` taken out, the rest in their order.
pub open spec fn without(names: Seq<Seq<char>>, name: Seq<char>) -> Seq<Seq<char>> {
    names.filter(other_than(name))
}

/// The last `limit` entries of `names`, or all of them where there are fewer.
pub open spec fn newest(names: Seq<Seq<char>>, limit: int) -> Seq<Seq<char>> {
    if names.len() <= limit {
        names
    } else {
        names.subrange(names.len() - limit, names.len() as int)
    }
}

/// The history after a visit to `name`: `name` moves to the end, and the
/// oldest entries leave until the bound holds.
pub open spec fn visited(names: Seq<Seq<char>>, name: Seq<char>) -> Seq<Seq<char>> {
    newest(without(names, name).push(name), MAX_HISTORY_SIZE as int)
}

/// The session to go back to: the entry before the newest, or the only entry.
pub open spec fn previous(names: Seq<Seq<char>>) -> Option<Seq<char>> {
    if names.len() >= 2 {
        Some(names[names.len() - 2])
    } else if names.len() == 1 {
        Some(names[0])
    } else {
        None
    }
}

/// A history is well formed when it is within the bound and names nothing twice.
pub open spec fn well_formed(names: Seq<Seq<char>>) -> bool {
    names.len() <= MAX_HISTORY_SIZE && names.no_duplicates()
}

/// The text behind an optional string slice.
pub open spec fn text_of(name: Option<&str>) -> Option<Seq<char>> {
    match name {
        Some(s) => Some(s@),
        None => None,
    }
}

/// Taking a name out keeps a history free of duplicates, and leaves no
/// occurrence of the name behind.
pub proof fn lemma_without(names: Seq<Seq<char>>, name: Seq<char>)
    ensures
        without(names, name).len() <= names.len(),
        !without(names, name).contains(name),
        forall|n: Seq<char>| #[trigger] without(names, name).contains(n) ==> names.contains(n),
        forall|n: Seq<char>|
            names.contains(n) && n != name ==> #[trigger] without(names, name).contains(n),
        names.no_duplicates() ==> without(names, name).no_duplicates(),
        !names.contains(name) ==> without(names, name) == names,
    decreases names.len(),
{
    let keep = other_than(name);
    if names.len() == 0 {
        reveal(Seq::filter);
    } else {
        let init = names.drop_last();
        let last = names.last();
        lemma_without(init, name);
        assert(names =~= init.push(last));
        init.lemma_filter_push(last, keep);
        let rest = without(init, name);
        let out = without(names, name);
        assert(out == if last != name { rest.push(last) } else { rest });
        assert forall|n: Seq<char>| out.contains(n) implies names.contains(n) by {
            let i = choose|i: int| 0 <= i < out.len() && out[i] == n;
            if i < rest.len() {
                assert(rest.contains(n));
                let j = choose|j: int| 0 <= j < init.len() && init[j] == n;
                assert(names[j] == n);
            } else {
                assert(names[names.len() - 1] == n);
            }
        }
        assert forall|n: Seq<char>| names.contains(n) && n != name implies out.contains(n) by {
            let i = choose|i: int| 0 <= i < names.len() && names[i] == n;
            if i < init.len() {
                assert(init[i] == n);
                assert(init.contains(n));
                assert(rest.contains(n));
                let j = choose|j: int| 0 <= j < rest.len() && rest[j] == n;
                assert(out[j] == n);
            } else {
                assert(out[out.len() - 1] == n);
            }
        }
        if out.contains(name) {
            let i = choose|i: int| 0 <= i < out.len() && out[i] == name;
            if i < rest.len() {
                assert(rest.contains(name));
            }
        }
        if names.no_duplicates() {
            assert(init.no_duplicates()) by {
                assert forall|i: int, j: int|
                    0 <= i < init.len() && 0 <= j < init.len() && i != j implies init[i]
                    != init[j] by {
                    assert(names[i] != names[j]);
                }
            }
            if last != name {
                assert(!rest.contains(last)) by {
                    if rest.contains(last) {
                        assert(init.contains(last));
                        let j = choose|j: int| 0 <= j < init.len() && init[j] == last;
                        assert(names[j] == names[names.len() - 1]);
                    }
                }
                assert forall|i: int, j: int|
                    0 <= i < out.len() && 0 <= j < out.len() && i != j implies out[i]
                    != out[j] by {
                    if i == rest.len() {
                        assert(rest.contains(out[j]) || out[j] != out[i]);
                    } else if j == rest.len() {
                        assert(rest.contains(out[i]) || out[j] != out[i]);
                    }
                }
            }
        }
        if !names.contains(name) {
            assert(!init.contains(name)) by {
                if init.contains(name) {
                    let j = choose|j: int| 0 <= j < init.len() && init[j] == name;
                    assert(names[j] == name);
                }
            }
            assert(last != name) by {
                assert(names[names.len() - 1] == last);
            }
            assert(out =~= names);
        }
    }
}

/// What a visit does to a history: the name visited is last, the bound holds,
/// and a history without duplicates stays so.
pub proof fn lemma_visited(names: Seq<Seq<char>>, name: Seq<char>)
    ensures
        0 < visited(names, name).len() <= MAX_HISTORY_SIZE,
        visited(names, name).last() == name,
        names.no_duplicates() ==> visited(names, name).no_duplicates(),
        names.no_duplicates() ==> well_formed(visited(names, name)),
{
    lemma_without(names, name);
    let rest = without(names, name);
    let all = rest.push(name);
    let out = visited(names, name);
    if names.no_duplicates() {
        assert(all.no_duplicates()) by {
            assert forall|i: int, j: int|
                0 <= i < all.len() && 0 <= j < all.len() && i != j implies all[i] != all[j] by {
                if i == rest.len() {
                    assert(rest.contains(all[j]) || all[j] != all[i]);
                } else if j == rest.len() {
                    assert(rest.contains(all[i]) || all[j] != all[i]);
                }
            }
        }
        assert(out.no_duplicates());
    }
}

/// The history after visits to `names`, one after the other, that began as
/// `start`.
pub open spec fn visited_all(start: Seq<Seq<char>>, names: Seq<Seq<char>>) -> Seq<Seq<char>>
    decreases names.len(),
{
    if names.len() == 0 {
        start
    } else {
        visited(visited_all(start, names.drop_last()), names.last())
    }
}

/// Whatever sessions are visited, and in whatever order, a well-formed
/// history stays within its bound and names nothing twice, and the session
/// visited last is its newest entry.
pub proof fn lemma_history_invariant(start: Seq<Seq<char>>, names: Seq<Seq<char>>)
    requires
        well_formed(start),
    ensures
        well_formed(visited_all(start, names)),
        names.len() > 0 ==> visited_all(start, names).last() == names.last(),
    decreases names.len(),
{
    if names.len() > 0 {
        lemma_history_invariant(start, names.drop_last());
        lemma_visited(visited_all(start, names.drop_last()), names.last());
    }
}

/// One more visit after visits to `names` is a visit to the history that
/// those left.
pub proof fn lemma_visited_all_push(start: Seq<Seq<char>>, names: Seq<Seq<char>>, name: Seq<char>)
    ensures
        visited_all(start, names.push(name)) == visited(visited_all(start, names), name),
{
    assert(names.push(name).drop_last() =~= names);
}

/// After a first visit, to `a`, the session to go back to is `a`. After a
/// second visit, to `b`, it still is `a`. A third visit, to `a` again,
/// moves `a` behind `b`, and the session to go back to is `b`. An empty
/// history names none.
pub proof fn lemma_previous_after_visits(a: Seq<char>, b: Seq<char>)
    ensures
        previous(Seq::empty()) is None,
        visited_all(Seq::empty(), seq![a]) == seq![a],
        previous(visited_all(Seq::empty(), seq![a])) == Some(a),
        previous(visited_all(Seq::empty(), seq![a, b])) == Some(a),
        a != b ==> visited_all(Seq::empty(), seq![a, b]) == seq![a, b],
        a != b ==> visited_all(Seq::empty(), seq![a, b, a]) == seq![b, a],
        a != b ==> previous(visited_all(Seq::empty(), seq![a, b, a])) == Some(b),
{
    let none = Seq::<Seq<char>>::empty();
    let one = visited_all(none, seq![a]);
    let two = visited_all(none, seq![a, b]);
    let three = visited_all(none, seq![a, b, a]);
    assert(seq![a] =~= none.push(a));
    assert(seq![a, b] =~= seq![a].push(b));
    assert(seq![a, b, a] =~= seq![a, b].push(a));
    lemma_visited_all_push(none, none, a);
    lemma_visited_all_push(none, seq![a], b);
    lemma_visited_all_push(none, seq![a, b], a);
    lemma_without(none, a);
    assert(one =~= seq![a]);
    none.lemma_filter_push(a, other_than(a));
    assert(without(seq![a], a) =~= none);
    if a == b {
        assert(two =~= seq![a]);
    } else {
        lemma_without(seq![a], b);
        assert(two =~= seq![a, b]);
        seq![a].lemma_filter_push(b, other_than(a));
        assert(three =~= seq![b, a]);
    }
}

/// A visit to the session that is the newest entry already changes
/// nothing in a well-formed history.
pub proof fn lemma_revisit_newest(names: Seq<Seq<char>>)
    requires
        well_formed(names),
        names.len() > 0,
    ensures
        visited(names, names.last()) == names,
{
    let name = names.last();
    let before = names.drop_last();
    assert(names =~= before.push(name));
    assert(!before.contains(name)) by {
        if before.contains(name) {
            let i = choose|i: int| 0 <= i < before.len() && before[i] == name;
            assert(names[i] == names[names.len() - 1]);
        }
    }
    lemma_without(before, name);
    before.lemma_filter_push(name, other_than(name));
    assert(without(names, name).push(name) =~= names);
}

/// Takes every occurrence of `name` out of `history`; the rest keep their order.
pub fn remove_session(history: &mut Vec<String>, name: &str)
    ensures
        final(history).deep_view() == without(old(history).deep_view(), name@),
{
    let ghost before = history.deep_view();
    let ghost keep = other_than(name@);
    let target: String = name.to_owned();
    let mut kept: Vec<String> = Vec::new();
    let mut i: usize = 0;
    proof {
        reveal(Seq::filter);
        assert(before.subrange(0, 0) =~= Seq::<Seq<char>>::empty());
        assert(kept.deep_view() =~= Seq::<Seq<char>>::empty());
    }
    while i < history.len()
        invariant
            i <= history.len(),
            history.deep_view() == before,
            keep == other_than(name@),
            target@ == name@,
            kept.deep_view() == before.subrange(0, i as int).filter(keep),
        decreases history.len() - i,
    {
        let ghost done = kept.deep_view();
        proof {
            assert(before.subrange(0, i + 1) =~= before.subrange(0, i as int).push(before[i as int]));
            before.subrange(0, i as int).lemma_filter_push(before[i as int], keep);
            assert(before[i as int] == history[i as int]@);
        }
        if !(history[i] == target) {
            kept.push(history[i].clone());
            assert(kept.deep_view() =~= done.push(before[i as int]));
        }
        i += 1;
    }
    proof {
        assert(before.subrange(0, i as int) =~= before);
    }
    *history = kept;
}

/// Records a visit to `name`: any earlier occurrence leaves, `name` becomes
/// the newest entry, and the oldest entries leave until the bound holds.
pub fn push_history(history: &mut Vec<String>, name: String)
    ensures
        final(history).deep_view() == visited(old(history).deep_view(), name@),
        0 < final(history).len() <= MAX_HISTORY_SIZE,
        final(history).deep_view().last() == name@,
        old(history).deep_view().no_duplicates() ==> final(history).deep_view().no_duplicates(),
{
    let ghost before = history.deep_view();
    remove_session(history, name.as_str());
    let ghost rest = history.deep_view();
    history.push(name);
    let ghost all = history.deep_view();
    proof {
        assert(all =~= rest.push(name@));
    }
    while history.len() > MAX_HISTORY_SIZE
        invariant
            history.len() <= all.len(),
            all.len() <= MAX_HISTORY_SIZE ==> history.len() == all.len(),
            all.len() > MAX_HISTORY_SIZE ==> history.len() >= MAX_HISTORY_SIZE,
            history.deep_view() == all.subrange(all.len() - history.len(), all.len() as int),
        decreases history.len(),
    {
        let ghost cur = history.deep_view();
        history.remove(0);
        assert(history.deep_view() =~= cur.subrange(1, cur.len() as int));
    }
    proof {
        assert(history.deep_view() =~= newest(all, MAX_HISTORY_SIZE as int));
        lemma_visited(before, name@);
    }
}

/// The session to go back to, if the history names one.
pub fn previous_session(history: &Vec<String>) -> (name: Option<&str>)
    ensures
        text_of(name) == previous(history.deep_view()),
{
    let n: usize = history.len();
    if n >= 2 {
        Some(history[n - 2].as_str())
    } else if n == 1 {
        Some(history[0].as_str())
    } else {
        None
    }
}

} // verus!
