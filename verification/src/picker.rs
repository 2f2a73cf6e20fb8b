//! The picker's side: the text it is given to choose from, and the way
//! back from what it answers to a row.

use vstd::prelude::*;
use vstd::string::StringExecFns;

verus! {

/// The rows as one text, a line feed between each two.
pub open spec fn joined(rows: Seq<Seq<char>>) -> Seq<char>
    decreases rows.len(),
{
    if rows.len() == 0 {
        Seq::empty()
    } else if rows.len() == 1 {
        rows[0]
    } else {
        joined(rows.drop_last()) + seq!['\n'] + rows.last()
    }
}

/// Whether `at` is the first row that reads `text`.
pub open spec fn first_row(rows: Seq<Seq<char>>, text: Seq<char>, at: int) -> bool {
    &&& 0 <= at < rows.len()
    &&& rows[at] == text
    &&& forall|k: int| 0 <= k < at ==> rows[k] != text
}

/// The chooser that the user picks a row with.
pub struct Picker;

impl Picker {
    /// The text that the picker reads its rows from.
    pub fn input(rows: &Vec<String>) -> (text: String)
        ensures
            text@ == joined(rows.deep_view()),
    {
        let ghost given = rows.deep_view();
        let mut text = String::new();
        let mut i: usize = 0;
        proof {
            reveal_strlit("\n");
            assert("\n"@ =~= seq!['\n']);
            assert(given.take(0) =~= Seq::<Seq<char>>::empty());
        }
        while i < rows.len()
            invariant
                i <= rows.len(),
                given == rows.deep_view(),
                "\n"@ == seq!['\n'],
                text@ == joined(given.take(i as int)),
            decreases rows.len() - i,
        {
            proof {
                assert(given.take(i + 1).drop_last() =~= given.take(i as int));
                assert(given.take(i + 1).last() == rows[i as int]@);
            }
            if i > 0 {
                text.append("\n");
            }
            text.append(rows[i].as_str());
            proof {
                if i == 0 {
                    assert(text@ =~= rows[0]@);
                }
            }
            i += 1;
        }
        proof {
            assert(given.take(i as int) =~= given);
        }
        text
    }

    /// The row that the picker's answer stands for: the first row that
    /// reads as the chosen text does. There is none where the user gave
    /// up, where nothing was chosen, and where no row reads so.
    pub fn pick(rows: &Vec<String>, aborted: bool, chosen: Option<&str>) -> (picked: Option<usize>)
        ensures
            match picked {
                Some(at) => !aborted && chosen is Some && first_row(
                    rows.deep_view(),
                    chosen->0@,
                    at as int,
                ),
                None => aborted || chosen is None || !rows.deep_view().contains(chosen->0@),
            },
    {
        if aborted {
            return None;
        }
        match chosen {
            None => None,
            Some(text) => {
                let wanted: String = text.to_owned();
                let mut i: usize = 0;
                while i < rows.len()
                    invariant
                        i <= rows.len(),
                        !aborted,
                        chosen == Some(text),
                        wanted@ == text@,
                        forall|k: int| 0 <= k < i ==> rows.deep_view()[k] != text@,
                    decreases rows.len() - i,
                {
                    if rows[i] == wanted {
                        return Some(i);
                    }
                    i += 1;
                }
                None
            },
        }
    }
}

} // verus!
