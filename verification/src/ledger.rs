//! The results of finished commands that wait to be fetched.

use crate::name_map::NameMap;
use vstd::prelude::*;

verus! {

/// The lines as one text, a line feed between each two of them.
pub open spec fn joined(lines: Seq<Seq<char>>) -> Seq<char>
    decreases lines.len(),
{
    if lines.len() == 0 {
        Seq::empty()
    } else if lines.len() == 1 {
        lines[0]
    } else {
        joined(lines.drop_last()) + seq!['\n'] + lines.last()
    }
}

/// The results that wait under a name: none where the name has no entry.
pub open spec fn pending(tasks: Map<Seq<char>, Seq<Seq<char>>>, name: Seq<char>) -> Seq<
    Seq<char>,
> {
    if tasks.contains_key(name) {
        tasks[name]
    } else {
        Seq::empty()
    }
}

/// The ledger after one more result has come in under a name.
pub open spec fn appended(
    tasks: Map<Seq<char>, Seq<Seq<char>>>,
    name: Seq<char>,
    text: Seq<char>,
) -> Map<Seq<char>, Seq<Seq<char>>> {
    tasks.insert(name, pending(tasks, name).push(text))
}

/// The text that a poll under a name hands out.
pub open spec fn drained_text(tasks: Map<Seq<char>, Seq<Seq<char>>>, name: Seq<char>) -> Seq<
    char,
> {
    joined(pending(tasks, name))
}

/// The ledger after a poll under a name.
pub open spec fn drained(tasks: Map<Seq<char>, Seq<Seq<char>>>, name: Seq<char>) -> Map<
    Seq<char>,
    Seq<Seq<char>>,
> {
    tasks.remove(name)
}

/// The ledger after the results have come in, in their order.
pub open spec fn appended_all(
    tasks: Map<Seq<char>, Seq<Seq<char>>>,
    results: Seq<(Seq<char>, Seq<char>)>,
) -> Map<Seq<char>, Seq<Seq<char>>>
    decreases results.len(),
{
    if results.len() == 0 {
        tasks
    } else {
        appended(appended_all(tasks, results.drop_last()), results.last().0, results.last().1)
    }
}

/// The texts of the results that came in under a name, in their order.
pub open spec fn texts_under(results: Seq<(Seq<char>, Seq<char>)>, name: Seq<char>) -> Seq<
    Seq<char>,
>
    decreases results.len(),
{
    if results.len() == 0 {
        Seq::empty()
    } else if results.last().0 == name {
        texts_under(results.drop_last(), name).push(results.last().1)
    } else {
        texts_under(results.drop_last(), name)
    }
}

/// A poll drains: right after a poll under a name, a second poll under the
/// same name hands out the empty text and leaves the ledger as it is.
pub proof fn lemma_second_poll_is_empty(tasks: Map<Seq<char>, Seq<Seq<char>>>, name: Seq<char>)
    ensures
        drained_text(drained(tasks, name), name) == Seq::<char>::empty(),
        drained(drained(tasks, name), name) == drained(tasks, name),
{
    assert(drained(drained(tasks, name), name) =~= drained(tasks, name));
}

/// Whatever the order in which results come in, the results that wait under
/// a name afterwards are those that waited there before, followed by the
/// results that came in under that very name, in the order of their coming.
pub proof fn lemma_results_stay_with_their_server(
    tasks: Map<Seq<char>, Seq<Seq<char>>>,
    results: Seq<(Seq<char>, Seq<char>)>,
    name: Seq<char>,
)
    ensures
        pending(appended_all(tasks, results), name) == pending(tasks, name) + texts_under(
            results,
            name,
        ),
    decreases results.len(),
{
    if results.len() == 0 {
        assert(pending(tasks, name) + Seq::<Seq<char>>::empty() =~= pending(tasks, name));
    } else {
        lemma_results_stay_with_their_server(tasks, results.drop_last(), name);
        let before = appended_all(tasks, results.drop_last());
        if results.last().0 == name {
            assert(pending(before, name).push(results.last().1) =~= pending(tasks, name)
                + texts_under(results, name));
        }
    }
}

/// Results that come in for servers of different names, one for each, leave
/// under each name exactly the one result of that server, in whatever order
/// they came.
pub proof fn lemma_one_result_for_each_server(results: Seq<(Seq<char>, Seq<char>)>, i: int)
    requires
        crate::name_map::names_distinct(results),
        0 <= i < results.len(),
    ensures
        pending(appended_all(Map::empty(), results), results[i].0) == seq![results[i].1],
    decreases results.len(),
{
    let name = results[i].0;
    lemma_results_stay_with_their_server(Map::empty(), results, name);
    lemma_texts_under_distinct(results, i);
    assert(Seq::<Seq<char>>::empty() + seq![results[i].1] =~= seq![results[i].1]);
}

proof fn lemma_texts_under_absent(results: Seq<(Seq<char>, Seq<char>)>, name: Seq<char>)
    requires
        !crate::name_map::has_name(results, name),
    ensures
        texts_under(results, name) == Seq::<Seq<char>>::empty(),
    decreases results.len(),
{
    if results.len() > 0 {
        let last = results.len() - 1;
        assert(results[last].0 != name);
        assert forall|j: int| 0 <= j < results.drop_last().len() implies (
        #[trigger] results.drop_last()[j]).0 != name by {
            assert(results[j].0 != name);
        }
        lemma_texts_under_absent(results.drop_last(), name);
    }
}

proof fn lemma_texts_under_distinct(results: Seq<(Seq<char>, Seq<char>)>, i: int)
    requires
        crate::name_map::names_distinct(results),
        0 <= i < results.len(),
    ensures
        texts_under(results, results[i].0) == seq![results[i].1],
    decreases results.len(),
{
    let name = results[i].0;
    let last = results.len() - 1;
    let front = results.drop_last();
    if i == last {
        assert forall|j: int| 0 <= j < front.len() implies (#[trigger] front[j]).0 != name by {
            assert(results[j].0 != results[last].0);
        }
        lemma_texts_under_absent(front, name);
        assert(Seq::<Seq<char>>::empty().push(results[i].1) =~= seq![results[i].1]);
    } else {
        assert(results[i].0 != results[last].0);
        assert forall|a: int, b: int| 0 <= a < b < front.len() implies (#[trigger] front[a]).0 != (
        #[trigger] front[b]).0 by {
            assert(results[a].0 != results[b].0);
        }
        assert(front[i] == results[i]);
        lemma_texts_under_distinct(front, i);
    }
}

/// The results of finished commands that nobody has fetched yet, for each
/// server name in the order in which they came in.
#[derive(Debug)]
pub struct Ledger {
    tasks: NameMap<Vec<String>>,
}

impl View for Ledger {
    type V = Map<Seq<char>, Seq<Seq<char>>>;

    closed spec fn view(&self) -> Map<Seq<char>, Seq<Seq<char>>> {
        self.tasks@
    }
}

fn join_lines(lines: &Vec<String>) -> (text: String)
    ensures
        text@ == joined(lines.deep_view()),
{
    let mut text = String::new();
    let mut i: usize = 0;
    while i < lines.len()
        invariant
            i <= lines@.len(),
            text@ == joined(lines.deep_view().take(i as int)),
        decreases lines@.len() - i,
    {
        let ghost before = lines.deep_view().take(i as int);
        let ghost after = lines.deep_view().take(i + 1);
        proof {
            assert(after.drop_last() =~= before);
            assert(after.last() == lines@[i as int]@);
        }
        if i > 0 {
            proof {
                reveal_strlit("\n");
                assert("\n"@ =~= seq!['\n']);
            }
            text.append("\n");
        }
        text.append(lines[i].as_str());
        proof {
            if i == 0 {
                assert(before =~= Seq::<Seq<char>>::empty());
                assert(Seq::<char>::empty() + lines@[i as int]@ =~= lines@[i as int]@);
            }
        }
        i = i + 1;
    }
    assert(lines.deep_view().take(i as int) =~= lines.deep_view());
    text
}

impl Ledger {
    /// A ledger without results.
    pub fn new() -> (ledger: Self)
        ensures
            ledger@ == Map::<Seq<char>, Seq<Seq<char>>>::empty(),
    {
        Ledger { tasks: NameMap::new() }
    }

    /// Puts a result at the end of those that wait under the name.
    pub fn append(&mut self, name: String, text: String)
        ensures
            final(self)@ == appended(old(self)@, name@, text@),
    {
        let mut lines: Vec<String> = match self.tasks.remove(&name) {
            Some(lines) => lines,
            None => Vec::new(),
        };
        let ghost before = lines.deep_view();
        lines.push(text);
        proof {
            assert(lines.deep_view() =~= before.push(text@));
            assert(before =~= pending(old(self)@, name@));
        }
        self.tasks.insert(name, lines);
        assert(self@ =~= appended(old(self)@, name@, text@));
    }

    /// Takes out all that waits under the name and hands it out as one text.
    pub fn drain(&mut self, name: &String) -> (text: String)
        ensures
            text@ == drained_text(old(self)@, name@),
            final(self)@ == drained(old(self)@, name@),
    {
        match self.tasks.remove(name) {
            Some(lines) => join_lines(&lines),
            None => String::new(),
        }
    }
}

} // verus!
