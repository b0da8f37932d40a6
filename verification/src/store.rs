//! The ordered list of task descriptions and the operations on it.

use crate::order::{lemma_task_order_total, precedes, task_le, task_order};
use crate::text::{
    descriptions_of, join_lines, lines_of, split_lines, terminate_lines, terminated, text_of,
};
use vstd::prelude::*;
use vstd::relations::sorted_by;
use vstd::seq_lib::{group_to_multiset_ensures, lemma_sorted_unique};

verus! {

/// An ordered list of task descriptions. Duplicates are allowed and every
/// string is a valid description.
#[derive(Debug, PartialEq, Eq)]
pub struct Tasks {
    pub tasks: Vec<String>,
}

/// Whether `i` is the place of the first entry of `list` equal to `d`.
pub open spec fn first_at(list: Seq<Seq<char>>, d: Seq<char>, i: int) -> bool {
    &&& 0 <= i < list.len()
    &&& list[i] == d
    &&& forall|j: int| 0 <= j < i ==> list[j] != d
}

/// The list without its first entry equal to `d`; the list itself where no
/// entry equals `d`.
pub open spec fn without_first(list: Seq<Seq<char>>, d: Seq<char>) -> Seq<Seq<char>> {
    if list.contains(d) {
        list.remove(choose|i: int| first_at(list, d, i))
    } else {
        list
    }
}

/// The list after removing, for each of `ds` in turn, the first remaining
/// entry equal to it.
pub open spec fn remove_each(list: Seq<Seq<char>>, ds: Seq<Seq<char>>) -> Seq<Seq<char>>
    decreases ds.len(),
{
    if ds.len() == 0 {
        list
    } else {
        without_first(remove_each(list, ds.drop_last()), ds.last())
    }
}

/// Those of `ds`, in order, for which no entry was left to remove when their
/// turn came.
pub open spec fn not_found(list: Seq<Seq<char>>, ds: Seq<Seq<char>>) -> Seq<Seq<char>>
    decreases ds.len(),
{
    if ds.len() == 0 {
        Seq::empty()
    } else if remove_each(list, ds.drop_last()).contains(ds.last()) {
        not_found(list, ds.drop_last())
    } else {
        not_found(list, ds.drop_last()).push(ds.last())
    }
}

/// Whether every entry sorts at or before every later entry.
pub open spec fn is_sorted(list: Seq<Seq<char>>) -> bool {
    forall|i: int, j: int| 0 <= i < j < list.len() ==> task_le(#[trigger] list[i], #[trigger] list[j])
}

/// The entries of `list` in ascending order.
pub open spec fn sorted_tasks(list: Seq<Seq<char>>) -> Seq<Seq<char>> {
    list.sort_by(task_order())
}

/// The ascending order of a list is the only sorted list with the same
/// entries, each as often.
pub proof fn lemma_sorted_tasks_unique(list: Seq<Seq<char>>, sorted: Seq<Seq<char>>)
    requires
        is_sorted(sorted),
        sorted.to_multiset() == list.to_multiset(),
    ensures
        sorted == sorted_tasks(list),
{
    lemma_task_order_total();
    list.lemma_sort_by_ensures(task_order());
    assert(sorted_by(sorted, task_order()));
    lemma_sorted_unique(sorted, sorted_tasks(list), task_order());
}

/// Sorting rearranges the entries and drops or adds none, and the result is
/// in ascending order.
pub proof fn lemma_sort_permutes(list: Seq<Seq<char>>)
    ensures
        sorted_tasks(list).to_multiset() == list.to_multiset(),
        sorted_tasks(list).len() == list.len(),
        is_sorted(sorted_tasks(list)),
{
    broadcast use group_to_multiset_ensures;

    lemma_task_order_total();
    list.lemma_sort_by_ensures(task_order());
    let sorted = sorted_tasks(list);
    vstd::seq_lib::to_multiset_len(sorted);
    vstd::seq_lib::to_multiset_len(list);
    assert forall|i: int, j: int| 0 <= i < j < sorted.len() implies task_le(
        #[trigger] sorted[i],
        #[trigger] sorted[j],
    ) by {
        assert(task_order()(sorted[i], sorted[j]));
    }
}

/// Sorting a sorted list changes nothing: sorting twice is sorting once.
pub proof fn lemma_sort_idempotent(list: Seq<Seq<char>>)
    ensures
        sorted_tasks(sorted_tasks(list)) == sorted_tasks(list),
{
    lemma_sort_permutes(list);
    lemma_sorted_tasks_unique(sorted_tasks(list), sorted_tasks(list));
}

/// Where the list holds `d` once, at place `i`, asking twice for `d` removes
/// that entry, and the second request alone is left unmet.
pub proof fn lemma_remove_twice(list: Seq<Seq<char>>, d: Seq<char>, i: int)
    requires
        0 <= i < list.len(),
        list[i] == d,
        forall|j: int| 0 <= j < list.len() && j != i ==> list[j] != d,
    ensures
        remove_each(list, seq![d, d]) == list.remove(i),
        not_found(list, seq![d, d]) == seq![d],
{
    let twice = seq![d, d];
    let once = seq![d];
    assert(twice.drop_last() =~= once);
    assert(once.drop_last() =~= Seq::<Seq<char>>::empty());
    assert(remove_each(list, once.drop_last()) == list);
    assert(first_at(list, d, i));
    assert(list.contains(d));
    let c = choose|c: int| first_at(list, d, c);
    assert(c == i);
    assert(remove_each(list, once) == list.remove(i));
    assert(!list.remove(i).contains(d));
    assert(not_found(list, once.drop_last()) =~= Seq::<Seq<char>>::empty());
    assert(not_found(list, once) =~= Seq::<Seq<char>>::empty());
    assert(not_found(list, twice) =~= seq![d]);
}

impl View for Tasks {
    type V = Seq<Seq<char>>;

    open spec fn view(&self) -> Seq<Seq<char>> {
        descriptions_of(self.tasks@)
    }
}

impl Tasks {
    /// The empty list.
    pub fn new() -> (result: Tasks)
        ensures
            result@ == Seq::<Seq<char>>::empty(),
    {
        let result = Tasks { tasks: Vec::new() };
        assert(result@ =~= Seq::<Seq<char>>::empty());
        result
    }

    /// The text of newly made storage: empty, so that it reads as the empty
    /// list.
    pub fn create() -> (text: String)
        ensures
            text@ == Seq::<char>::empty(),
            lines_of(text@) == Seq::<Seq<char>>::empty(),
    {
        String::new()
    }

    /// The list that a stored text holds: one entry for each line.
    pub fn read(text: &str) -> (result: Tasks)
        ensures
            result@ == lines_of(text@),
    {
        Tasks { tasks: split_lines(text) }
    }

    /// The text to store for the list: one line for each entry, in order.
    pub fn write(&self) -> (text: String)
        ensures
            text@ == text_of(self@),
    {
        join_lines(&self.tasks)
    }

    /// The text that shows the list: one line for each entry, in order, and
    /// nothing for the empty list.
    pub fn list(&self) -> (text: String)
        ensures
            text@ == terminated(self@),
    {
        terminate_lines(&self.tasks)
    }

    /// Appends every description to the end of the list, in the order given.
    pub fn add(&mut self, descriptions: Vec<String>) -> (result: &mut Self)
        ensures
            result@ == old(self)@ + descriptions_of(descriptions@),
            *final(self) == *final(result),
    {
        let mut descriptions = descriptions;
        let ghost added = descriptions_of(descriptions@);
        self.tasks.append(&mut descriptions);
        assert(self@ =~= old(self)@ + added);
        self
    }

    /// Removes the first entry equal to `description`, if there is one, and
    /// says whether there was.
    pub fn remove_first(&mut self, description: &String) -> (found: bool)
        ensures
            found == old(self)@.contains(description@),
            final(self)@ == without_first(old(self)@, description@),
    {
        let mut i: usize = 0;
        while i < self.tasks.len()
            invariant
                i <= self.tasks.len(),
                *self == *old(self),
                forall|j: int| 0 <= j < i ==> self@[j] != description@,
            decreases self.tasks.len() - i,
        {
            if self.tasks[i] == *description {
                assert(first_at(self@, description@, i as int));
                self.tasks.remove(i);
                assert(self@ =~= old(self)@.remove(i as int));
                return true;
            }
            i += 1;
        }
        false
    }

    /// For each description in turn, removes the first remaining entry equal
    /// to it. Returns the descriptions for which no entry was left, in the
    /// order given; they are skipped, and the others are still removed.
    pub fn remove(&mut self, descriptions: Vec<String>) -> (missing: Vec<String>)
        ensures
            final(self)@ == remove_each(old(self)@, descriptions_of(descriptions@)),
            descriptions_of(missing@) == not_found(old(self)@, descriptions_of(descriptions@)),
    {
        let ghost ds = descriptions_of(descriptions@);
        let mut missing: Vec<String> = Vec::new();
        let mut k: usize = 0;
        assert(descriptions_of(missing@) =~= not_found(old(self)@, ds.take(0)));
        while k < descriptions.len()
            invariant
                k <= descriptions.len(),
                ds == descriptions_of(descriptions@),
                self@ == remove_each(old(self)@, ds.take(k as int)),
                descriptions_of(missing@) == not_found(old(self)@, ds.take(k as int)),
            decreases descriptions.len() - k,
        {
            let ghost before = descriptions_of(missing@);
            proof {
                assert(ds.take(k as int + 1).drop_last() =~= ds.take(k as int));
                assert(ds.take(k as int + 1).last() == descriptions@[k as int]@);
            }
            let found = self.remove_first(&descriptions[k]);
            if !found {
                missing.push(descriptions[k].clone());
                assert(descriptions_of(missing@) =~= before.push(descriptions@[k as int]@));
            }
            k += 1;
        }
        assert(ds.take(k as int) =~= ds);
        missing
    }

    /// Reorders the entries ascending, byte by byte. No entry is dropped or
    /// added, and there is only one such order.
    pub fn sort(&mut self) -> (result: &mut Self)
        ensures
            result@ == sorted_tasks(old(self)@),
            is_sorted(result@),
            result@.to_multiset() == old(self)@.to_multiset(),
            *final(self) == *final(result),
    {
        let n = self.tasks.len();
        let mut i: usize = 0;
        while i < n
            invariant
                i <= n,
                self.tasks.len() == n,
                is_sorted(self@.take(i as int)),
                self@.to_multiset() == old(self)@.to_multiset(),
            decreases n - i,
        {
            let ghost start = self@;
            let x = self.tasks.remove(i);
            let ghost rest = self@;
            assert(rest =~= start.remove(i as int));
            let mut j: usize = i;
            while j > 0 && !precedes(self.tasks[j - 1].as_str(), x.as_str())
                invariant
                    j <= i,
                    i < n,
                    self.tasks.len() == n - 1,
                    self@ == rest,
                    forall|k: int| j <= k < i ==> !task_le(#[trigger] rest[k], x@),
                decreases j,
            {
                j -= 1;
            }
            self.tasks.insert(j, x);
            proof {
                broadcast use group_to_multiset_ensures;
                vstd::seq_lib::to_multiset_insert(rest, j as int, x@);
                assert(self@ =~= rest.insert(j as int, x@));
                assert(self@.to_multiset() =~= start.to_multiset());
                let now = self@.take(i as int + 1);
                let prefix = start.take(i as int);
                assert forall|k: int| j <= k < prefix.len() implies !task_le(
                    #[trigger] prefix[k],
                    x@,
                ) by {
                    assert(prefix[k] == rest[k]);
                }
                assert forall|a: int, b: int| 0 <= a < b < now.len() implies task_le(
                    #[trigger] now[a],
                    #[trigger] now[b],
                ) by {
                    lemma_sorted_step(prefix, x@, j as int, a, b);
                    assert(now =~= prefix.insert(j as int, x@));
                }
            }
            i += 1;
        }
        proof {
            assert(self@.take(n as int) =~= self@);
            lemma_sorted_tasks_unique(old(self)@, self@);
        }
        self
    }
}

/// Placing `x` into a sorted list, after every entry that sorts at or before
/// it and before the others, leaves entries `a` and `b` of the result in order.
proof fn lemma_sorted_step(prefix: Seq<Seq<char>>, x: Seq<char>, j: int, a: int, b: int)
    requires
        is_sorted(prefix),
        0 <= j <= prefix.len(),
        j > 0 ==> task_le(prefix[j - 1], x),
        forall|k: int| j <= k < prefix.len() ==> !task_le(#[trigger] prefix[k], x),
        0 <= a < b <= prefix.len(),
    ensures
        task_le(prefix.insert(j, x)[a], prefix.insert(j, x)[b]),
{
    let r = task_order();
    lemma_task_order_total();
    let now = prefix.insert(j, x);
    if b == j {
        assert(r(prefix[a], prefix[j - 1]) && r(prefix[j - 1], x)) by {
            assert(r(prefix[j - 1], prefix[j - 1]));
        }
        assert(r(prefix[a], x));
    } else if a == j {
        assert(!task_le(prefix[b - 1], x));
        assert(r(prefix[b - 1], x) || r(x, prefix[b - 1]));
    } else {
        let a0 = if a < j { a } else { a - 1 };
        let b0 = if b < j { b } else { b - 1 };
        assert(now[a] == prefix[a0]);
        assert(now[b] == prefix[b0]);
    }
}

} // verus!
