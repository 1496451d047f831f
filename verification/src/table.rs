//! Tables that hold one row for each name, as lists of rows.

use vstd::prelude::*;

verus! {

/// No name stands in two rows.
pub open spec fn distinct<V>(rows: Seq<(Seq<char>, V)>) -> bool {
    forall|i: int, j: int|
        0 <= i < j < rows.len() ==> (#[trigger] rows[i]).0 != (#[trigger] rows[j]).0
}

/// Some row stands under `name`.
pub open spec fn has_name<V>(rows: Seq<(Seq<char>, V)>, name: Seq<char>) -> bool {
    exists|i: int| 0 <= i < rows.len() && (#[trigger] rows[i]).0 == name
}

/// What the rows hold, by name.
pub open spec fn by_name<V>(rows: Seq<(Seq<char>, V)>) -> Map<Seq<char>, V>
    decreases rows.len(),
{
    if rows.len() == 0 {
        Map::empty()
    } else {
        by_name(rows.drop_last()).insert(rows.last().0, rows.last().1)
    }
}

/// The rows but the last have no name twice if the rows have none.
pub proof fn lemma_distinct_front<V>(rows: Seq<(Seq<char>, V)>)
    requires
        distinct(rows),
        rows.len() > 0,
    ensures
        distinct(rows.drop_last()),
{
}

/// A name is held exactly when a row stands under it.
pub proof fn lemma_by_name_dom<V>(rows: Seq<(Seq<char>, V)>, name: Seq<char>)
    ensures
        by_name(rows).dom().contains(name) <==> has_name(rows, name),
    decreases rows.len(),
{
    if rows.len() > 0 {
        let front = rows.drop_last();
        lemma_by_name_dom(front, name);
        if has_name(rows, name) {
            let i = choose|i: int| 0 <= i < rows.len() && (#[trigger] rows[i]).0 == name;
            if i < front.len() {
                assert(front[i].0 == name);
            }
        }
    }
}

/// Where no name stands twice, what is held under a name is what its row
/// holds.
pub proof fn lemma_by_name_at<V>(rows: Seq<(Seq<char>, V)>, i: int)
    requires
        distinct(rows),
        0 <= i < rows.len(),
    ensures
        by_name(rows).dom().contains(rows[i].0),
        by_name(rows)[rows[i].0] == rows[i].1,
    decreases rows.len(),
{
    if i < rows.len() - 1 {
        lemma_distinct_front(rows);
        lemma_by_name_at(rows.drop_last(), i);
    }
}

/// A new value in a row changes what is held under its name and nothing
/// else.
pub proof fn lemma_by_name_update<V>(rows: Seq<(Seq<char>, V)>, i: int, value: V)
    requires
        distinct(rows),
        0 <= i < rows.len(),
    ensures
        distinct(rows.update(i, (rows[i].0, value))),
        by_name(rows.update(i, (rows[i].0, value))) == by_name(rows).insert(rows[i].0, value),
    decreases rows.len(),
{
    let updated = rows.update(i, (rows[i].0, value));
    let front = rows.drop_last();
    if i == rows.len() - 1 {
        assert(updated.drop_last() =~= front);
    } else {
        lemma_distinct_front(rows);
        lemma_by_name_update(front, i, value);
        assert(updated.drop_last() =~= front.update(i, (front[i].0, value)));
    }
}

/// A row under a new name, put last, adds that name and changes nothing
/// else.
pub proof fn lemma_by_name_push<V>(rows: Seq<(Seq<char>, V)>, name: Seq<char>, value: V)
    requires
        distinct(rows),
        !has_name(rows, name),
    ensures
        distinct(rows.push((name, value))),
        by_name(rows.push((name, value))) == by_name(rows).insert(name, value),
{
    let pushed = rows.push((name, value));
    assert(pushed.drop_last() =~= rows);
}

/// The first row of `table` under `name`.
pub fn position<T>(table: &Vec<(String, T)>, name: &str) -> (found: Option<usize>)
    ensures
        match found {
            Some(i) => i < table@.len() && table@[i as int].0@ == name@ && forall|j: int|
                0 <= j < i ==> (#[trigger] table@[j]).0@ != name@,
            None => forall|j: int| 0 <= j < table@.len() ==> (#[trigger] table@[j]).0@ != name@,
        },
{
    let mut i: usize = 0;
    while i < table.len()
        invariant
            i <= table@.len(),
            forall|j: int| 0 <= j < i ==> (#[trigger] table@[j]).0@ != name@,
        decreases table.len() - i,
    {
        if table[i].0.as_str().eq(name) {
            return Some(i);
        }
        i = i + 1;
    }
    None
}

} // verus!
