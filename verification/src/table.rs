use vstd::prelude::*;

use crate::priority::Priority;
use crate::timestamp::Timestamp;
use crate::todo::Todo;

verus! {

/// The test a delete applies: keep every row whose id is not the deleted
/// one.
pub open spec fn keeps_id(id: i64) -> spec_fn(Todo) -> bool {
    |t: Todo| t.id != id
}

/// The first match for `id` in `rows`, scanning from the front.
pub open spec fn find_by_id(rows: Seq<Todo>, id: i64) -> Option<Todo>
    decreases rows.len(),
{
    if rows.len() == 0 {
        None
    } else if rows[0].id == id {
        Some(rows[0])
    } else {
        find_by_id(rows.drop_first(), id)
    }
}

/// A model of the todos table of one store: the live rows in insertion
/// order, and the id the next insert will take. Ids start at 1, grow by one
/// per insert, and are never reused while the table lives; only a full
/// prune resets the sequence.
pub struct TodoTable {
    pub rows: Vec<Todo>,
    pub next_id: i64,
}

impl TodoTable {
    /// Table invariant: the next id is positive, every row carries an id
    /// assigned before it and a well-formed date, and no id repeats.
    pub open spec fn wf(self) -> bool {
        &&& 1 <= self.next_id
        &&& forall|i: int|
            0 <= i < self.rows@.len() ==> 1 <= (#[trigger] self.rows@[i]).id < self.next_id
                && self.rows@[i].date.wf()
        &&& forall|i: int, j: int|
            0 <= i < j < self.rows@.len() ==> (#[trigger] self.rows@[i]).id != (
            #[trigger] self.rows@[j]).id
    }

    /// A fresh, empty table, its id sequence at the initial value 1.
    pub fn new() -> (r: TodoTable)
        ensures
            r.wf(),
            r.rows@ == Seq::<Todo>::empty(),
            r.next_id == 1,
    {
        let r = TodoTable { rows: Vec::new(), next_id: 1 };
        proof {
            assert(r.rows@ =~= Seq::<Todo>::empty());
        }
        r
    }

    /// Inserts one row carrying the next id, the given creation time, text
    /// and priority; returns the assigned id.
    pub fn add(&mut self, text: String, priority: Priority, now: Timestamp) -> (id: i64)
        requires
            old(self).wf(),
            now.wf(),
            old(self).next_id < i64::MAX,
        ensures
            final(self).wf(),
            id == old(self).next_id,
            final(self).next_id == old(self).next_id + 1,
            final(self).rows@ == old(self).rows@.push(
                Todo { id: old(self).next_id, date: now, text, priority },
            ),
    {
        let id = self.next_id;
        self.rows.push(Todo { id, date: now, text, priority });
        self.next_id = self.next_id + 1;
        id
    }

    /// Deletes the row with the given id, if any; a missing id is a silent
    /// no-op, not an error. The id sequence is unaffected: ids are not
    /// reused after a delete.
    pub fn delete(&mut self, id: i64)
        requires
            old(self).wf(),
        ensures
            final(self).wf(),
            final(self).next_id == old(self).next_id,
            final(self).rows@ == old(self).rows@.filter(keeps_id(id)),
    {
        let ghost orig = self.rows@;
        let mut i: usize = 0;
        while i < self.rows.len()
            invariant
                self.wf(),
                self.rows@ == orig,
                orig == old(self).rows@,
                self.next_id == old(self).next_id,
                0 <= i <= orig.len(),
                forall|j: int| 0 <= j < i ==> (#[trigger] orig[j]).id != id,
            decreases orig.len() - i,
        {
            if self.rows[i].id == id {
                proof {
                    assert forall|j: int| 0 <= j < orig.len() && j != i implies (
                    #[trigger] orig[j]).id != id by {
                        if j < i {
                            assert(orig[j].id != orig[i as int].id);
                        } else {
                            assert(orig[i as int].id != orig[j].id);
                        }
                    }
                }
                self.rows.remove(i);
                proof {
                    lemma_filter_skips_one(orig, keeps_id(id), i as int);
                    assert(self.rows@ == orig.filter(keeps_id(id)));
                    assert forall|a: int, b: int|
                        0 <= a < b < self.rows@.len() implies (#[trigger] self.rows@[a]).id != (
                    #[trigger] self.rows@[b]).id by {
                        assert(self.rows@[a] == if a < i {
                            orig[a]
                        } else {
                            orig[a + 1]
                        });
                        assert(self.rows@[b] == if b < i {
                            orig[b]
                        } else {
                            orig[b + 1]
                        });
                    }
                }
                return ;
            }
            i = i + 1;
        }
        proof {
            lemma_filter_keeps_all(orig, keeps_id(id));
        }
    }

    /// Deletes all rows unconditionally and resets the id sequence, so the
    /// next insert starts again from id 1.
    pub fn prune(&mut self)
        ensures
            final(self).wf(),
            final(self).next_id == 1,
            final(self).rows@ == Seq::<Todo>::empty(),
    {
        self.rows.clear();
        self.next_id = 1;
        proof {
            assert(self.rows@ =~= Seq::<Todo>::empty());
        }
    }

    /// The row holding the given id, if any.
    pub fn get_by_id(&self, id: i64) -> (r: Option<&Todo>)
        ensures
            match r {
                Some(t) => find_by_id(self.rows@, id) == Some(*t),
                None => find_by_id(self.rows@, id) is None,
            },
    {
        let mut i: usize = 0;
        proof {
            assert(self.rows@.subrange(0, self.rows@.len() as int) =~= self.rows@);
        }
        while i < self.rows.len()
            invariant
                0 <= i <= self.rows@.len(),
                find_by_id(self.rows@, id) == find_by_id(
                    self.rows@.subrange(i as int, self.rows@.len() as int),
                    id,
                ),
            decreases self.rows@.len() - i,
        {
            let ghost rest = self.rows@.subrange(i as int, self.rows@.len() as int);
            if self.rows[i].id == id {
                proof {
                    assert(rest[0] == self.rows@[i as int]);
                }
                return Some(&self.rows[i]);
            }
            proof {
                assert(rest[0] == self.rows@[i as int]);
                assert(rest.drop_first() =~= self.rows@.subrange(
                    i + 1 as int,
                    self.rows@.len() as int,
                ));
            }
            i = i + 1;
        }
        proof {
            assert(self.rows@.subrange(i as int, self.rows@.len() as int).len() == 0);
        }
        None
    }
}

/// A filter whose test holds of every element changes nothing.
pub proof fn lemma_filter_keeps_all(s: Seq<Todo>, pred: spec_fn(Todo) -> bool)
    requires
        forall|i: int| 0 <= i < s.len() ==> pred(#[trigger] s[i]),
    ensures
        s.filter(pred) == s,
    decreases s.len(),
{
    reveal(Seq::filter);
    if s.len() > 0 {
        assert(forall|i: int| 0 <= i < s.len() - 1 ==> s.drop_last()[i] == #[trigger] s[i]);
        lemma_filter_keeps_all(s.drop_last(), pred);
        assert(s.filter(pred) =~= s);
    }
}

/// A filter whose test fails exactly at index `i` removes exactly that
/// element.
pub proof fn lemma_filter_skips_one(s: Seq<Todo>, pred: spec_fn(Todo) -> bool, i: int)
    requires
        0 <= i < s.len(),
        !pred(s[i]),
        forall|j: int| 0 <= j < s.len() && j != i ==> pred(#[trigger] s[j]),
    ensures
        s.filter(pred) == s.remove(i),
    decreases s.len(),
{
    reveal(Seq::filter);
    if i == s.len() - 1 {
        lemma_filter_keeps_all(s.drop_last(), pred);
        assert(s.filter(pred) =~= s.remove(i));
    } else {
        assert(forall|j: int| 0 <= j < s.len() - 1 ==> s.drop_last()[j] == #[trigger] s[j]);
        lemma_filter_skips_one(s.drop_last(), pred, i);
        assert(pred(s.last()));
        assert(s.filter(pred) == s.drop_last().remove(i).push(s.last()));
        assert(s.filter(pred) =~= s.remove(i));
    }
}

/// Law: deleting an id that no row holds leaves the table unchanged, and
/// delete reports no error in that case or any other.
pub proof fn lemma_delete_missing_id_is_noop(rows: Seq<Todo>, id: i64)
    requires
        forall|i: int| 0 <= i < rows.len() ==> (#[trigger] rows[i]).id != id,
    ensures
        rows.filter(keeps_id(id)) == rows,
{
    lemma_filter_keeps_all(rows, keeps_id(id));
}

/// Law: a prune resets the id sequence, so that the table an add leaves
/// behind holds exactly one row, carrying the initial id 1.
pub proof fn lemma_prune_then_add(rows: Seq<Todo>, next_id: int, entry: Todo)
    requires
        rows == Seq::<Todo>::empty(),
        next_id == 1,
        entry.id == next_id,
    ensures
        rows.push(entry).len() == 1,
        rows.push(entry)[0].id == 1,
{
}

/// Law (round trip): after an insert under a fresh id, looking that id up
/// finds exactly the inserted row: the same text, priority and date.
pub proof fn lemma_add_then_find(rows: Seq<Todo>, entry: Todo)
    requires
        forall|i: int| 0 <= i < rows.len() ==> (#[trigger] rows[i]).id != entry.id,
    ensures
        find_by_id(rows.push(entry), entry.id) == Some(entry),
    decreases rows.len(),
{
    if rows.len() == 0 {
        assert(rows.push(entry)[0] == entry);
    } else {
        assert(rows.push(entry).drop_first() =~= rows.drop_first().push(entry));
        assert(forall|i: int|
            0 <= i < rows.drop_first().len() ==> (#[trigger] rows.drop_first()[i]).id != entry.id)
            by {
            assert(forall|i: int|
                0 <= i < rows.drop_first().len() ==> rows.drop_first()[i] == #[trigger] rows[i
                    + 1]);
        }
        lemma_add_then_find(rows.drop_first(), entry);
        assert(rows.push(entry)[0] == rows[0]);
    }
}

} // verus!
