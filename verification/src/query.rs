use vstd::prelude::*;

use crate::priority::Priority;
use crate::timestamp::Timestamp;
use crate::todo::Todo;

verus! {

broadcast use
    vstd::seq_lib::group_to_multiset_ensures,
    vstd::seq_lib::lemma_multiset_commutative,
    vstd::multiset::group_multiset_axioms,
    vstd::seq_lib::group_filter_ensures,
;

/// The optional, independently combinable filters of the listing command,
/// and its two ordering switches.
#[derive(Clone, Copy, Debug)]
pub struct Query {
    /// Exact-match filter on the priority tier.
    pub priority: Option<Priority>,
    /// Inclusive lower bound on the entry date.
    pub from: Option<Timestamp>,
    /// Inclusive upper bound on the entry date.
    pub to: Option<Timestamp>,
    /// Date order: most recent first by default, oldest first when set.
    pub reversed: bool,
    /// When set, skip the re-bucketing by priority tier.
    pub chronological: bool,
}

impl Query {
    pub open spec fn wf(self) -> bool {
        &&& (self.from matches Some(f) ==> f.wf())
        &&& (self.to matches Some(u) ==> u.wf())
    }

    /// Whether `t` passes every supplied filter: an implicit conjunction of
    /// the exact priority match and the inclusive date bounds; an omitted
    /// filter admits everything.
    pub open spec fn spec_matches(self, t: Todo) -> bool {
        &&& (self.priority matches Some(p) ==> t.priority == p)
        &&& (self.from matches Some(f) ==> f.instant() <= t.date.instant())
        &&& (self.to matches Some(u) ==> t.date.instant() <= u.instant())
    }

    pub fn is_match(&self, t: &Todo) -> (r: bool)
        requires
            self.wf(),
            t.date.wf(),
        ensures
            r == self.spec_matches(*t),
    {
        let priority_ok = match &self.priority {
            Some(p) => t.priority == *p,
            None => true,
        };
        let from_ok = match &self.from {
            Some(f) => f.is_at_or_before(&t.date),
            None => true,
        };
        let to_ok = match &self.to {
            Some(u) => t.date.is_at_or_before(u),
            None => true,
        };
        priority_ok && from_ok && to_ok
    }
}

/// The test the whole filter set of `q` applies to one entry.
pub open spec fn matches_query(q: Query) -> spec_fn(Todo) -> bool {
    |t: Todo| q.spec_matches(t)
}

/// The test of belonging to the priority tier `p`.
pub open spec fn has_priority(p: Priority) -> spec_fn(Todo) -> bool {
    |t: Todo| t.priority == p
}

/// Whether `a` comes no later than `b` in the requested date order:
/// ascending (oldest first) when `reversed` is set, else most recent first.
pub open spec fn date_le(a: Todo, b: Todo, reversed: bool) -> bool {
    if reversed {
        a.date.instant() <= b.date.instant()
    } else {
        b.date.instant() <= a.date.instant()
    }
}

/// Whether `s` stands in the requested date order throughout.
pub open spec fn date_ordered(s: Seq<Todo>, reversed: bool) -> bool {
    forall|i: int, j: int|
        0 <= i < j < s.len() ==> date_le(#[trigger] s[i], #[trigger] s[j], reversed)
}

/// Whether every Critical entry of `s` precedes every Important entry, and
/// every Important entry every Normal one.
pub open spec fn tier_ordered(s: Seq<Todo>) -> bool {
    forall|i: int, j: int|
        0 <= i < j < s.len() ==> (#[trigger] s[i]).priority.bucket() <= (
        #[trigger] s[j]).priority.bucket()
}

/// Whether, within each priority tier of `s`, entries keep the requested
/// date order.
pub open spec fn tierwise_date_ordered(s: Seq<Todo>, reversed: bool) -> bool {
    forall|i: int, j: int|
        0 <= i < j < s.len() && (#[trigger] s[i]).priority == (#[trigger] s[j]).priority
            ==> date_le(s[i], s[j], reversed)
}

/// The stable three-way partition of `s` by priority tier: all Critical
/// entries first, then all Important, then all Normal, each tier keeping
/// its existing relative order.
pub open spec fn rebucketed(s: Seq<Todo>) -> Seq<Todo> {
    s.filter(has_priority(Priority::Critical)) + s.filter(has_priority(Priority::Important))
        + s.filter(has_priority(Priority::Normal))
}

fn date_le_exec(a: &Todo, b: &Todo, reversed: bool) -> (r: bool)
    requires
        a.date.wf(),
        b.date.wf(),
    ensures
        r == date_le(*a, *b, reversed),
{
    if reversed {
        a.date.is_at_or_before(&b.date)
    } else {
        b.date.is_at_or_before(&a.date)
    }
}

/// Keeps, in their existing order, exactly the entries that pass every
/// supplied filter of `q`.
pub fn filter_matching(rows: &Vec<Todo>, q: &Query) -> (r: Vec<Todo>)
    requires
        q.wf(),
        forall|i: int| 0 <= i < rows@.len() ==> (#[trigger] rows@[i]).date.wf(),
    ensures
        r@ == rows@.filter(matches_query(*q)),
{
    let mut out: Vec<Todo> = Vec::new();
    let mut i: usize = 0;
    proof {
        reveal(Seq::filter);
        assert(rows@.subrange(0, 0).filter(matches_query(*q)) =~= out@);
    }
    while i < rows.len()
        invariant
            q.wf(),
            forall|k: int| 0 <= k < rows@.len() ==> (#[trigger] rows@[k]).date.wf(),
            0 <= i <= rows@.len(),
            out@ == rows@.subrange(0, i as int).filter(matches_query(*q)),
        decreases rows@.len() - i,
    {
        let keep = q.is_match(&rows[i]);
        if keep {
            out.push(rows[i].clone());
        }
        proof {
            reveal(Seq::filter);
            let sub1 = rows@.subrange(0, i + 1);
            assert(sub1.drop_last() =~= rows@.subrange(0, i as int));
            assert(sub1.last() == rows@[i as int]);
            assert(out@ == sub1.filter(matches_query(*q)));
        }
        i = i + 1;
    }
    proof {
        assert(rows@.subrange(0, rows@.len() as int) =~= rows@);
    }
    out
}

/// Orders entries by date as requested: most recent first by default,
/// oldest first when `reversed` is set. Entries of equal instants may come
/// out in either order; the listing promises nothing between ties.
pub fn sort_by_date(v: Vec<Todo>, reversed: bool) -> (r: Vec<Todo>)
    requires
        forall|i: int| 0 <= i < v@.len() ==> (#[trigger] v@[i]).date.wf(),
    ensures
        r@.to_multiset() == v@.to_multiset(),
        date_ordered(r@, reversed),
        forall|i: int| 0 <= i < r@.len() ==> (#[trigger] r@[i]).date.wf(),
{
    let mut rest = v;
    let mut out: Vec<Todo> = Vec::new();
    proof {
        assert(out@.to_multiset().add(rest@.to_multiset()) =~= v@.to_multiset());
    }
    while rest.len() > 0
        invariant
            out@.to_multiset().add(rest@.to_multiset()) == v@.to_multiset(),
            date_ordered(out@, reversed),
            forall|i: int, j: int|
                0 <= i < out@.len() && 0 <= j < rest@.len() ==> date_le(
                    #[trigger] out@[i],
                    #[trigger] rest@[j],
                    reversed,
                ),
            forall|i: int| 0 <= i < out@.len() ==> (#[trigger] out@[i]).date.wf(),
            forall|i: int| 0 <= i < rest@.len() ==> (#[trigger] rest@[i]).date.wf(),
        decreases rest@.len(),
    {
        let mut best: usize = 0;
        let mut k: usize = 1;
        while k < rest.len()
            invariant
                0 < rest@.len(),
                0 <= best < rest@.len(),
                1 <= k <= rest@.len(),
                forall|j: int|
                    0 <= j < k ==> date_le(rest@[best as int], #[trigger] rest@[j], reversed),
                forall|i: int| 0 <= i < rest@.len() ==> (#[trigger] rest@[i]).date.wf(),
            decreases rest@.len() - k,
        {
            if !date_le_exec(&rest[best], &rest[k], reversed) {
                best = k;
            }
            k = k + 1;
        }
        let ghost old_out = out@;
        let ghost old_rest = rest@;
        let picked = rest.remove(best);
        out.push(picked);
        proof {
            assert(old_rest[best as int] == picked);
            assert(old_rest.contains(picked));
            assert(old_rest.to_multiset().count(picked) > 0);
            assert(out@ == old_out.push(picked));
            assert(rest@ == old_rest.remove(best as int));
            assert(out@.to_multiset().add(rest@.to_multiset()) =~= old_out.to_multiset().add(
                old_rest.to_multiset(),
            ));
            assert forall|i: int, j: int|
                0 <= i < out@.len() && 0 <= j < rest@.len() implies date_le(
                #[trigger] out@[i],
                #[trigger] rest@[j],
                reversed,
            ) by {
                assert(rest@[j] == if j < best {
                    old_rest[j]
                } else {
                    old_rest[j + 1]
                });
                if i < old_out.len() {
                    assert(date_le(old_out[i], rest@[j], reversed));
                } else {
                    assert(out@[i] == picked);
                }
            }
        }
    }
    out
}

/// Appends to `out`, in their existing order, the entries of `v` belonging
/// to the priority tier `p`.
fn append_tier(v: &Vec<Todo>, p: Priority, out: &mut Vec<Todo>)
    ensures
        final(out)@ == old(out)@ + v@.filter(has_priority(p)),
{
    let mut i: usize = 0;
    proof {
        reveal(Seq::filter);
        assert(out@ =~= old(out)@ + v@.subrange(0, 0).filter(has_priority(p)));
    }
    while i < v.len()
        invariant
            0 <= i <= v@.len(),
            out@ == old(out)@ + v@.subrange(0, i as int).filter(has_priority(p)),
        decreases v@.len() - i,
    {
        let keep = match (&v[i].priority, &p) {
            (Priority::Normal, Priority::Normal) => true,
            (Priority::Important, Priority::Important) => true,
            (Priority::Critical, Priority::Critical) => true,
            _ => false,
        };
        if keep {
            out.push(v[i].clone());
        }
        proof {
            reveal(Seq::filter);
            let sub1 = v@.subrange(0, i + 1);
            assert(sub1.drop_last() =~= v@.subrange(0, i as int));
            assert(sub1.last() == v@[i as int]);
            assert(out@ =~= old(out)@ + sub1.filter(has_priority(p)));
        }
        i = i + 1;
    }
    proof {
        assert(v@.subrange(0, v@.len() as int) =~= v@);
    }
}

/// Re-buckets by priority tier: all Critical entries first, then all
/// Important, then all Normal, each tier keeping its existing relative
/// order.
pub fn rebucket(v: &Vec<Todo>) -> (r: Vec<Todo>)
    ensures
        r@ == rebucketed(v@),
{
    let mut out: Vec<Todo> = Vec::new();
    append_tier(v, Priority::Critical, &mut out);
    append_tier(v, Priority::Important, &mut out);
    append_tier(v, Priority::Normal, &mut out);
    proof {
        assert(out@ =~= rebucketed(v@));
    }
    out
}

/// Every entry a filter keeps already stood in the source.
pub proof fn lemma_filter_in_source(s: Seq<Todo>, pred: spec_fn(Todo) -> bool)
    ensures
        forall|i: int| 0 <= i < s.filter(pred).len() ==> s.contains(#[trigger] s.filter(pred)[i]),
    decreases s.len(),
{
    reveal(Seq::filter);
    if s.len() > 0 {
        let s0 = s.drop_last();
        lemma_filter_in_source(s0, pred);
        let f = s.filter(pred);
        let f0 = s0.filter(pred);
        assert forall|i: int| 0 <= i < f.len() implies s.contains(#[trigger] f[i]) by {
            if i < f0.len() {
                assert(s0.contains(f0[i]));
                let k = choose|k: int| 0 <= k < s0.len() && s0[k] == f0[i];
                assert(s[k] == f[i]);
            } else {
                assert(f[i] == s.last());
                assert(s[s.len() - 1] == s.last());
            }
        }
    }
}

/// Entries that pass a filter keep their date order.
pub proof fn lemma_filter_date_ordered(s: Seq<Todo>, pred: spec_fn(Todo) -> bool, reversed: bool)
    requires
        date_ordered(s, reversed),
    ensures
        date_ordered(s.filter(pred), reversed),
    decreases s.len(),
{
    reveal(Seq::filter);
    if s.len() > 0 {
        let s0 = s.drop_last();
        assert(forall|i: int| 0 <= i < s0.len() ==> s0[i] == #[trigger] s[i]);
        assert(date_ordered(s0, reversed));
        lemma_filter_date_ordered(s0, pred, reversed);
        lemma_filter_in_source(s0, pred);
        let f = s.filter(pred);
        let f0 = s0.filter(pred);
        assert forall|i: int, j: int| 0 <= i < j < f.len() implies date_le(
            #[trigger] f[i],
            #[trigger] f[j],
            reversed,
        ) by {
            if j < f0.len() {
                assert(date_le(f0[i], f0[j], reversed));
            } else {
                assert(f[j] == s.last());
                assert(s0.contains(f0[i]));
                let k = choose|k: int| 0 <= k < s0.len() && s0[k] == f0[i];
                assert(date_le(s[k], s[s.len() - 1], reversed));
            }
        }
    }
}

/// The three tiers partition the entries: re-bucketing changes which
/// positions entries stand at, never which entries there are.
pub proof fn lemma_tier_partition(s: Seq<Todo>)
    ensures
        rebucketed(s).to_multiset() == s.to_multiset(),
    decreases s.len(),
{
    reveal(Seq::filter);
    let c = has_priority(Priority::Critical);
    let im = has_priority(Priority::Important);
    let no = has_priority(Priority::Normal);
    if s.len() == 0 {
        assert(rebucketed(s) =~= s);
    } else {
        let s0 = s.drop_last();
        let x = s.last();
        lemma_tier_partition(s0);
        let a0 = s0.filter(c);
        let b0 = s0.filter(im);
        let d0 = s0.filter(no);
        assert(s0.push(x) =~= s);
        assert(s0.push(x).to_multiset() =~= s0.to_multiset().insert(x));
        assert(rebucketed(s0).to_multiset() =~= a0.to_multiset().add(b0.to_multiset()).add(
            d0.to_multiset(),
        ));
        match x.priority {
            Priority::Critical => {
                assert(rebucketed(s) == a0.push(x) + b0 + d0);
                assert(rebucketed(s).to_multiset() =~= a0.to_multiset().insert(x).add(
                    b0.to_multiset(),
                ).add(d0.to_multiset()));
                assert(rebucketed(s).to_multiset() =~= s0.to_multiset().insert(x));
            },
            Priority::Important => {
                assert(rebucketed(s) == a0 + b0.push(x) + d0);
                assert(rebucketed(s).to_multiset() =~= a0.to_multiset().add(
                    b0.to_multiset().insert(x),
                ).add(d0.to_multiset()));
                assert(rebucketed(s).to_multiset() =~= s0.to_multiset().insert(x));
            },
            Priority::Normal => {
                assert(rebucketed(s) == a0 + b0 + d0.push(x));
                assert(rebucketed(s).to_multiset() =~= a0.to_multiset().add(b0.to_multiset()).add(
                    d0.to_multiset().insert(x),
                ));
                assert(rebucketed(s).to_multiset() =~= s0.to_multiset().insert(x));
            },
        }
    }
}

/// Law: re-bucketing a date-ordered listing puts every Critical entry
/// before every Important entry and every Important entry before every
/// Normal one, keeps the requested date order within each tier, and holds
/// exactly the entries it was given.
pub proof fn lemma_rebucket_props(s: Seq<Todo>, reversed: bool)
    requires
        date_ordered(s, reversed),
    ensures
        tier_ordered(rebucketed(s)),
        tierwise_date_ordered(rebucketed(s), reversed),
        rebucketed(s).to_multiset() == s.to_multiset(),
{
    let c = has_priority(Priority::Critical);
    let im = has_priority(Priority::Important);
    let no = has_priority(Priority::Normal);
    let fc = s.filter(c);
    let fi = s.filter(im);
    let fo = s.filter(no);
    let r = rebucketed(s);
    lemma_filter_date_ordered(s, c, reversed);
    lemma_filter_date_ordered(s, im, reversed);
    lemma_filter_date_ordered(s, no, reversed);
    lemma_tier_partition(s);
    assert(r.len() == fc.len() + fi.len() + fo.len());
    assert forall|i: int|
        0 <= i < r.len() implies (if i < fc.len() {
        r[i] == fc[i] && (#[trigger] r[i]).priority == Priority::Critical
    } else if i < fc.len() + fi.len() {
        r[i] == fi[i - fc.len()] && r[i].priority == Priority::Important
    } else {
        r[i] == fo[i - fc.len() - fi.len()] && r[i].priority == Priority::Normal
    }) by {
        if i < fc.len() {
            assert(r[i] == fc[i]);
            assert(c(fc[i]));
        } else if i < fc.len() + fi.len() {
            assert(r[i] == fi[i - fc.len()]);
            assert(im(fi[i - fc.len()]));
        } else {
            assert(r[i] == fo[i - fc.len() - fi.len()]);
            assert(no(fo[i - fc.len() - fi.len()]));
        }
    }
    assert forall|i: int, j: int| 0 <= i < j < r.len() implies (#[trigger] r[i]).priority.bucket()
        <= (#[trigger] r[j]).priority.bucket() by {
        assert(r[i].priority.bucket() <= r[j].priority.bucket());
    }
    assert forall|i: int, j: int|
        0 <= i < j < r.len() && (#[trigger] r[i]).priority == (#[trigger] r[j]).priority
            implies date_le(r[i], r[j], reversed) by {
        if i < fc.len() {
            assert(date_le(fc[i], fc[j], reversed));
        } else if i < fc.len() + fi.len() {
            assert(date_le(fi[i - fc.len()], fi[j - fc.len()], reversed));
        } else {
            assert(date_le(
                fo[i - fc.len() - fi.len()],
                fo[j - fc.len() - fi.len()],
                reversed,
            ));
        }
    }
}

/// Runs the whole listing over a set of rows: keeps exactly the entries
/// that pass every supplied filter, orders them by date as requested, and,
/// unless `chronological` is set, re-buckets them by priority tier with
/// Critical first and the date order kept within each tier.
pub fn select(rows: &Vec<Todo>, q: &Query) -> (r: Vec<Todo>)
    requires
        q.wf(),
        forall|i: int| 0 <= i < rows@.len() ==> (#[trigger] rows@[i]).date.wf(),
    ensures
        r@.to_multiset() == rows@.filter(matches_query(*q)).to_multiset(),
        forall|i: int| 0 <= i < r@.len() ==> (matches_query(*q))(#[trigger] r@[i]),
        q.chronological ==> date_ordered(r@, q.reversed),
        !q.chronological ==> tier_ordered(r@) && tierwise_date_ordered(r@, q.reversed),
{
    let kept = filter_matching(rows, q);
    proof {
        lemma_filter_in_source(rows@, matches_query(*q));
        assert forall|i: int| 0 <= i < kept@.len() implies (#[trigger] kept@[i]).date.wf() by {
            assert(rows@.contains(kept@[i]));
            let k = choose|k: int| 0 <= k < rows@.len() && rows@[k] == kept@[i];
            assert(rows@[k].date.wf());
        }
    }
    let sorted = sort_by_date(kept, q.reversed);
    let result = if q.chronological {
        sorted
    } else {
        let rebucketed_rows = rebucket(&sorted);
        proof {
            lemma_rebucket_props(sorted@, q.reversed);
        }
        rebucketed_rows
    };
    proof {
        let f = rows@.filter(matches_query(*q));
        assert forall|i: int| 0 <= i < result@.len() implies (matches_query(*q))(
            #[trigger] result@[i],
        ) by {
            let x = result@[i];
            assert(result@.contains(x));
            assert(result@.to_multiset().count(x) > 0);
            assert(f.to_multiset().count(x) > 0);
            assert(f.contains(x));
            let k = choose|k: int| 0 <= k < f.len() && f[k] == x;
            assert((matches_query(*q))(f[k]));
        }
    }
    result
}

} // verus!
