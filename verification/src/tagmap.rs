//! A map keyed by entity identifiers, held as a vector of entries with
//! pairwise-distinct keys.
//!
//! The engine keys every piece of cross-tick memory by an opaque `u64`
//! identifier.  Holding the entries in a vector keeps iteration order
//! deterministic, so every contract can be stated over the entry sequence.
use vstd::prelude::*;

use crate::tally::count_where;

verus! {

/// Pairwise-distinct keys.
pub open spec fn distinct_keys<V>(s: Seq<(u64, V)>) -> bool {
    forall|i: int, j: int| 0 <= i < j < s.len() ==> (#[trigger] s[i]).0 != (#[trigger] s[j]).0
}

/// The value the last entry with key `k` carries, if any.
pub open spec fn seq_lookup<V>(s: Seq<(u64, V)>, k: u64) -> Option<V>
    decreases s.len(),
{
    if s.len() == 0 {
        None
    } else if s.last().0 == k {
        Some(s.last().1)
    } else {
        seq_lookup(s.drop_last(), k)
    }
}

/// The entries of `s` satisfying `f`, in order.
pub open spec fn filter_pairs<V>(s: Seq<(u64, V)>, f: spec_fn((u64, V)) -> bool) -> Seq<(u64, V)>
    decreases s.len(),
{
    if s.len() == 0 {
        s
    } else {
        let rest = filter_pairs(s.drop_last(), f);
        if f(s.last()) {
            rest.push(s.last())
        } else {
            rest
        }
    }
}

/// The entries of `s` whose key is not `k`, in order.
pub open spec fn remove_key<V>(s: Seq<(u64, V)>, k: u64) -> Seq<(u64, V)>
    decreases s.len(),
{
    if s.len() == 0 {
        s
    } else {
        let rest = remove_key(s.drop_last(), k);
        if s.last().0 == k {
            rest
        } else {
            rest.push(s.last())
        }
    }
}

/// Dropping the last entry keeps keys pairwise distinct.
pub proof fn lemma_distinct_drop_last<V>(s: Seq<(u64, V)>)
    requires
        distinct_keys(s),
        s.len() > 0,
    ensures
        distinct_keys(s.drop_last()),
{
    assert(forall|i: int| 0 <= i < s.len() - 1 ==> s.drop_last()[i] == #[trigger] s[i]);
}

/// A lookup misses exactly when no entry carries the key.
pub proof fn lemma_seq_lookup_none_iff<V>(s: Seq<(u64, V)>, k: u64)
    ensures
        seq_lookup(s, k) is None <==> forall|i: int| 0 <= i < s.len() ==> (#[trigger] s[i]).0 != k,
    decreases s.len(),
{
    if s.len() > 0 {
        lemma_seq_lookup_none_iff(s.drop_last(), k);
        assert(s.last() == s[s.len() - 1]);
        assert(forall|i: int| 0 <= i < s.len() - 1 ==> s.drop_last()[i] == #[trigger] s[i]);
    }
}

/// With distinct keys, an entry's position determines the lookup result.
pub proof fn lemma_lookup_found<V>(s: Seq<(u64, V)>, k: u64, i: int)
    requires
        distinct_keys(s),
        0 <= i < s.len(),
        s[i].0 == k,
    ensures
        seq_lookup(s, k) == Some(s[i].1),
    decreases s.len(),
{
    if i == s.len() - 1 {
        assert(s.last() == s[i]);
    } else {
        assert(s.last() == s[s.len() - 1]);
        assert(s.last().0 != k);
        lemma_distinct_drop_last(s);
        assert(s.drop_last()[i] == s[i]);
        lemma_lookup_found(s.drop_last(), k, i);
    }
}

/// Removing a key keeps the other entries' lookups, drops the key's own,
/// keeps keys distinct, and never lengthens the sequence.
pub proof fn lemma_remove_key_facts<V>(s: Seq<(u64, V)>, k: u64)
    requires
        distinct_keys(s),
    ensures
        distinct_keys(remove_key(s, k)),
        remove_key(s, k).len() <= s.len(),
        seq_lookup(remove_key(s, k), k) is None,
        forall|k2: u64| k2 != k ==> seq_lookup(remove_key(s, k), k2) == seq_lookup(s, k2),
        forall|j: int|
            0 <= j < remove_key(s, k).len() ==> exists|i: int|
                0 <= i < s.len() && #[trigger] remove_key(s, k)[j] == s[i],
    decreases s.len(),
{
    if s.len() > 0 {
        lemma_distinct_drop_last(s);
        lemma_remove_key_facts(s.drop_last(), k);
        let rest = remove_key(s.drop_last(), k);
        assert forall|j: int| 0 <= j < rest.len() implies exists|i: int|
            0 <= i < s.len() && #[trigger] rest[j] == s[i] by {
            let i = choose|i: int|
                0 <= i < s.drop_last().len() && #[trigger] rest[j] == s.drop_last()[i];
            assert(s.drop_last()[i] == s[i]);
            assert(0 <= i < s.len() && rest[j] == s[i]);
        }
        if s.last().0 != k {
            let r = rest.push(s.last());
            assert forall|j: int| 0 <= j < r.len() implies exists|i: int|
                0 <= i < s.len() && #[trigger] r[j] == s[i] by {
                if j < rest.len() {
                    assert(r[j] == rest[j]);
                    let i = choose|i: int| 0 <= i < s.len() && #[trigger] rest[j] == s[i];
                    assert(0 <= i < s.len() && r[j] == s[i]);
                } else {
                    assert(r[j] == s[s.len() - 1]);
                }
            }
        }
        if s.last().0 == k {
            assert forall|k2: u64| k2 != k implies seq_lookup(remove_key(s, k), k2) == seq_lookup(
            s, k2) by {
                assert(seq_lookup(s, k2) == seq_lookup(s.drop_last(), k2));
            }
        } else {
            let r = rest.push(s.last());
            assert(r.drop_last() =~= rest);
            // distinctness of the extended result
            lemma_seq_lookup_none_iff(s.drop_last(), s.last().0);
            lemma_seq_lookup_none_iff(rest, s.last().0);
            assert(seq_lookup(s.drop_last(), s.last().0) is None) by {
                assert(s.last() == s[s.len() - 1]);
                lemma_seq_lookup_none_iff(s.drop_last(), s.last().0);
            }
            assert(distinct_keys(r)) by {
                assert(forall|i: int| 0 <= i < rest.len() ==> (#[trigger] rest[i]).0 != s.last().0);
                assert(forall|i: int| 0 <= i < rest.len() ==> r[i] == #[trigger] rest[i]);
                assert(r[r.len() - 1] == s.last());
            }
            assert(seq_lookup(r, k) is None);
            assert forall|k2: u64| k2 != k implies seq_lookup(remove_key(s, k), k2) == seq_lookup(
            s, k2) by {
                if s.last().0 == k2 {
                    assert(seq_lookup(r, k2) == Some(s.last().1));
                    assert(seq_lookup(s, k2) == Some(s.last().1));
                } else {
                    assert(seq_lookup(r, k2) == seq_lookup(rest, k2));
                    assert(seq_lookup(s, k2) == seq_lookup(s.drop_last(), k2));
                }
            }
        }
    }
}

/// One loop step for `remove_key` over a growing prefix.
pub proof fn lemma_remove_key_take_step<V>(s: Seq<(u64, V)>, k: u64, i: int)
    requires
        0 <= i < s.len(),
    ensures
        remove_key(s.take(i + 1), k) == if s[i].0 == k {
            remove_key(s.take(i), k)
        } else {
            remove_key(s.take(i), k).push(s[i])
        },
{
    assert(s.take(i + 1).drop_last() =~= s.take(i));
    assert(s.take(i + 1).last() == s[i]);
}

/// Removing one key changes a count by exactly the removed entry's
/// contribution.
pub proof fn lemma_count_remove_key<V>(s: Seq<(u64, V)>, k: u64, g: spec_fn((u64, V)) -> bool)
    requires
        distinct_keys(s),
    ensures
        count_where(remove_key(s, k), g) == count_where(s, g) - match seq_lookup(s, k) {
            Some(v) => if g((k, v)) {
                1int
            } else {
                0int
            },
            None => 0int,
        },
    decreases s.len(),
{
    if s.len() > 0 {
        lemma_distinct_drop_last(s);
        lemma_count_remove_key(s.drop_last(), k, g);
        let rest = remove_key(s.drop_last(), k);
        if s.last().0 == k {
            assert((k, s.last().1) == s.last());
            assert(seq_lookup(s.drop_last(), k) is None) by {
                assert(s.last() == s[s.len() - 1]);
                lemma_seq_lookup_none_iff(s.drop_last(), k);
            }
        } else {
            assert(remove_key(s, k) == rest.push(s.last()));
            assert(rest.push(s.last()).drop_last() =~= rest);
        }
    }
}

/// Filtering keeps keys pairwise distinct, never lengthens the sequence,
/// and yields entries of the original.
pub proof fn lemma_filter_pairs_distinct<V>(s: Seq<(u64, V)>, f: spec_fn((u64, V)) -> bool)
    requires
        distinct_keys(s),
    ensures
        distinct_keys(filter_pairs(s, f)),
        filter_pairs(s, f).len() <= s.len(),
        forall|j: int|
            0 <= j < filter_pairs(s, f).len() ==> exists|i: int|
                0 <= i < s.len() && #[trigger] filter_pairs(s, f)[j] == s[i],
    decreases s.len(),
{
    if s.len() > 0 {
        lemma_distinct_drop_last(s);
        lemma_filter_pairs_distinct(s.drop_last(), f);
        let rest = filter_pairs(s.drop_last(), f);
        assert forall|j: int| 0 <= j < rest.len() implies exists|i: int|
            0 <= i < s.len() && #[trigger] rest[j] == s[i] by {
            let i = choose|i: int|
                0 <= i < s.drop_last().len() && #[trigger] rest[j] == s.drop_last()[i];
            assert(s.drop_last()[i] == s[i]);
            assert(rest[j] == s[i]);
        }
        if f(s.last()) {
            let r = rest.push(s.last());
            assert(s.last() == s[s.len() - 1]);
            assert forall|i: int, j: int| 0 <= i < j < r.len() implies (#[trigger] r[i]).0 != (
            #[trigger] r[j]).0 by {
                if j == r.len() - 1 {
                    assert(r[i] == rest[i]);
                    let ii = choose|ii: int|
                        0 <= ii < s.drop_last().len() && #[trigger] rest[i] == s.drop_last()[ii];
                    assert(s.drop_last()[ii] == s[ii]);
                    assert(s[ii].0 != s[s.len() - 1].0);
                    assert(r[j] == s.last());
                } else {
                    assert(r[i] == rest[i] && r[j] == rest[j]);
                }
            }
            assert forall|j: int| 0 <= j < r.len() implies exists|i: int|
                0 <= i < s.len() && #[trigger] r[j] == s[i] by {
                if j < rest.len() {
                    assert(r[j] == rest[j]);
                    let i = choose|i: int|
                        0 <= i < s.drop_last().len() && #[trigger] rest[j] == s.drop_last()[i];
                    assert(s.drop_last()[i] == s[i]);
                    assert(r[j] == s[i]);
                } else {
                    assert(r[j] == s[s.len() - 1]);
                }
            }
        }
    }
}

/// What a lookup finds in a filtered sequence: the original hit, kept only
/// if it passes the filter.
pub proof fn lemma_filter_pairs_lookup<V>(s: Seq<(u64, V)>, f: spec_fn((u64, V)) -> bool, k: u64)
    requires
        distinct_keys(s),
    ensures
        seq_lookup(filter_pairs(s, f), k) == match seq_lookup(s, k) {
            Some(v) => if f((k, v)) {
                Some(v)
            } else {
                None::<V>
            },
            None => None::<V>,
        },
    decreases s.len(),
{
    if s.len() > 0 {
        lemma_distinct_drop_last(s);
        lemma_filter_pairs_lookup(s.drop_last(), f, k);
        let rest = filter_pairs(s.drop_last(), f);
        if s.last().0 == k {
            assert((k, s.last().1) == s.last());
            assert(seq_lookup(s.drop_last(), k) is None) by {
                assert(s.last() == s[s.len() - 1]);
                lemma_seq_lookup_none_iff(s.drop_last(), k);
            }
            if f(s.last()) {
                assert(filter_pairs(s, f) == rest.push(s.last()));
            }
        } else {
            if f(s.last()) {
                assert(filter_pairs(s, f) == rest.push(s.last()));
                assert(rest.push(s.last()).drop_last() =~= rest);
                assert(seq_lookup(rest.push(s.last()), k) == seq_lookup(rest, k));
            }
        }
    }
}

/// One loop step for `filter_pairs` over a growing prefix.
pub proof fn lemma_filter_pairs_take_step<V>(s: Seq<(u64, V)>, f: spec_fn((u64, V)) -> bool, i: int)
    requires
        0 <= i < s.len(),
    ensures
        filter_pairs(s.take(i + 1), f) == if f(s[i]) {
            filter_pairs(s.take(i), f).push(s[i])
        } else {
            filter_pairs(s.take(i), f)
        },
{
    assert(s.take(i + 1).drop_last() =~= s.take(i));
    assert(s.take(i + 1).last() == s[i]);
}

/// Filtering can only lower a count.
pub proof fn lemma_count_where_filter_pairs_le<V>(
    s: Seq<(u64, V)>,
    f: spec_fn((u64, V)) -> bool,
    g: spec_fn((u64, V)) -> bool,
)
    ensures
        count_where(filter_pairs(s, f), g) <= count_where(s, g),
        count_where(filter_pairs(s, f), g) >= 0,
    decreases s.len(),
{
    crate::tally::lemma_count_where_bounds(filter_pairs(s, f), g);
    if s.len() > 0 {
        lemma_count_where_filter_pairs_le(s.drop_last(), f, g);
        if f(s.last()) {
            let rest = filter_pairs(s.drop_last(), f);
            assert(rest.push(s.last()).drop_last() =~= rest);
        }
    }
}

/// Cross-tick memory keyed by entity identifier.
pub struct TagMap<V> {
    entries: Vec<(u64, V)>,
}

impl<V> View for TagMap<V> {
    type V = Seq<(u64, V)>;

    closed spec fn view(&self) -> Seq<(u64, V)> {
        self.entries@
    }
}

impl<V: Copy> TagMap<V> {
    /// The key invariant: entries carry pairwise-distinct keys.
    pub open spec fn wf(self) -> bool {
        distinct_keys(self@)
    }

    /// The value stored under `k`, if any.
    pub open spec fn lookup(self, k: u64) -> Option<V> {
        seq_lookup(self@, k)
    }

    pub fn new() -> (r: TagMap<V>)
        ensures
            r@ =~= Seq::<(u64, V)>::empty(),
            r.wf(),
    {
        TagMap { entries: Vec::new() }
    }

    pub fn len(&self) -> (r: usize)
        ensures
            r == self@.len(),
    {
        self.entries.len()
    }

    /// The entry at a position, for iteration.
    pub fn entry_at(&self, i: usize) -> (r: (u64, V))
        requires
            i < self@.len(),
        ensures
            r == self@[i as int],
    {
        self.entries[i]
    }

    pub fn get(&self, k: u64) -> (r: Option<V>)
        requires
            self.wf(),
        ensures
            r == self.lookup(k),
    {
        let n = self.entries.len();
        let mut i: usize = 0;
        proof {
            assert(self@.skip(0) =~= self@);
        }
        while i < n
            invariant
                self.wf(),
                n == self@.len(),
                i <= n,
                seq_lookup(self@, k) == seq_lookup(self@.skip(i as int), k),
            decreases n - i,
        {
            let e = self.entries[i];
            if e.0 == k {
                proof {
                    lemma_lookup_found(self@, k, i as int);
                }
                return Some(e.1);
            }
            proof {
                lemma_lookup_skip_step(self@, k, i as int);
            }
            i += 1;
        }
        proof {
            assert(self@.skip(n as int) =~= Seq::<(u64, V)>::empty());
        }
        None
    }

    /// Replace the whole entry vector; the new entries must carry
    /// distinct keys.
    pub fn replace_entries(&mut self, entries: Vec<(u64, V)>)
        requires
            distinct_keys(entries@),
        ensures
            final(self)@ == entries@,
            final(self).wf(),
    {
        self.entries = entries;
    }

    /// Append an entry whose key is known to be absent.
    pub fn push_new(&mut self, k: u64, v: V)
        requires
            old(self).wf(),
            old(self).lookup(k) is None,
        ensures
            final(self)@ == old(self)@.push((k, v)),
            final(self).wf(),
            final(self).lookup(k) == Some(v),
            forall|k2: u64| k2 != k ==> final(self).lookup(k2) == old(self).lookup(k2),
    {
        proof {
            lemma_seq_lookup_none_iff(self@, k);
            let s = self@.push((k, v));
            assert(forall|i: int| 0 <= i < self@.len() ==> s[i] == #[trigger] self@[i]);
            assert(s[s.len() - 1] == (k, v));
            assert(distinct_keys(s)) by {
                assert(forall|i: int| 0 <= i < self@.len() ==> (#[trigger] s[i]).0 != k);
            }
            assert(s.drop_last() =~= self@);
        }
        self.entries.push((k, v));
    }

    /// Insert or overwrite: the entry for `k` is replaced, every other
    /// entry is kept in order.
    pub fn insert(&mut self, k: u64, v: V)
        requires
            old(self).wf(),
        ensures
            final(self)@ == remove_key(old(self)@, k).push((k, v)),
            final(self).wf(),
            final(self).lookup(k) == Some(v),
            forall|k2: u64| k2 != k ==> final(self).lookup(k2) == old(self).lookup(k2),
    {
        self.remove(k);
        self.push_new(k, v);
    }

    /// Remove the entry for `k`, if present; every other entry is kept in
    /// order.
    pub fn remove(&mut self, k: u64)
        requires
            old(self).wf(),
        ensures
            final(self)@ == remove_key(old(self)@, k),
            final(self).wf(),
            final(self).lookup(k) is None,
            forall|k2: u64| k2 != k ==> final(self).lookup(k2) == old(self).lookup(k2),
    {
        let ghost s = self@;
        let n = self.entries.len();
        let mut out: Vec<(u64, V)> = Vec::new();
        let mut i: usize = 0;
        proof {
            assert(s.take(0) =~= Seq::<(u64, V)>::empty());
        }
        while i < n
            invariant
                n == s.len(),
                i <= n,
                self@ == s,
                out@ == remove_key(s.take(i as int), k),
            decreases n - i,
        {
            let e = self.entries[i];
            proof {
                lemma_remove_key_take_step(s, k, i as int);
            }
            if e.0 != k {
                out.push(e);
            }
            i += 1;
        }
        proof {
            assert(s.take(n as int) =~= s);
            lemma_remove_key_facts(s, k);
        }
        self.entries = out;
    }
}

proof fn lemma_lookup_skip_step<V>(s: Seq<(u64, V)>, k: u64, i: int)
    requires
        0 <= i < s.len(),
        s[i].0 != k,
    ensures
        seq_lookup(s.skip(i), k) == seq_lookup(s.skip(i + 1), k),
    decreases s.len() - i,
{
    let t = s.skip(i);
    if t.len() == 1 {
        assert(t.last() == s[i]);
        assert(s.skip(i + 1) =~= Seq::<(u64, V)>::empty());
        assert(t.drop_last() =~= Seq::<(u64, V)>::empty());
    } else {
        assert(s.drop_last()[i] == s[i]);
        lemma_lookup_skip_step(s.drop_last(), k, i);
        assert(s.drop_last().skip(i) =~= s.skip(i).drop_last());
        assert(s.drop_last().skip(i + 1) =~= s.skip(i + 1).drop_last());
        assert(t.last() == s.last());
        assert(s.skip(i + 1).last() == s.last());
    }
}

} // verus!
