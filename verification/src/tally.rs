use vstd::prelude::*;

verus! {

/// `x` is representable as an `i64`.
pub open spec fn fits_i64(x: int) -> bool {
    i64::MIN <= x <= i64::MAX
}

/// The value a map gives `k`, or zero when `k` is absent.
pub open spec fn value_or_zero(m: Map<Seq<char>, int>, k: Seq<char>) -> int {
    if m.dom().contains(k) {
        m[k]
    } else {
        0
    }
}

/// Pointwise sum of two tallies: every name of either, with the sum of its values.
pub open spec fn merged(m1: Map<Seq<char>, int>, m2: Map<Seq<char>, int>) -> Map<Seq<char>, int> {
    Map::new(
        |k: Seq<char>| m1.dom().contains(k) || m2.dom().contains(k),
        |k: Seq<char>| value_or_zero(m1, k) + value_or_zero(m2, k),
    )
}

/// Every value of the map is representable as an `i64`.
pub open spec fn all_fit(m: Map<Seq<char>, int>) -> bool {
    forall|k: Seq<char>| m.dom().contains(k) ==> fits_i64(#[trigger] m[k])
}

/// The map given by a list of (name, value) pairs, later pairs overriding earlier ones.
pub open spec fn pairs_map(s: Seq<(String, i64)>) -> Map<Seq<char>, int>
    decreases s.len(),
{
    if s.len() == 0 {
        Map::empty()
    } else {
        pairs_map(s.drop_last()).insert(s.last().0@, s.last().1 as int)
    }
}

/// No name occurs twice in the list.
pub open spec fn distinct_names(s: Seq<(String, i64)>) -> bool {
    forall|i: int, j: int| 0 <= i < j < s.len() ==> s[i].0@ != s[j].0@
}

proof fn lemma_pairs_map_dom(s: Seq<(String, i64)>, k: Seq<char>)
    ensures
        pairs_map(s).dom().contains(k) <==> exists|i: int| 0 <= i < s.len() && s[i].0@ == k,
    decreases s.len(),
{
    if s.len() > 0 {
        lemma_pairs_map_dom(s.drop_last(), k);
        if pairs_map(s).dom().contains(k) && k != s.last().0@ {
            let i = choose|i: int| 0 <= i < s.len() - 1 && s.drop_last()[i].0@ == k;
            assert(s[i].0@ == k);
        }
        if exists|i: int| 0 <= i < s.len() && s[i].0@ == k {
            let i = choose|i: int| 0 <= i < s.len() && s[i].0@ == k;
            if i < s.len() - 1 {
                assert(s.drop_last()[i].0@ == k);
            }
        }
    }
}

proof fn lemma_pairs_map_index(s: Seq<(String, i64)>, i: int)
    requires
        distinct_names(s),
        0 <= i < s.len(),
    ensures
        pairs_map(s).dom().contains(s[i].0@),
        pairs_map(s)[s[i].0@] == s[i].1 as int,
    decreases s.len(),
{
    if i < s.len() - 1 {
        lemma_pairs_map_index(s.drop_last(), i);
        assert(s.drop_last()[i] == s[i]);
    }
}

proof fn lemma_pairs_map_update(s: Seq<(String, i64)>, i: int, p: (String, i64))
    requires
        distinct_names(s),
        0 <= i < s.len(),
        s[i].0@ == p.0@,
    ensures
        pairs_map(s.update(i, p)) == pairs_map(s).insert(p.0@, p.1 as int),
        distinct_names(s.update(i, p)),
    decreases s.len(),
{
    let t = s.update(i, p);
    if i == s.len() - 1 {
        assert(t.drop_last() =~= s.drop_last());
        assert(pairs_map(t) =~= pairs_map(s).insert(p.0@, p.1 as int));
    } else {
        assert(t.drop_last() =~= s.drop_last().update(i, p));
        lemma_pairs_map_update(s.drop_last(), i, p);
        assert(s.last().0@ != p.0@);
        assert(pairs_map(t) =~= pairs_map(s).insert(p.0@, p.1 as int));
    }
}

/// Running totals per owner name, kept as a list of distinct names with their totals.
pub struct OwnerTally {
    entries: Vec<(String, i64)>,
}

impl View for OwnerTally {
    type V = Map<Seq<char>, int>;

    closed spec fn view(&self) -> Map<Seq<char>, int> {
        pairs_map(self.entries@)
    }
}

fn clone_pairs(v: &Vec<(String, i64)>) -> (r: Vec<(String, i64)>)
    ensures
        r@ == v@,
{
    let mut r: Vec<(String, i64)> = Vec::new();
    let mut i: usize = 0;
    while i < v.len()
        invariant
            i <= v.len(),
            r@ == v@.take(i as int),
        decreases v.len() - i,
    {
        let name = v[i].0.clone();
        r.push((name, v[i].1));
        assert(r@ =~= v@.take(i + 1));
        i = i + 1;
    }
    assert(v@.take(v.len() as int) =~= v@);
    r
}

impl OwnerTally {
    /// The tally holds each owner name at most once.
    pub closed spec fn wf(&self) -> bool {
        distinct_names(self.entries@)
    }

    /// An empty tally.
    pub fn new() -> (r: OwnerTally)
        ensures
            r.wf(),
            r@ == Map::<Seq<char>, int>::empty(),
    {
        OwnerTally { entries: Vec::new() }
    }

    /// Position of `owner` in the list, if present.
    fn find(&self, owner: &String) -> (r: Option<usize>)
        requires
            self.wf(),
        ensures
            r is None ==> !self@.dom().contains(owner@),
            r matches Some(i) ==> i < self.entries.len() && self.entries@[i as int].0@ == owner@,
    {
        let mut i: usize = 0;
        while i < self.entries.len()
            invariant
                i <= self.entries.len(),
                forall|j: int| 0 <= j < i ==> self.entries@[j].0@ != owner@,
            decreases self.entries.len() - i,
        {
            if self.entries[i].0 == *owner {
                return Some(i);
            }
            i = i + 1;
        }
        proof {
            lemma_pairs_map_dom(self.entries@, owner@);
        }
        None
    }

    /// The total of `owner`, if it has one.
    pub fn get(&self, owner: &str) -> (r: Option<i64>)
        requires
            self.wf(),
        ensures
            r is Some <==> self@.dom().contains(owner@),
            r matches Some(v) ==> v == self@[owner@],
    {
        let name = owner.to_owned();
        match self.find(&name) {
            Some(i) => {
                proof {
                    lemma_pairs_map_index(self.entries@, i as int);
                }
                Some(self.entries[i].1)
            },
            None => None,
        }
    }

    /// Number of owners in the tally.
    pub fn len(&self) -> (n: usize)
        requires
            self.wf(),
        ensures
            n == self@.dom().len(),
    {
        proof {
            self.lemma_dom_len();
        }
        self.entries.len()
    }

    proof fn lemma_dom_len(&self)
        requires
            self.wf(),
        ensures
            self@.dom().finite(),
            self@.dom().len() == self.entries@.len(),
        decreases self.entries@.len(),
    {
        let s = self.entries@;
        lemma_dom_len_of(s);
    }

    /// Adds `delta` to the total of `owner` (a missing owner starts at zero). Fails, leaving
    /// the tally unchanged, when the new total does not fit in an `i64`.
    pub fn add(&mut self, owner: &String, delta: i64) -> (ok: bool)
        requires
            old(self).wf(),
        ensures
            final(self).wf(),
            ok <==> fits_i64(value_or_zero(old(self)@, owner@) + delta),
            ok ==> final(self)@ == old(self)@.insert(
                owner@,
                value_or_zero(old(self)@, owner@) + delta,
            ),
            !ok ==> final(self)@ == old(self)@,
    {
        match self.find(owner) {
            Some(i) => {
                proof {
                    lemma_pairs_map_index(self.entries@, i as int);
                }
                let cur = self.entries[i].1;
                match cur.checked_add(delta) {
                    Some(v) => {
                        let name = owner.clone();
                        proof {
                            lemma_pairs_map_update(self.entries@, i as int, (name, v));
                        }
                        self.entries.set(i, (name, v));
                        true
                    },
                    None => false,
                }
            },
            None => {
                let name = owner.clone();
                let ghost old_entries = self.entries@;
                self.entries.push((name, delta));
                proof {
                    lemma_pairs_map_dom(old_entries, owner@);
                    assert(self.entries@.drop_last() =~= old_entries);
                }
                true
            },
        }
    }

    /// A copy of the tally.
    pub fn duplicate(&self) -> (r: OwnerTally)
        requires
            self.wf(),
        ensures
            r.wf(),
            r@ == self@,
    {
        OwnerTally { entries: clone_pairs(&self.entries) }
    }

    /// The (owner, total) pairs, each owner once.
    pub fn to_vec(&self) -> (r: Vec<(String, i64)>)
        requires
            self.wf(),
        ensures
            distinct_names(r@),
            pairs_map(r@) == self@,
    {
        clone_pairs(&self.entries)
    }

    /// The pointwise sum of two tallies; `None` when a sum does not fit in an `i64`.
    pub fn merged_with(&self, other: &OwnerTally) -> (r: Option<OwnerTally>)
        requires
            self.wf(),
            other.wf(),
        ensures
            r is Some <==> all_fit(merged(self@, other@)),
            r matches Some(t) ==> t.wf() && t@ == merged(self@, other@),
    {
        let mut acc = self.duplicate();
        let mut j: usize = 0;
        let ghost o = other.entries@;
        assert(o.take(0) =~= Seq::<(String, i64)>::empty());
        assert(merged(self@, pairs_map(o.take(0))) =~= self@);
        while j < other.entries.len()
            invariant
                j <= other.entries.len(),
                o == other.entries@,
                distinct_names(o),
                self.wf(),
                acc.wf(),
                acc@ == merged(self@, pairs_map(o.take(j as int))),
            decreases other.entries.len() - j,
        {
            let ghost pj = pairs_map(o.take(j as int));
            let ghost n = o[j as int].0@;
            let ghost d = o[j as int].1 as int;
            proof {
                lemma_pairs_map_dom(o.take(j as int), n);
                assert forall|i: int| 0 <= i < j implies o.take(j as int)[i].0@ != n by {
                    assert(o[i].0@ != o[j as int].0@);
                }
                assert(!pj.dom().contains(n));
                lemma_pairs_map_index(o, j as int);
                assert(other@ == pairs_map(o));
            }
            if !acc.add(&other.entries[j].0, other.entries[j].1) {
                assert(!fits_i64(merged(self@, other@)[n]));
                return None;
            }
            proof {
                assert(o.take(j + 1).drop_last() =~= o.take(j as int));
                assert(pairs_map(o.take(j + 1)) == pj.insert(n, d));
                assert(acc@ =~= merged(self@, pairs_map(o.take(j + 1))));
            }
            j = j + 1;
        }
        proof {
            assert(o.take(o.len() as int) =~= o);
            lemma_pairs_map_fit(acc.entries@);
        }
        Some(acc)
    }
}

proof fn lemma_pairs_map_fit(s: Seq<(String, i64)>)
    ensures
        all_fit(pairs_map(s)),
    decreases s.len(),
{
    if s.len() > 0 {
        lemma_pairs_map_fit(s.drop_last());
    }
}

proof fn lemma_dom_len_of(s: Seq<(String, i64)>)
    requires
        distinct_names(s),
    ensures
        pairs_map(s).dom().finite(),
        pairs_map(s).dom().len() == s.len(),
    decreases s.len(),
{
    if s.len() > 0 {
        let t = s.drop_last();
        assert(distinct_names(t));
        lemma_dom_len_of(t);
        lemma_pairs_map_dom(t, s.last().0@);
        if pairs_map(t).dom().contains(s.last().0@) {
            let i = choose|i: int| 0 <= i < t.len() && t[i].0@ == s.last().0@;
            assert(s[i].0@ == s[s.len() - 1].0@);
        }
    }
}

} // verus!
