//! The transient membership index of one build cycle: the set of
//! (content-hash, logical-path) pairs live at a point in time, seeded from the
//! prior revision and mutated by a batch's edits.

use vstd::prelude::*;

use crate::text;

verus! {

/// The (hash, path) pairs of `items`, as character sequences.
pub open spec fn pair_views(items: Seq<(String, String)>) -> Seq<(Seq<char>, Seq<char>)> {
    items.map_values(|p: (String, String)| (p.0@, p.1@))
}

proof fn lemma_push_to_set(s: Seq<(Seq<char>, Seq<char>)>, x: (Seq<char>, Seq<char>))
    ensures
        s.push(x).to_set() == s.to_set().insert(x),
{
    assert forall|y: (Seq<char>, Seq<char>)| s.push(x).to_set().contains(y) implies s.to_set()
        .insert(x).contains(y) by {
        if y != x {
            let i = choose|i: int| 0 <= i < s.push(x).len() && s.push(x)[i] == y;
            assert(s[i] == y);
        }
    }
    assert forall|y: (Seq<char>, Seq<char>)| s.to_set().insert(x).contains(y) implies s.push(
        x,
    ).to_set().contains(y) by {
        if y == x {
            assert(s.push(x)[s.len() as int] == y);
        } else {
            let i = choose|i: int| 0 <= i < s.len() && s[i] == y;
            assert(s.push(x)[i] == y);
        }
    }
    assert(s.push(x).to_set() =~= s.to_set().insert(x));
}

proof fn lemma_push_no_dup(s: Seq<(Seq<char>, Seq<char>)>, x: (Seq<char>, Seq<char>))
    requires
        s.no_duplicates(),
        !s.contains(x),
    ensures
        s.push(x).no_duplicates(),
{
}

/// A set of (hash, path) pairs. Its view is the mathematical set of the pairs'
/// character sequences; `elems` exposes them in insertion order.
pub struct RevisionSet {
    items: Vec<(String, String)>,
}

impl View for RevisionSet {
    type V = Set<(Seq<char>, Seq<char>)>;

    open spec fn view(&self) -> Set<(Seq<char>, Seq<char>)> {
        self.elems().to_set()
    }
}

impl RevisionSet {
    /// The pairs in insertion order, as character sequences.
    pub closed spec fn elems(&self) -> Seq<(Seq<char>, Seq<char>)> {
        pair_views(self.items@)
    }

    /// Well-formed: no pair occurs twice.
    pub closed spec fn wf(&self) -> bool {
        self.elems().no_duplicates()
    }

    /// The order-carrying `elems` enumerates the view without repetition.
    pub proof fn lemma_elems(&self)
        requires
            self.wf(),
        ensures
            self.elems().to_set() == self@,
            self.elems().no_duplicates(),
            self@.finite(),
            self@.len() == self.elems().len(),
    {
        self.elems().unique_seq_to_set();
    }

    /// Creates a new `RevisionSet`, with nothing in it.
    pub fn new() -> (r: Self)
        ensures
            r.wf(),
            r@ == Set::<(Seq<char>, Seq<char>)>::empty(),
            r.elems() == Seq::<(Seq<char>, Seq<char>)>::empty(),
    {
        let r = RevisionSet { items: Vec::new() };
        proof {
            assert(r.elems() =~= Seq::<(Seq<char>, Seq<char>)>::empty());
            assert(r@ =~= Set::<(Seq<char>, Seq<char>)>::empty());
        }
        r
    }

    /// Returns `true` if the `RevisionSet` is empty.
    pub fn is_empty(&self) -> (r: bool)
        requires
            self.wf(),
        ensures
            r == (self@.len() == 0),
    {
        self.count() == 0
    }

    /// The number of pairs currently in the `RevisionSet`.
    pub fn count(&self) -> (r: usize)
        requires
            self.wf(),
        ensures
            r == self@.len(),
    {
        proof {
            self.lemma_elems();
        }
        self.items.len()
    }

    /// The pair at position `i` of the insertion order.
    pub fn get(&self, i: usize) -> (r: &(String, String))
        requires
            self.wf(),
            i < self@.len(),
        ensures
            (r.0@, r.1@) == self.elems()[i as int],
    {
        proof {
            self.lemma_elems();
        }
        &self.items[i]
    }

    /// Is the pair (`hash`, `path`) in the set?
    pub fn contains(&self, hash: &str, path: &str) -> (r: bool)
        requires
            self.wf(),
        ensures
            r == self@.contains((hash@, path@)),
    {
        let n = self.items.len();
        let mut i: usize = 0;
        while i < n
            invariant
                i <= n,
                n == self.elems().len(),
                forall|j: int| 0 <= j < i ==> self.elems()[j] != (hash@, path@),
            decreases n - i,
        {
            let pair = &self.items[i];
            if text::str_eq(pair.0.as_str(), hash) && text::str_eq(pair.1.as_str(), path) {
                assert(self.elems()[i as int] == (hash@, path@));
                return true;
            }
            i += 1;
        }
        assert(!self.elems().contains((hash@, path@)));
        false
    }

    /// Adds a (hash, path) pair to the set.
    ///
    /// Returns `true` if the pair was not yet in the set, `false` if it
    /// already was (and nothing changed).
    pub fn add(&mut self, hash: &str, path: &str) -> (r: bool)
        requires
            old(self).wf(),
        ensures
            final(self).wf(),
            final(self)@ == old(self)@.insert((hash@, path@)),
            r == !old(self)@.contains((hash@, path@)),
            r ==> final(self).elems() == old(self).elems().push((hash@, path@)),
            !r ==> final(self).elems() == old(self).elems(),
    {
        proof {
            self.lemma_elems();
        }
        if self.contains(hash, path) {
            proof {
                assert(old(self)@ =~= old(self)@.insert((hash@, path@)));
            }
            return false;
        }
        self.items.push((hash.to_owned(), path.to_owned()));
        proof {
            assert(self.elems() =~= old(self).elems().push((hash@, path@)));
            lemma_push_to_set(old(self).elems(), (hash@, path@));
            lemma_push_no_dup(old(self).elems(), (hash@, path@));
        }
        true
    }

    /// Removes every pair whose path has `path` as a prefix, and no other.
    pub fn remove_by_path(&mut self, path: &str)
        requires
            old(self).wf(),
        ensures
            final(self).wf(),
            final(self)@ == old(self)@.filter(
                |hp: (Seq<char>, Seq<char>)| !path@.is_prefix_of(hp.1),
            ),
    {
        proof {
            self.lemma_elems();
        }
        let ghost kept = |hp: (Seq<char>, Seq<char>)| !path@.is_prefix_of(hp.1);
        let n = self.items.len();
        let mut out: Vec<(String, String)> = Vec::new();
        let mut i: usize = 0;
        while i < n
            invariant
                i <= n,
                kept == (|hp: (Seq<char>, Seq<char>)| !path@.is_prefix_of(hp.1)),
                self.elems() == old(self).elems(),
                n == self.elems().len(),
                self.elems().no_duplicates(),
                pair_views(out@).no_duplicates(),
                forall|hp: (Seq<char>, Seq<char>)| #[trigger] pair_views(out@).contains(hp) <==> (
                self.elems().take(i as int).contains(hp) && kept(hp)),
            decreases n - i,
        {
            let ghost oe = self.elems();
            let ghost before = pair_views(out@);
            let pair = &self.items[i];
            assert(oe[i as int] == (pair.0@, pair.1@));
            let keep = !text::has_prefix(pair.1.as_str(), path);
            assert(keep == kept(oe[i as int]));
            if keep {
                proof {
                    if before.contains(oe[i as int]) {
                        let j = choose|j: int|
                            0 <= j < oe.take(i as int).len() && #[trigger] oe.take(i as int)[j]
                                == oe[i as int];
                        assert(oe[j] == oe[i as int]);
                        assert(false);
                    }
                }
                let h = pair.0.clone();
                let p = pair.1.clone();
                out.push((h, p));
                proof {
                    assert(pair_views(out@) =~= before.push(oe[i as int]));
                    lemma_push_no_dup(before, oe[i as int]);
                }
            }
            proof {
                assert(oe.take(i + 1) =~= oe.take(i as int).push(oe[i as int]));
                assert forall|hp: (Seq<char>, Seq<char>)| #[trigger] pair_views(out@).contains(hp)
                    <==> (oe.take(i + 1).contains(hp) && kept(hp)) by {
                    assert(before.contains(hp) <==> (oe.take(i as int).contains(hp) && kept(hp)));
                    if oe.take(i + 1).contains(hp) && kept(hp) {
                        let j = choose|j: int|
                            0 <= j < oe.take(i + 1).len() && #[trigger] oe.take(i + 1)[j] == hp;
                        if j < i {
                            assert(oe.take(i as int)[j] == hp);
                            assert(before.contains(hp));
                            let k = choose|k: int|
                                0 <= k < before.len() && #[trigger] before[k] == hp;
                            assert(pair_views(out@)[k] == hp);
                        } else {
                            assert(hp == oe[i as int]);
                            assert(keep);
                            assert(pair_views(out@)[before.len() as int] == hp);
                        }
                        assert(pair_views(out@).contains(hp));
                    }
                    if pair_views(out@).contains(hp) {
                        let j = choose|j: int|
                            0 <= j < pair_views(out@).len() && #[trigger] pair_views(out@)[j] == hp;
                        if keep && j == before.len() {
                            assert(hp == oe[i as int]);
                            assert(oe.take(i + 1)[i as int] == hp);
                        } else {
                            assert(before[j] == hp);
                            assert(before.contains(hp));
                            let k = choose|k: int|
                                0 <= k < oe.take(i as int).len() && #[trigger] oe.take(i as int)[k]
                                    == hp;
                            assert(oe.take(i + 1)[k] == hp);
                        }
                        assert(oe.take(i + 1).contains(hp) && kept(hp));
                    }
                }
            }
            i += 1;
        }
        proof {
            assert(self.elems().take(n as int) =~= self.elems());
        }
        self.items = out;
        proof {
            assert(self@ =~= old(self)@.filter(kept));
        }
    }

    /// Put the contents of `items` into the set, keeping what is already there.
    pub fn fill(&mut self, items: Vec<(String, String)>)
        requires
            old(self).wf(),
        ensures
            final(self).wf(),
            final(self)@ == old(self)@ + pair_views(items@).to_set(),
    {
        let n = items.len();
        let ghost views = pair_views(items@);
        let mut i: usize = 0;
        while i < n
            invariant
                i <= n,
                n == items@.len(),
                views == pair_views(items@),
                self.wf(),
                self@ == old(self)@ + views.take(i as int).to_set(),
            decreases n - i,
        {
            let pair = &items[i];
            assert(views[i as int] == (pair.0@, pair.1@));
            self.add(pair.0.as_str(), pair.1.as_str());
            proof {
                assert(views.take(i + 1) =~= views.take(i as int).push(views[i as int]));
                lemma_push_to_set(views.take(i as int), views[i as int]);
                assert(self@ =~= old(self)@ + views.take(i + 1).to_set());
            }
            i += 1;
        }
        proof {
            assert(views.take(n as int) =~= views);
            assert(self@ =~= old(self)@ + views.to_set());
        }
    }
}

} // verus!
