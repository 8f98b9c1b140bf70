//! The source map: one canonical, deduplicated in-memory copy of every
//! source file read during a build, keyed by resolved file path.

use vstd::prelude::*;

verus! {

/// Looks a path up in an association list of `(path, content)` entries,
/// returning the first match.
pub open spec fn lookup(entries: Seq<(Seq<char>, Seq<char>)>, p: Seq<char>) -> Option<Seq<char>>
    decreases entries.len(),
{
    if entries.len() == 0 {
        None
    } else if entries.first().0 == p {
        Some(entries.first().1)
    } else {
        lookup(entries.drop_first(), p)
    }
}

/// The paths of an entry list.
pub open spec fn keys_of(entries: Seq<(Seq<char>, Seq<char>)>) -> Seq<Seq<char>> {
    entries.map_values(|e: (Seq<char>, Seq<char>)| e.0)
}

pub proof fn lemma_lookup_some_is_key(entries: Seq<(Seq<char>, Seq<char>)>, p: Seq<char>)
    requires
        lookup(entries, p) is Some,
    ensures
        keys_of(entries).contains(p),
    decreases entries.len(),
{
    if entries.len() > 0 && entries.first().0 != p {
        lemma_lookup_some_is_key(entries.drop_first(), p);
        let i = choose|i: int|
            0 <= i < keys_of(entries.drop_first()).len() && keys_of(entries.drop_first())[i] == p;
        assert(keys_of(entries)[i + 1] == p);
    } else if entries.len() > 0 {
        assert(keys_of(entries)[0] == p);
    }
}

/// Owns the deduplicated sources of one build: each path appears at most
/// once, so every consumer of a file shares the one loaded copy.
pub struct SourceStore {
    files: Vec<(String, String)>,
}

impl SourceStore {
    /// The store seen as an association list of `(path, content)` views.
    pub closed spec fn entries(self) -> Seq<(Seq<char>, Seq<char>)> {
        Seq::new(self.files@.len(), |i: int| (self.files@[i].0@, self.files@[i].1@))
    }

    /// No path is ever stored twice.
    pub open spec fn wf(self) -> bool {
        forall|i: int, j: int|
            0 <= i < j < self.entries().len() ==> self.entries()[i].0 != self.entries()[j].0
    }

    pub fn new() -> (r: SourceStore)
        ensures
            r.entries() =~= Seq::<(Seq<char>, Seq<char>)>::empty(),
            r.wf(),
    {
        SourceStore { files: Vec::new() }
    }

    /// Looks up the stored content for a path.
    pub fn get(&self, p: &String) -> (r: Option<&String>)
        ensures
            r matches Some(c) ==> lookup(self.entries(), p@) == Some(c@),
            r is None ==> lookup(self.entries(), p@) is None,
    {
        let n: usize = self.files.len();
        let mut i: usize = 0;
        proof {
            assert(self.entries().subrange(0, n as int) =~= self.entries());
        }
        while i < n
            invariant
                0 <= i <= n,
                n == self.files.len(),
                lookup(self.entries(), p@) == lookup(
                    self.entries().subrange(i as int, n as int),
                    p@,
                ),
            decreases n - i,
        {
            proof {
                let iv = i as int;
                assert(self.entries().subrange(iv, n as int).first() == self.entries()[iv]);
                assert(self.entries().subrange(i as int, n as int).drop_first()
                    =~= self.entries().subrange((i + 1) as int, n as int));
            }
            if p.eq(&self.files[i].0) {
                return Some(&self.files[i].1);
            }
            i += 1;
        }
        proof {
            assert(self.entries().subrange(n as int, n as int) =~= Seq::<(
                Seq<char>,
                Seq<char>,
            )>::empty());
        }
        None
    }

    /// Registers a file's content, keeping the first copy when the path is
    /// already present: the insert is idempotent per path.
    pub fn insert(&mut self, p: String, content: String)
        requires
            old(self).wf(),
        ensures
            final(self).wf(),
            lookup(old(self).entries(), p@) is Some ==> final(self).entries() == old(
                self,
            ).entries(),
            lookup(old(self).entries(), p@) is None ==> final(self).entries() == old(
                self,
            ).entries().push((p@, content@)),
            lookup(final(self).entries(), p@) matches Some(c) ==> (lookup(
                old(self).entries(),
                p@,
            ) matches Some(c0) && c == c0) || (lookup(old(self).entries(), p@) is None && c
                == content@),
    {
        let present = match self.get(&p) {
            Some(_) => true,
            None => false,
        };
        if !present {
            let ghost pre = self.entries();
            let ghost pv = p@;
            let ghost cv = content@;
            self.files.push((p, content));
            proof {
                assert(self.entries() =~= pre.push((pv, cv)));
                lemma_lookup_none_not_key(pre, pv);
                assert forall|i: int, j: int|
                    0 <= i < j < self.entries().len() implies self.entries()[i].0
                    != self.entries()[j].0 by {
                    if j == pre.len() {
                        assert(self.entries()[i] == pre[i]);
                        assert(pre[i].0 != pv);
                    } else {
                        assert(self.entries()[i] == pre[i]);
                        assert(self.entries()[j] == pre[j]);
                    }
                }
                lemma_lookup_push(pre, pv, cv);
            }
        }
    }
}

/// A path that no lookup finds is not among the keys.
pub proof fn lemma_lookup_none_not_key(entries: Seq<(Seq<char>, Seq<char>)>, p: Seq<char>)
    requires
        lookup(entries, p) is None,
    ensures
        forall|i: int| 0 <= i < entries.len() ==> entries[i].0 != p,
    decreases entries.len(),
{
    if entries.len() > 0 {
        lemma_lookup_none_not_key(entries.drop_first(), p);
        assert(forall|i: int|
            1 <= i < entries.len() ==> entries[i] == entries.drop_first()[i - 1]);
    }
}

/// Appending a fresh entry leaves old lookups alone and makes the new path
/// resolve to the new content.
pub proof fn lemma_lookup_push(entries: Seq<(Seq<char>, Seq<char>)>, p: Seq<char>, c: Seq<char>)
    requires
        lookup(entries, p) is None,
    ensures
        lookup(entries.push((p, c)), p) == Some(c),
        forall|q: Seq<char>|
            q != p ==> lookup(entries.push((p, c)), q) == lookup(entries, q),
    decreases entries.len(),
{
    if entries.len() == 0 {
        assert(entries.push((p, c)).first() == (p, c));
        assert forall|q: Seq<char>| q != p implies lookup(entries.push((p, c)), q) == lookup(
            entries,
            q,
        ) by {
            assert(entries.push((p, c)).first().0 == p);
            assert(entries.push((p, c)).drop_first() =~= Seq::<(Seq<char>, Seq<char>)>::empty());
            assert(lookup(Seq::<(Seq<char>, Seq<char>)>::empty(), q) is None);
        }
    } else {
        lemma_lookup_push(entries.drop_first(), p, c);
        assert(entries.push((p, c)).first() == entries.first());
        assert(entries.push((p, c)).drop_first() =~= entries.drop_first().push((p, c)));
        assert forall|q: Seq<char>| q != p implies lookup(entries.push((p, c)), q) == lookup(
            entries,
            q,
        ) by {
            if entries.first().0 != q {
                assert(lookup(entries.drop_first().push((p, c)), q) == lookup(
                    entries.drop_first(),
                    q,
                ));
            }
        }
    }
}

} // verus!
