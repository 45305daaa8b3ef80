//! The record of the issue URLs that one document has already listed.

use crate::text::{same_text, views};
use vstd::prelude::*;

verus! {

/// The URLs that were listed so far in one run. Nothing is ever taken out of
/// it, and a new document starts with a new, empty one.
pub struct Collector {
    urls: Vec<String>,
}

impl View for Collector {
    type V = Set<Seq<char>>;

    closed spec fn view(&self) -> Set<Seq<char>> {
        views(self.urls@).to_set()
    }
}

impl Collector {
    /// No URL is held twice.
    #[verifier::type_invariant]
    spec fn distinct(&self) -> bool {
        views(self.urls@).no_duplicates()
    }

    /// A collector that has seen nothing.
    pub fn new() -> (r: Collector)
        ensures
            r@ == Set::<Seq<char>>::empty(),
    {
        let r = Collector { urls: Vec::new() };
        assert(views(r.urls@) =~= Seq::<Seq<char>>::empty());
        assert(r@ =~= Set::<Seq<char>>::empty());
        r
    }

    /// Whether `url` was seen.
    pub fn contains(&self, url: &str) -> (r: bool)
        ensures
            r == self@.contains(url@),
    {
        let mut i: usize = 0;
        while i < self.urls.len()
            invariant
                i <= self.urls.len(),
                forall|k: int| 0 <= k < i ==> self.urls@[k]@ != url@,
            decreases self.urls.len() - i,
        {
            if same_text(self.urls[i].as_str(), url) {
                assert(views(self.urls@)[i as int] == url@);
                return true;
            }
            i += 1;
        }
        assert forall|k: int| 0 <= k < views(self.urls@).len() implies views(self.urls@)[k]
            != url@ by {}
        false
    }

    /// Records `url`. The answer is true if this is the first time that the
    /// URL is seen, and false every time after that.
    pub fn insert(&mut self, url: String) -> (r: bool)
        ensures
            r == !old(self)@.contains(url@),
            final(self)@ == old(self)@.insert(url@),
    {
        if self.contains(url.as_str()) {
            assert(self@.insert(url@) =~= self@);
            false
        } else {
            proof {
                use_type_invariant(&*self);
            }
            let ghost before = views(self.urls@);
            let mut urls: Vec<String> = Vec::new();
            assert(views(urls@) =~= Seq::<Seq<char>>::empty());
            core::mem::swap(&mut self.urls, &mut urls);
            urls.push(url);
            proof {
                crate::text::lemma_views_push(old(self).urls@, url);
                assert(views(urls@) == before.push(url@));
                assert forall|i: int, j: int|
                    0 <= i < before.push(url@).len() && 0 <= j < before.push(url@).len() && i
                        != j implies before.push(url@)[i] != before.push(url@)[j] by {
                    if i < before.len() {
                        assert(before.contains(before[i]));
                    }
                    if j < before.len() {
                        assert(before.contains(before[j]));
                    }
                }
                assert(before.push(url@).to_set() =~= before.to_set().insert(url@)) by {
                    assert forall|y: Seq<char>|
                        before.push(url@).to_set().contains(y) <==> before.to_set().insert(
                            url@,
                        ).contains(y) by {
                        if before.push(url@).contains(y) {
                            let k = choose|k: int|
                                0 <= k < before.push(url@).len() && before.push(url@)[k] == y;
                            if k < before.len() {
                                assert(before[k] == y);
                            }
                        }
                        if before.contains(y) {
                            let k = choose|k: int| 0 <= k < before.len() && before[k] == y;
                            assert(before.push(url@)[k] == y);
                        }
                        if y == url@ {
                            assert(before.push(url@)[before.len() as int] == y);
                        }
                    }
                }
            }
            core::mem::swap(&mut self.urls, &mut urls);
            true
        }
    }
}

/// What a new collector holds after the URLs of `urls` were put into it.
pub open spec fn after_inserts(urls: Seq<Seq<char>>) -> Set<Seq<char>>
    decreases urls.len(),
{
    if urls.len() == 0 {
        Set::empty()
    } else {
        after_inserts(urls.drop_last()).insert(urls.last())
    }
}

/// After a run of inserts the collector holds the URLs that were given, and
/// no other.
pub proof fn lemma_after_inserts(urls: Seq<Seq<char>>)
    ensures
        forall|u: Seq<char>| #[trigger] after_inserts(urls).contains(u) <==> urls.contains(u),
        after_inserts(urls).finite(),
    decreases urls.len(),
{
    if urls.len() > 0 {
        let front = urls.drop_last();
        lemma_after_inserts(front);
        assert forall|u: Seq<char>| #[trigger]
            after_inserts(urls).contains(u) <==> urls.contains(u) by {
            if urls.contains(u) {
                let k = choose|k: int| 0 <= k < urls.len() && urls[k] == u;
                if k < front.len() {
                    assert(front[k] == u);
                }
            }
            if front.contains(u) {
                let k = choose|k: int| 0 <= k < front.len() && front[k] == u;
                assert(urls[k] == u);
            }
            if u == urls.last() {
                assert(urls[urls.len() - 1] == u);
            }
        }
    }
}

/// In a run of inserts into a new collector, the insert of a URL answers true
/// exactly once: the first time that the URL is given. Every later insert of
/// the same URL answers false.
pub proof fn lemma_insert_true_once(urls: Seq<Seq<char>>, i: int)
    requires
        0 <= i < urls.len(),
    ensures
        !after_inserts(urls.take(i)).contains(urls[i]) <==> (forall|k: int|
            0 <= k < i ==> urls[k] != urls[i]),
{
    let front = urls.take(i);
    lemma_after_inserts(front);
    if front.contains(urls[i]) {
        let k = choose|k: int| 0 <= k < front.len() && front[k] == urls[i];
        assert(urls[k] == urls[i]);
    }
    if exists|k: int| 0 <= k < i && urls[k] == urls[i] {
        let k = choose|k: int| 0 <= k < i && urls[k] == urls[i];
        assert(front[k] == urls[i]);
    }
}

} // verus!
