//! A cache of parsed chapters keyed by title.

use vstd::prelude::*;
use vstd::string::StringExecFns;
use crate::document::{Chapter, ChapterView};

verus! {

/// Chapters keyed by their titles; a later chapter replaces an earlier one
/// of the same title.
pub struct ChapterCache {
    entries: Vec<Chapter>,
}

/// The entries hold distinct titles.
pub open spec fn titles_distinct(entries: Seq<Chapter>) -> bool {
    forall|i: int, j: int|
        0 <= i < entries.len() && 0 <= j < entries.len() && i != j ==> #[trigger] entries[i].title@
            != #[trigger] entries[j].title@
}

/// Some entry has the title `t`.
pub open spec fn has_title(entries: Seq<Chapter>, t: Seq<char>) -> bool {
    exists|i: int| 0 <= i < entries.len() && #[trigger] entries[i].title@ == t
}

/// The entry with the title `t`.
pub open spec fn entry_of(entries: Seq<Chapter>, t: Seq<char>) -> ChapterView {
    entries[choose|i: int| 0 <= i < entries.len() && #[trigger] entries[i].title@ == t]@
}

/// The map from title to chapter that `entries` hold.
pub open spec fn entries_map(entries: Seq<Chapter>) -> Map<Seq<char>, ChapterView> {
    Map::new(|t: Seq<char>| has_title(entries, t), |t: Seq<char>| entry_of(entries, t))
}

proof fn lemma_entry_at(entries: Seq<Chapter>, i: int)
    requires
        titles_distinct(entries),
        0 <= i < entries.len(),
    ensures
        has_title(entries, entries[i].title@),
        entry_of(entries, entries[i].title@) == entries[i]@,
{
    let t = entries[i].title@;
    assert(entries[i].title@ == t);
    let j = choose|j: int| 0 <= j < entries.len() && #[trigger] entries[j].title@ == t;
    assert(j == i);
}

impl View for ChapterCache {
    type V = Map<Seq<char>, ChapterView>;

    closed spec fn view(&self) -> Map<Seq<char>, ChapterView> {
        entries_map(self.entries@)
    }
}

impl ChapterCache {
    pub closed spec fn wf(&self) -> bool {
        titles_distinct(self.entries@)
    }

    /// An empty cache.
    pub fn new() -> (r: Self)
        ensures
            r.wf(),
            r@ == Map::<Seq<char>, ChapterView>::empty(),
    {
        let r = ChapterCache { entries: Vec::new() };
        assert(r@ =~= Map::<Seq<char>, ChapterView>::empty());
        r
    }

    /// The number of chapters held.
    pub fn len(&self) -> (r: usize)
        requires
            self.wf(),
        ensures
            r == self@.len(),
    {
        proof {
            self.lemma_len();
        }
        self.entries.len()
    }

    proof fn lemma_len(&self)
        requires
            self.wf(),
        ensures
            self@.dom().finite(),
            self@.len() == self.entries.len(),
        decreases self.entries.len(),
    {
        let e = self.entries@;
        let titles = Seq::new(e.len(), |i: int| e[i].title@);
        assert forall|i: int, j: int| 0 <= i < titles.len() && 0 <= j < titles.len() && i != j
            implies titles[i] != titles[j] by {
            assert(e[i].title@ != e[j].title@);
        }
        titles.unique_seq_to_set();
        assert(self@.dom() =~= titles.to_set()) by {
            assert forall|t: Seq<char>| self@.dom().contains(t) implies titles.to_set().contains(t) by {
                let i = choose|i: int| 0 <= i < e.len() && #[trigger] e[i].title@ == t;
                assert(titles[i] == t);
            }
            assert forall|t: Seq<char>| titles.to_set().contains(t) implies self@.dom().contains(t) by {
                let i = choose|i: int| 0 <= i < titles.len() && titles[i] == t;
                assert(e[i].title@ == t);
            }
        }
    }

    /// Index of the entry titled `title`, if any.
    fn find(&self, title: &String) -> (r: Option<usize>)
        requires
            self.wf(),
        ensures
            r is None <==> !has_title(self.entries@, title@),
            r matches Some(i) ==> i < self.entries.len() && self.entries@[i as int].title@
                == title@,
    {
        let mut i: usize = 0;
        while i < self.entries.len()
            invariant
                i <= self.entries.len(),
                forall|k: int| 0 <= k < i ==> #[trigger] self.entries@[k].title@ != title@,
            decreases self.entries.len() - i,
        {
            if self.entries[i].title == *title {
                return Some(i);
            }
            i = i + 1;
        }
        None
    }

    /// The chapter cached under `title`, if any.
    pub fn get(&self, title: &str) -> (r: Option<Chapter>)
        requires
            self.wf(),
        ensures
            r is Some <==> self@.contains_key(title@),
            r matches Some(c) ==> c@ == self@[title@],
    {
        let key = String::from_str(title);
        match self.find(&key) {
            Some(i) => {
                proof {
                    lemma_entry_at(self.entries@, i as int);
                }
                Some(self.entries[i].clone())
            },
            None => None,
        }
    }

    /// Caches `chapter` under its title, replacing a chapter of that title.
    pub fn insert(&mut self, chapter: Chapter)
        requires
            old(self).wf(),
        ensures
            final(self).wf(),
            final(self)@ == old(self)@.insert(chapter.title@, chapter@),
    {
        let ghost c = chapter@;
        let ghost old_entries = self.entries@;
        match self.find(&chapter.title) {
            Some(i) => {
                self.entries.set(i, chapter);
            },
            None => {
                self.entries.push(chapter);
            },
        }
        let ghost e = self.entries@;
        assert(titles_distinct(e)) by {
            assert forall|a: int, b: int|
                0 <= a < e.len() && 0 <= b < e.len() && a != b implies #[trigger] e[a].title@
                != #[trigger] e[b].title@ by {
                if a < old_entries.len() && b < old_entries.len() && e[a] != old_entries[a] {
                    assert(old_entries[b].title@ != old_entries[a].title@);
                } else if a < old_entries.len() && b < old_entries.len() && e[b]
                    != old_entries[b] {
                    assert(old_entries[b].title@ != old_entries[a].title@);
                } else if a >= old_entries.len() {
                    assert(old_entries[b].title@ == e[b].title@);
                } else if b >= old_entries.len() {
                    assert(old_entries[a].title@ == e[a].title@);
                }
            }
        }
        assert(self@ =~= entries_map(old_entries).insert(c.title, c)) by {
            assert forall|t: Seq<char>| #[trigger] has_title(e, t) == (has_title(old_entries, t)
                || t == c.title) by {
                if has_title(old_entries, t) {
                    let k = choose|k: int| 0 <= k < old_entries.len() && #[trigger] old_entries[k].title@ == t;
                    if e[k] != old_entries[k] {
                        assert(e[k].title@ == t);
                    } else {
                        assert(e[k].title@ == t);
                    }
                }
                if has_title(e, t) {
                    let k = choose|k: int| 0 <= k < e.len() && #[trigger] e[k].title@ == t;
                    if k < old_entries.len() && e[k] == old_entries[k] {
                        assert(old_entries[k].title@ == t);
                    }
                }
                if t == c.title {
                    let k: int = if self.entries.len() > old_entries.len() { old_entries.len() as int } else {
                        choose|k: int| 0 <= k < old_entries.len() && #[trigger] old_entries[k].title@ == t
                    };
                    assert(e[k].title@ == t);
                }
            }
            assert forall|t: Seq<char>| #[trigger] has_title(e, t) implies entry_of(e, t) == (if t
                == c.title { c } else { entry_of(old_entries, t) }) by {
                let k = choose|k: int| 0 <= k < e.len() && #[trigger] e[k].title@ == t;
                lemma_entry_at(e, k);
                if t != c.title {
                    assert(k < old_entries.len() && e[k] == old_entries[k]);
                    lemma_entry_at(old_entries, k);
                }
            }
        }
    }

    /// A copy of this cache.
    pub fn snapshot(&self) -> (r: Self)
        requires
            self.wf(),
        ensures
            r.wf(),
            r@ == self@,
    {
        let mut entries: Vec<Chapter> = Vec::new();
        let mut i: usize = 0;
        while i < self.entries.len()
            invariant
                i <= self.entries.len(),
                entries.len() == i,
                forall|k: int| 0 <= k < i ==> (#[trigger] entries@[k])@ == self.entries@[k]@,
            decreases self.entries.len() - i,
        {
            entries.push(self.entries[i].clone());
            i = i + 1;
        }
        let r = ChapterCache { entries };
        assert(r.entries@.len() == self.entries@.len());
        assert(forall|k: int| 0 <= k < r.entries@.len() ==> #[trigger] r.entries@[k].title@ == self.entries@[k].title@);
        assert(r@ =~= self@) by {
            assert forall|t: Seq<char>| #[trigger] has_title(r.entries@, t) == has_title(self.entries@, t) by {
                if has_title(r.entries@, t) {
                    let k = choose|k: int| 0 <= k < r.entries@.len() && #[trigger] r.entries@[k].title@ == t;
                    assert(self.entries@[k].title@ == t);
                }
                if has_title(self.entries@, t) {
                    let k = choose|k: int| 0 <= k < self.entries@.len() && #[trigger] self.entries@[k].title@ == t;
                    assert(r.entries@[k].title@ == t);
                }
            }
            assert forall|t: Seq<char>| #[trigger] has_title(r.entries@, t) implies entry_of(r.entries@, t) == entry_of(self.entries@, t) by {
                let k = choose|k: int| 0 <= k < r.entries@.len() && #[trigger] r.entries@[k].title@ == t;
                lemma_entry_at(r.entries@, k);
                lemma_entry_at(self.entries@, k);
            }
        }
        r
    }
}

} // verus!
