//! The output of the checks that are running, shared between the worker that
//! appends to it and the web pages that poll it.
//!
//! A buffer exists only while its check is running, so that a miss means "not
//! running" rather than "running with no output yet".

use vstd::prelude::*;

use crate::text::{opt_text, same};

verus! {

/// What a running check is known by: the repository, the commit being checked,
/// and the check's name.
#[derive(Debug, Clone, PartialEq, Eq)]
pub struct LiveKey {
    /// The repository.
    pub repo: String,
    /// The commit.
    pub commit: String,
    /// The check.
    pub name: String,
}

impl View for LiveKey {
    type V = (Seq<char>, Seq<char>, Seq<char>);

    open spec fn view(&self) -> (Seq<char>, Seq<char>, Seq<char>) {
        (self.repo@, self.commit@, self.name@)
    }
}

fn same_live(a: &LiveKey, b: &LiveKey) -> (r: bool)
    ensures
        r == (a@ == b@),
{
    same(a.repo.as_str(), b.repo.as_str()) && same(a.commit.as_str(), b.commit.as_str()) && same(
        a.name.as_str(),
        b.name.as_str(),
    )
}

/// The buffer of a key among entries: the last one put down.
pub open spec fn looked_up(
    entries: Seq<(LiveKey, String)>,
    key: (Seq<char>, Seq<char>, Seq<char>),
) -> Option<Seq<char>>
    decreases entries.len(),
{
    if entries.len() == 0 {
        None
    } else if entries.last().0@ == key {
        Some(entries.last().1@)
    } else {
        looked_up(entries.drop_last(), key)
    }
}

/// The live buffers of the checks that are running.
#[derive(Debug)]
pub struct LiveRegistry {
    entries: Vec<(LiveKey, String)>,
}

impl LiveRegistry {
    /// What a key's buffer holds, or nothing where no check is running under it.
    pub closed spec fn buffer(&self, key: (Seq<char>, Seq<char>, Seq<char>)) -> Option<Seq<char>> {
        looked_up(self.entries@, key)
    }

    /// A fresh, empty registry.
    pub fn new() -> (r: LiveRegistry)
        ensures
            forall|key: (Seq<char>, Seq<char>, Seq<char>)| #[trigger] r.buffer(key) is None,
    {
        LiveRegistry { entries: Vec::new() }
    }

    /// The text accumulated so far for a running check, or nothing when no check
    /// is running under `key`.
    pub fn snapshot(&self, key: &LiveKey) -> (r: Option<String>)
        ensures
            opt_text(r) == self.buffer(key@),
    {
        let mut n: usize = self.entries.len();
        proof {
            assert(self.entries@.take(n as int) =~= self.entries@);
        }
        while n > 0
            invariant
                n <= self.entries@.len(),
                looked_up(self.entries@.take(n as int), key@) == self.buffer(key@),
            decreases n,
        {
            proof {
                assert(self.entries@.take(n as int).drop_last() =~= self.entries@.take(n - 1));
                assert(self.entries@.take(n as int).last() == self.entries@[n - 1]);
            }
            if same_live(&self.entries[n - 1].0, key) {
                return Some(self.entries[n - 1].1.clone());
            }
            n -= 1;
        }
        None
    }

    /// Registers a fresh buffer for `key`.
    pub fn start(&mut self, key: LiveKey)
        ensures
            final(self).buffer(key@) == Some(Seq::<char>::empty()),
            forall|other: (Seq<char>, Seq<char>, Seq<char>)|
                other != key@ ==> #[trigger] final(self).buffer(other) == old(self).buffer(other),
    {
        self.finish(&key);
        let ghost cleared = *self;
        self.entries.push((key, String::new()));
        proof {
            assert(self.entries@.drop_last() =~= cleared.entries@);
            assert forall|other: (Seq<char>, Seq<char>, Seq<char>)|
                other != key@ implies #[trigger] self.buffer(other) == old(self).buffer(other) by {
                assert(cleared.buffer(other) == old(self).buffer(other));
            }
        }
    }

    /// Appends what a running check printed. Nothing is kept of one that is not
    /// running.
    pub fn append(&mut self, key: &LiveKey, output: &str)
        ensures
            final(self).buffer(key@) == (match old(self).buffer(key@) {
                Some(text) => Some(text + output@),
                None => None,
            }),
            forall|other: (Seq<char>, Seq<char>, Seq<char>)|
                other != key@ ==> #[trigger] final(self).buffer(other) == old(self).buffer(other),
    {
        let ghost prior = self.entries@;
        let mut n: usize = self.entries.len();
        proof {
            assert(prior.take(n as int) =~= prior);
        }
        while n > 0
            invariant
                self.entries@ == prior,
                old(self).entries@ == prior,
                n <= prior.len(),
                looked_up(prior.take(n as int), key@) == looked_up(prior, key@),
            decreases n,
        {
            proof {
                assert(prior.take(n as int).drop_last() =~= prior.take(n - 1));
                assert(prior.take(n as int).last() == prior[n - 1]);
            }
            n -= 1;
            if same_live(&self.entries[n].0, key) {
                let (own, mut text) = self.entries.remove(n);
                text.append(output);
                let ghost left = self.entries@;
                self.entries.push((own, text));
                proof {
                    assert(self.entries@.drop_last() =~= left);
                    assert forall|other: (Seq<char>, Seq<char>, Seq<char>)|
                        other != key@ implies #[trigger] self.buffer(other) == old(self).buffer(
                        other,
                    ) by {
                        lemma_removed(prior, n as int, other);
                    }
                }
                return;
            }
        }
    }

    /// Removes a key's buffer once its check has settled.
    pub fn finish(&mut self, key: &LiveKey)
        ensures
            final(self).buffer(key@) is None,
            forall|other: (Seq<char>, Seq<char>, Seq<char>)|
                other != key@ ==> #[trigger] final(self).buffer(other) == old(self).buffer(other),
    {
        let ghost prior = self.entries@;
        let mut n: usize = self.entries.len();
        while n > 0
            invariant
                n <= self.entries@.len(),
                forall|j: int| n <= j < self.entries@.len() ==> (#[trigger] self.entries@[j]).0@
                    != key@,
                forall|other: (Seq<char>, Seq<char>, Seq<char>)|
                    other != key@ ==> #[trigger] looked_up(self.entries@, other) == looked_up(
                        prior,
                        other,
                    ),
            decreases n,
        {
            n -= 1;
            if same_live(&self.entries[n].0, key) {
                let ghost before = self.entries@;
                let _gone = self.entries.remove(n);
                proof {
                    assert forall|other: (Seq<char>, Seq<char>, Seq<char>)|
                        other != key@ implies #[trigger] looked_up(self.entries@, other)
                        == looked_up(prior, other) by {
                        lemma_removed(before, n as int, other);
                    }
                }
            }
        }
        proof {
            lemma_not_there(self.entries@, key@);
        }
    }
}

/// Removing an entry changes nothing of other keys.
proof fn lemma_removed(
    entries: Seq<(LiveKey, String)>,
    i: int,
    other: (Seq<char>, Seq<char>, Seq<char>),
)
    requires
        0 <= i < entries.len(),
        entries[i].0@ != other,
    ensures
        looked_up(entries.remove(i), other) == looked_up(entries, other),
    decreases entries.len(),
{
    if i == entries.len() - 1 {
        assert(entries.remove(i) =~= entries.drop_last());
    } else {
        lemma_removed(entries.drop_last(), i, other);
        assert(entries.remove(i).drop_last() =~= entries.drop_last().remove(i));
        assert(entries.remove(i).last() == entries.last());
    }
}

/// A key that no entry has is not found.
proof fn lemma_not_there(entries: Seq<(LiveKey, String)>, key: (Seq<char>, Seq<char>, Seq<char>))
    requires
        forall|j: int| 0 <= j < entries.len() ==> (#[trigger] entries[j]).0@ != key,
    ensures
        looked_up(entries, key) is None,
    decreases entries.len(),
{
    if entries.len() > 0 {
        let front = entries.drop_last();
        assert forall|j: int| 0 <= j < front.len() implies (#[trigger] front[j]).0@ != key by {
            assert(front[j] == entries[j]);
        }
        lemma_not_there(front, key);
    }
}

} // verus!
