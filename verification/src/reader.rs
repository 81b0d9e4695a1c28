//! Reader contracts and the reader registry.
//!
//! A reader translates one text format into a [`Table`]; readers are external
//! collaborators, implemented by library users. The registry stores readers
//! keyed by the suffix each reader reports, last registration for a suffix
//! winning, and hands them back by suffix.

use vstd::prelude::*;

use crate::assoc::{assoc_contains, assoc_get, assoc_index_of, assoc_update, lemma_assoc_index_of,
    lemma_assoc_index_of_first};
use crate::domain::Table;
use crate::error::FileError;

pub mod toml;

verus! {

/// A format reader: translates source text of one format into a [`Table`].
///
/// Readers are implemented by library users, so nothing is promised of any
/// method: what a reader reports or accepts is its own business, and callers
/// treat every outcome.
pub trait ConfigReader {
    /// The reader's name.
    fn name(&self) -> String;

    /// The file-name suffix the reader handles.
    fn suffix(&self) -> String;

    /// Whether the reader handles the given suffix.
    fn supports(&self, suffix: &str) -> bool;

    /// Translates source text into a table, or reports why it cannot.
    fn read_from_str(&self, data: &str) -> Result<Table, FileError>;
}

/// A reader that can also load its source text from a file path. File access
/// is the implementor's business; nothing is promised of the outcome.
pub trait PathReader: ConfigReader {
    /// Reads the file at `path` and translates its content.
    fn read_from_path(&self, path: &str) -> Result<Table, FileError>;
}

/// A registry of readers, keyed by the suffix each reader reported when it
/// was registered.
pub struct ConfigReaderRegistry<R> {
    pub(crate) readers: Vec<(String, R)>,
}

/// The pairs of a registry's backing storage with their keys as sequences.
pub open spec fn readers_view<R>(es: Seq<(String, R)>) -> Seq<(Seq<char>, R)>
    decreases es.len(),
{
    if es.len() == 0 {
        Seq::empty()
    } else {
        readers_view(es.drop_last()).push((es.last().0@, es.last().1))
    }
}

/// `readers_view` maps the sequence element by element.
pub proof fn lemma_readers_view<R>(es: Seq<(String, R)>)
    ensures
        readers_view(es).len() == es.len(),
        forall|i: int| 0 <= i < es.len() ==> readers_view(es)[i] == (es[i].0@, es[i].1),
    decreases es.len(),
{
    if es.len() > 0 {
        lemma_readers_view(es.drop_last());
        assert forall|i: int|
            0 <= i < es.len() implies readers_view(es)[i] == (es[i].0@, es[i].1) by {
            if i < es.len() - 1 {
                assert(es.drop_last()[i] == es[i]);
                assert(readers_view(es)[i] == readers_view(es.drop_last())[i]);
            } else {
                assert(readers_view(es)[i] == (es.last().0@, es.last().1));
            }
        }
    }
}

impl<R> View for ConfigReaderRegistry<R> {
    type V = Seq<(Seq<char>, R)>;

    closed spec fn view(&self) -> Seq<(Seq<char>, R)> {
        readers_view(self.readers@)
    }
}

impl<R: ConfigReader> Default for ConfigReaderRegistry<R> {
    /// An empty registry.
    fn default() -> (r: Self)
        ensures
            r@ == Seq::<(Seq<char>, R)>::empty(),
    {
        ConfigReaderRegistry::new()
    }
}

impl<R: ConfigReader> ConfigReaderRegistry<R> {
    /// Creates an empty registry.
    pub fn new() -> (r: Self)
        ensures
            r@ == Seq::<(Seq<char>, R)>::empty(),
    {
        ConfigReaderRegistry { readers: Vec::new() }
    }

    /// Position of the first reader registered under `suffix`.
    fn index_of(&self, suffix: &str) -> (r: Option<usize>)
        ensures
            match r {
                Some(i) => i == assoc_index_of(self@, suffix@) && assoc_contains(self@, suffix@),
                None => !assoc_contains(self@, suffix@),
            },
    {
        proof {
            lemma_readers_view(self.readers@);
        }
        let k = suffix.to_owned();
        let n = self.readers.len();
        let mut i: usize = 0;
        while i < n
            invariant
                n == self.readers.len(),
                i <= n,
                k@ == suffix@,
                forall|j: int| 0 <= j < i ==> self@[j].0 != suffix@,
                self@.len() == n,
                forall|j: int| 0 <= j < n ==> self@[j] == (self.readers@[j].0@, self.readers@[j].1),
            decreases n - i,
        {
            if self.readers[i].0 == k {
                proof {
                    lemma_assoc_index_of_first(self@, suffix@, i as int);
                }
                return Some(i);
            }
            i += 1;
        }
        proof {
            lemma_assoc_index_of(self@, suffix@);
        }
        None
    }

    /// Registers `reader` under the suffix it reports; a reader registered
    /// earlier under the same suffix is replaced. Which key that is depends
    /// on what the reader's own `suffix` method returned.
    pub fn register(&mut self, reader: R)
        ensures
            exists|sfx: Seq<char>| final(self)@ == assoc_update(old(self)@, sfx, reader),
    {
        let suffix = reader.suffix();
        proof {
            lemma_readers_view(self.readers@);
        }
        match self.index_of(suffix.as_str()) {
            Some(i) => {
                proof {
                    lemma_assoc_index_of(self@, suffix@);
                }
                let ghost before = self.readers@;
                let _ = self.readers.remove(i);
                self.readers.insert(i, (suffix, reader));
                proof {
                    assert(self.readers@ =~= before.update(i as int, self.readers@[i as int]));
                    lemma_readers_view(self.readers@);
                    lemma_readers_view(before);
                    assert(self@ =~= assoc_update(old(self)@, suffix@, reader));
                }
            },
            None => {
                let ghost before = self.readers@;
                self.readers.push((suffix, reader));
                proof {
                    lemma_readers_view(self.readers@);
                    lemma_readers_view(before);
                    assert(self@ =~= assoc_update(old(self)@, suffix@, reader));
                }
            },
        }
    }

    /// The reader registered under `suffix`, if any.
    pub fn try_acquire(&self, suffix: &str) -> (r: Option<&R>)
        ensures
            match r {
                Some(rd) => assoc_get(self@, suffix@) == Some(*rd),
                None => assoc_get(self@, suffix@) is None,
            },
    {
        match self.index_of(suffix) {
            Some(i) => {
                proof {
                    lemma_readers_view(self.readers@);
                    lemma_assoc_index_of(self@, suffix@);
                }
                Some(&self.readers[i].1)
            },
            None => None,
        }
    }

    /// All registered readers, in registration order of their suffixes.
    pub fn try_acquires(&self) -> (r: Vec<&R>)
        ensures
            r@.len() == self@.len(),
            forall|i: int| 0 <= i < self@.len() ==> r@[i] == self@[i].1,
    {
        proof {
            lemma_readers_view(self.readers@);
        }
        let n = self.readers.len();
        let mut out: Vec<&R> = Vec::new();
        let mut i: usize = 0;
        while i < n
            invariant
                n == self.readers.len(),
                i <= n,
                out@.len() == i,
                self@.len() == n,
                forall|j: int| 0 <= j < n ==> self@[j] == (self.readers@[j].0@, self.readers@[j].1),
                forall|j: int| 0 <= j < i ==> out@[j] == self@[j].1,
            decreases n - i,
        {
            out.push(&self.readers[i].1);
            i += 1;
        }
        out
    }
}

} // verus!
