//! Document identities and the registry that hands them out.
//!
//! A document is known by a key. The registry gives each source path its
//! key, remembers which keys are live, and resolves a live key to its path.
//! The key of a path never changes: it carries the text of the path.

use vstd::prelude::*;
use vstd::string::*;
use crate::table::Table;
use crate::text::{same_text, texts};

verus! {

/// The identity of one document.
#[derive(Debug, Clone, PartialEq, Eq, Hash)]
pub struct Key {
    text: String,
}

impl View for Key {
    type V = Seq<char>;

    closed spec fn view(&self) -> Seq<char> {
        self.text@
    }
}

/// The texts of a list of keys.
pub open spec fn key_texts(keys: Seq<Key>) -> Seq<Seq<char>> {
    keys.map_values(|k: Key| k@)
}

impl Key {
    /// The key of the document at `path`.
    pub fn from_path(path: &str) -> (key: Key)
        ensures
            key@ == path@,
    {
        Key { text: String::from_str(path) }
    }

    /// The source path of the document that the key names.
    pub fn path(&self) -> (path: &str)
        ensures
            path@ == self@,
    {
        self.text.as_str()
    }

    /// Whether two keys name the same document.
    pub fn same(&self, other: &Key) -> (r: bool)
        ensures
            r == (self@ == other@),
    {
        same_text(self.text.as_str(), other.text.as_str())
    }

    /// A second key for the same document.
    pub fn duplicate(&self) -> (key: Key)
        ensures
            key@ == self@,
    {
        Key { text: self.text.clone() }
    }
}

/// A copy of a list of keys.
pub fn duplicate_keys(keys: &Vec<Key>) -> (r: Vec<Key>)
    ensures
        key_texts(r@) == key_texts(keys@),
{
    let mut r: Vec<Key> = Vec::new();
    let mut i: usize = 0;
    while i < keys.len()
        invariant
            i <= keys.len(),
            r@.len() == i,
            forall|j: int| 0 <= j < i ==> r@[j]@ == keys@[j]@,
        decreases keys.len() - i,
    {
        r.push(keys[i].duplicate());
        i += 1;
    }
    assert(key_texts(r@) =~= key_texts(keys@));
    r
}

/// The live keys, each with its source path. Its view is the set of them.
pub struct KeyRegistry {
    known: Table<String>,
}

impl View for KeyRegistry {
    type V = Set<Seq<char>>;

    closed spec fn view(&self) -> Set<Seq<char>> {
        self.known@.dom()
    }
}

impl KeyRegistry {
    /// A registry without keys.
    pub fn new() -> (registry: KeyRegistry)
        ensures
            registry@ == Set::<Seq<char>>::empty(),
    {
        let registry = KeyRegistry { known: Table::new() };
        assert(registry@ =~= Set::<Seq<char>>::empty());
        registry
    }

    /// Makes `key` live.
    pub fn register_key(&mut self, key: &Key)
        ensures
            final(self)@ == old(self)@.insert(key@),
    {
        if !self.known.contains(key.path()) {
            self.known.insert(String::from_str(key.path()), String::from_str(key.path()));
        }
        assert(self@ =~= old(self)@.insert(key@));
    }

    /// Gives the document at `path` its key and makes the key live; a path
    /// that has a live key keeps it.
    pub fn register_path(&mut self, path: &str) -> (key: Key)
        ensures
            key@ == path@,
            final(self)@ == old(self)@.insert(key@),
    {
        let key = Key::from_path(path);
        self.register_key(&key);
        key
    }

    /// Registers each of `paths`.
    pub fn register_paths(&mut self, paths: &Vec<String>)
        ensures
            final(self)@ == old(self)@.union(texts(paths@).to_set()),
    {
        let mut i: usize = 0;
        assert(self@ =~= old(self)@.union(texts(paths@).take(0).to_set()));
        while i < paths.len()
            invariant
                i <= paths.len(),
                self@ == old(self)@.union(texts(paths@).take(i as int).to_set()),
            decreases paths.len() - i,
        {
            let ghost before = self@;
            let _ = self.register_path(paths[i].as_str());
            proof {
                let done = texts(paths@).take(i as int);
                let more = texts(paths@).take(i + 1);
                assert(more =~= done.push(paths@[i as int]@));
                assert forall|k: Seq<char>| more.to_set().contains(k) <==> done.to_set().contains(k)
                    || k == paths@[i as int]@ by {
                    if done.contains(k) {
                        let j = choose|j: int| 0 <= j < done.len() && done[j] == k;
                        assert(more[j] == k);
                    }
                    if k == paths@[i as int]@ {
                        assert(more[i as int] == k);
                    }
                }
                assert(self@ =~= old(self)@.union(more.to_set()));
            }
            i += 1;
        }
        assert(texts(paths@).take(paths@.len() as int) =~= texts(paths@));
    }

    /// Whether `key` is live.
    pub fn knows(&self, key: &Key) -> (r: bool)
        ensures
            r == self@.contains(key@),
    {
        self.known.contains(key.path())
    }

    /// The live key of the document at `path`.
    pub fn key(&self, path: &str) -> (r: Option<Key>)
        ensures
            match r {
                Some(key) => self@.contains(path@) && key@ == path@,
                None => !self@.contains(path@),
            },
    {
        if self.known.contains(path) {
            Some(Key::from_path(path))
        } else {
            None
        }
    }

    /// The source path that a live key resolves to.
    pub fn path(&self, key: &Key) -> (r: Option<String>)
        ensures
            match r {
                Some(path) => self@.contains(key@) && path@ == key@,
                None => !self@.contains(key@),
            },
    {
        if self.known.contains(key.path()) {
            Some(String::from_str(key.path()))
        } else {
            None
        }
    }

    /// Forgets `key`: it resolves to nothing afterwards.
    pub fn remove_key(&mut self, key: &Key)
        ensures
            final(self)@ == old(self)@.remove(key@),
    {
        let _ = self.known.remove(key.path());
        assert(self@ =~= old(self)@.remove(key@));
    }
}

} // verus!
