//! A namespace of named credential entries, each held as its encoded bytes.

use crate::codec::{decode, encode, encoding, lemma_round_trip, parse_entry, DecodeError};
use crate::entry::{validation_of, CredentialEntry, EntryModel, ValidationError};
use vstd::prelude::*;

verus! {

/// Why a store operation did not succeed.
#[derive(Debug, Clone, Copy, PartialEq, Eq, Structural)]
pub enum StoreError {
    /// No entry has this name.
    NotFound,
    /// The stored bytes do not decode to an entry.
    Decode(DecodeError),
    /// The entry breaks a rule and was not stored.
    Invalid(ValidationError),
    /// The backend holding the namespace failed.
    Storage,
}

/// Named blobs, each name present at most once.
pub struct CredentialStore {
    names: Vec<String>,
    blobs: Vec<Vec<u8>>,
    contents: Ghost<Map<Seq<char>, Seq<u8>>>,
}

impl View for CredentialStore {
    type V = Map<Seq<char>, Seq<u8>>;

    closed spec fn view(&self) -> Map<Seq<char>, Seq<u8>> {
        self.contents@
    }
}

/// What `get` gives for a name in a namespace.
pub open spec fn lookup(contents: Map<Seq<char>, Seq<u8>>, name: Seq<char>) -> Result<
    EntryModel,
    StoreError,
> {
    if !contents.contains_key(name) {
        Err(StoreError::NotFound)
    } else {
        match parse_entry(contents[name]) {
            Ok(m) => Ok(m),
            Err(x) => Err(StoreError::Decode(x)),
        }
    }
}

/// Create, read, overwrite and delete: after storing a valid entry under a
/// name, reading that name gives the entry back; after a second store under
/// the same name, the second entry; after deleting the name, nothing.
pub proof fn lemma_store_crud(
    contents: Map<Seq<char>, Seq<u8>>,
    name: Seq<char>,
    e1: EntryModel,
    e2: EntryModel,
)
    requires
        e1.valid(),
        e2.valid(),
    ensures
        lookup(contents.insert(name, encoding(e1)), name) == Ok::<EntryModel, StoreError>(e1),
        lookup(contents.insert(name, encoding(e1)).insert(name, encoding(e2)), name) == Ok::<
            EntryModel,
            StoreError,
        >(e2),
        lookup(contents.insert(name, encoding(e1)).remove(name), name) == Err::<
            EntryModel,
            StoreError,
        >(StoreError::NotFound),
{
    lemma_round_trip(e1);
    lemma_round_trip(e2);
}

/// Storing under one name leaves what every other name reads unchanged.
pub proof fn lemma_put_isolated(
    contents: Map<Seq<char>, Seq<u8>>,
    name: Seq<char>,
    other: Seq<char>,
    bytes: Seq<u8>,
)
    requires
        name != other,
    ensures
        lookup(contents.insert(name, bytes), other) == lookup(contents, other),
        lookup(contents.remove(name), other) == lookup(contents, other),
{
}

impl CredentialStore {
    pub closed spec fn well_formed(&self) -> bool {
        &&& self.names@.len() == self.blobs@.len()
        &&& forall|i: int, j: int|
            0 <= i < j < self.names@.len() ==> self.names@[i]@ != self.names@[j]@
        &&& forall|i: int|
            0 <= i < self.names@.len() ==> #[trigger] self.contents@.contains_key(self.names@[i]@)
                && self.contents@[self.names@[i]@] == self.blobs@[i]@
        &&& forall|k: Seq<char>|
            #[trigger] self.contents@.contains_key(k) ==> exists|i: int|
                0 <= i < self.names@.len() && self.names@[i]@ == k
    }

    /// An empty namespace.
    pub fn new() -> (r: CredentialStore)
        ensures
            r.well_formed(),
            r@ == Map::<Seq<char>, Seq<u8>>::empty(),
    {
        CredentialStore { names: Vec::new(), blobs: Vec::new(), contents: Ghost(Map::empty()) }
    }

    fn find(&self, name: &String) -> (r: Option<usize>)
        requires
            self.well_formed(),
        ensures
            match r {
                Some(i) => i < self.names@.len() && self.names@[i as int]@ == name@,
                None => !self@.contains_key(name@),
            },
    {
        let mut i: usize = 0;
        while i < self.names.len()
            invariant
                self.well_formed(),
                i <= self.names@.len(),
                forall|j: int| 0 <= j < i ==> self.names@[j]@ != name@,
            decreases self.names@.len() - i,
        {
            if self.names[i] == *name {
                return Some(i);
            }
            i = i + 1;
        }
        None
    }

    /// Holds `bytes` under `name`, replacing what was there.
    pub fn put_blob(&mut self, name: &str, bytes: Vec<u8>)
        requires
            old(self).well_formed(),
        ensures
            final(self).well_formed(),
            final(self)@ == old(self)@.insert(name@, bytes@),
    {
        let key = name.to_owned();
        let ghost new_contents = self.contents@.insert(name@, bytes@);
        match self.find(&key) {
            Some(i) => {
                let ghost old_blobs = self.blobs@;
                self.blobs.remove(i);
                self.blobs.insert(i, bytes);
                self.contents = Ghost(new_contents);
                assert(self.blobs@ =~= old_blobs.update(i as int, self.blobs@[i as int]));
                assert forall|j: int|
                    0 <= j < self.names@.len() implies #[trigger] self.contents@.contains_key(
                    self.names@[j]@,
                ) && self.contents@[self.names@[j]@] == self.blobs@[j]@ by {
                    if j != i {
                        assert(self.names@[j]@ != self.names@[i as int]@);
                    }
                }
                assert forall|k: Seq<char>| #[trigger]
                    self.contents@.contains_key(k) implies exists|j: int|
                    0 <= j < self.names@.len() && self.names@[j]@ == k by {
                    if k != name@ {
                        assert(old(self).contents@.contains_key(k));
                        let j = choose|j: int|
                            0 <= j < old(self).names@.len() && old(self).names@[j]@ == k;
                        assert(self.names@[j]@ == k);
                    } else {
                        assert(self.names@[i as int]@ == k);
                    }
                }
            },
            None => {
                let ghost old_names = self.names@;
                self.names.push(key);
                self.blobs.push(bytes);
                self.contents = Ghost(new_contents);
                assert forall|k: Seq<char>| #[trigger]
                    self.contents@.contains_key(k) implies exists|j: int|
                    0 <= j < self.names@.len() && self.names@[j]@ == k by {
                    if k != name@ {
                        assert(old(self).contents@.contains_key(k));
                        let j = choose|j: int| 0 <= j < old_names.len() && old_names[j]@ == k;
                        assert(self.names@[j] == old_names[j]);
                    } else {
                        assert(self.names@[old_names.len() as int]@ == k);
                    }
                }
            },
        }
    }

    /// Encodes `entry` and holds it under `name`, replacing what was there;
    /// an entry that breaks a rule is refused and nothing changes.
    pub fn put(&mut self, name: &str, entry: &CredentialEntry) -> (r: Result<(), StoreError>)
        requires
            old(self).well_formed(),
        ensures
            final(self).well_formed(),
            match validation_of(entry@) {
                Some(v) => r == Err::<(), StoreError>(StoreError::Invalid(v)) && final(self)@
                    == old(self)@,
                None => r is Ok && final(self)@ == old(self)@.insert(name@, encoding(entry@)),
            },
    {
        match entry.validate() {
            Ok(()) => {
                let bytes = encode(entry);
                self.put_blob(name, bytes);
                Ok(())
            },
            Err(v) => Err(StoreError::Invalid(v)),
        }
    }

    /// The entry held under `name`.
    pub fn get(&self, name: &str) -> (r: Result<CredentialEntry, StoreError>)
        requires
            self.well_formed(),
        ensures
            match lookup(self@, name@) {
                Ok(m) => r matches Ok(e) && e@ == m,
                Err(x) => r == Err::<CredentialEntry, StoreError>(x),
            },
    {
        let key = name.to_owned();
        match self.find(&key) {
            None => Err(StoreError::NotFound),
            Some(i) => match decode(self.blobs[i].as_slice()) {
                Ok(e) => Ok(e),
                Err(x) => Err(StoreError::Decode(x)),
            },
        }
    }

    /// Removes the entry held under `name`.
    pub fn delete(&mut self, name: &str) -> (r: Result<(), StoreError>)
        requires
            old(self).well_formed(),
        ensures
            final(self).well_formed(),
            old(self)@.contains_key(name@) ==> r is Ok && final(self)@ == old(self)@.remove(name@),
            !old(self)@.contains_key(name@) ==> r == Err::<(), StoreError>(StoreError::NotFound)
                && final(self)@ == old(self)@,
    {
        let key = name.to_owned();
        match self.find(&key) {
            None => Err(StoreError::NotFound),
            Some(i) => {
                let ghost old_names = self.names@;
                let ghost old_blobs = self.blobs@;
                self.names.remove(i);
                self.blobs.remove(i);
                self.contents = Ghost(self.contents@.remove(name@));
                assert forall|j: int|
                    0 <= j < self.names@.len() implies #[trigger] self.contents@.contains_key(
                    self.names@[j]@,
                ) && self.contents@[self.names@[j]@] == self.blobs@[j]@ by {
                    let oj = if j < i { j } else { j + 1 };
                    assert(self.names@[j] == old_names[oj]);
                    assert(old_names[oj]@ != old_names[i as int]@);
                    assert(old(self).contents@.contains_key(old_names[oj]@));
                    assert(self.blobs@[j] == old_blobs[oj]);
                }
                assert forall|k: Seq<char>| #[trigger]
                    self.contents@.contains_key(k) implies exists|j: int|
                    0 <= j < self.names@.len() && self.names@[j]@ == k by {
                    assert(old(self).contents@.contains_key(k));
                    let oj = choose|oj: int| 0 <= oj < old_names.len() && old_names[oj]@ == k;
                    if oj < i {
                        assert(self.names@[oj] == old_names[oj]);
                    } else {
                        assert(self.names@[oj - 1] == old_names[oj]);
                    }
                }
                Ok(())
            },
        }
    }

    /// The names of all entries, each once.
    pub fn list(&self) -> (r: Vec<String>)
        requires
            self.well_formed(),
        ensures
            forall|k: Seq<char>|
                self@.contains_key(k) <==> exists|i: int| 0 <= i < r@.len() && r@[i]@ == k,
            forall|i: int, j: int| 0 <= i < j < r@.len() ==> r@[i]@ != r@[j]@,
    {
        let mut out: Vec<String> = Vec::new();
        let mut i: usize = 0;
        while i < self.names.len()
            invariant
                self.well_formed(),
                i <= self.names@.len(),
                out@.len() == i,
                forall|j: int| 0 <= j < i ==> out@[j] == self.names@[j],
            decreases self.names@.len() - i,
        {
            out.push(self.names[i].clone());
            i = i + 1;
        }
        assert forall|k: Seq<char>|
            self@.contains_key(k) <==> exists|i: int| 0 <= i < out@.len() && out@[i]@ == k by {
            if self@.contains_key(k) {
                let j = choose|j: int| 0 <= j < self.names@.len() && self.names@[j]@ == k;
                assert(out@[j]@ == k);
            }
            if exists|i: int| 0 <= i < out@.len() && out@[i]@ == k {
                let j = choose|j: int| 0 <= j < out@.len() && out@[j]@ == k;
                assert(self@.contains_key(self.names@[j]@));
            }
        }
        out
    }
}

} // verus!
