//! Where notes are kept.
//!
//! The library reads and writes files through the [`Storage`] trait only.
//! Paths are texts relative to one root, with `/` between components.
//! [`MemoryStorage`] keeps everything in memory; a storage on a real file
//! system is for the program that uses the library to supply.

use crate::error::Error;
use crate::listmap::ListMap;
use crate::sorting::{is_sorted, lemma_text_le_antisym, sort_texts, text_le};
use crate::task::{strings, strings_of};
use crate::text::{chars_of, has_prefix, same_chars, starts_with, texts};
use vstd::prelude::*;

verus! {

/// The files of a storage: the text at each path.
pub type Files = Map<Seq<char>, Seq<char>>;

/// A place that holds files.
///
/// A storage may keep account of its files (`keeps_account`). It then
/// holds nothing but them, and answers as `files` says: a path can be
/// read where a file is stored at it, and what is read is the text of that
/// file; a path is a directory where some file lies below it, and the
/// entries of a directory are all files below it, each once, in the order
/// of their paths; a write succeeds, and is seen by every later call. Of
/// a storage that keeps no account only one thing is asked: that the
/// entries of a directory have longer paths than the directory.
pub trait Storage {
    /// The text at each path, for a storage that keeps account of its
    /// files; the account of any other storage is empty.
    open spec fn files(&self) -> Files {
        Map::empty()
    }

    /// Whether the storage keeps account of its files, so that what it
    /// hands out can be held against `files`. Nothing is known of what a
    /// storage hands out that does not.
    open spec fn keeps_account(&self) -> bool {
        false
    }

    /// The text of the file at `path`.
    fn read_to_string(&self, path: &str) -> (r: Result<String, Error>)
        ensures
            self.keeps_account() ==> (r is Ok <==> self.files().contains_key(path@)),
            self.keeps_account() && r is Ok ==> r->Ok_0@ == self.files()[path@],
    ;

    /// Stores `contents` at `path`, in place of what was there.
    fn write(&mut self, path: &str, contents: &str) -> (r: Result<(), Error>)
        ensures
            final(self).keeps_account() == old(self).keeps_account(),
            old(self).keeps_account() ==> r is Ok && final(self).files() == old(self).files().insert(
                path@,
                contents@,
            ),
    ;

    /// Whether there is something at `path`: for a storage that keeps
    /// account, whether a file is stored there.
    fn path_exists(&self, path: &str) -> (r: bool)
        ensures
            self.keeps_account() ==> r == self.files().contains_key(path@),
    ;

    /// Whether there is a directory at `path`.
    fn is_dir(&self, path: &str) -> (r: bool)
        ensures
            self.keeps_account() ==> r == is_folder(self.files(), path@),
    ;

    /// The entries of the directory at `path`, as paths relative to the
    /// root: each is longer than `path`.
    fn read_dir(&self, path: &str) -> (r: Result<Vec<String>, Error>)
        ensures
            r is Ok ==> forall|i: int|
                0 <= i < r->Ok_0@.len() ==> (#[trigger] r->Ok_0@[i])@.len() > path@.len(),
            self.keeps_account() ==> r is Ok && strings(r->Ok_0@) == listing(self.files(), path@),
    ;

    /// Makes the directory at `path`, with the directories above it.
    fn create_dir_all(&mut self, path: &str) -> (r: Result<(), Error>)
        ensures
            final(self).keeps_account() == old(self).keeps_account(),
            final(self).files() == old(self).files(),
            old(self).keeps_account() ==> r is Ok,
    ;
}

/// A storage in memory. A path is a directory where it is the beginning of
/// the path of some file; the entries of a directory are all files below
/// it, in the order of their paths.
#[derive(Debug)]
pub struct MemoryStorage {
    /// By path, the list of the one text stored there.
    files: ListMap,
}

/// Whether `key` lies below `path`: it begins with it and is longer.
pub open spec fn is_below(key: Seq<char>, path: Seq<char>) -> bool {
    starts_with(key, path) && key != path
}

/// Whether `path` is a directory of the files: some file lies below it.
pub open spec fn is_folder(files: Files, path: Seq<char>) -> bool {
    exists|k: Seq<char>| files.contains_key(k) && is_below(k, path)
}

/// Whether `entries` are the paths of the files below `path`, each once,
/// in order.
pub open spec fn lists(files: Files, path: Seq<char>, entries: Seq<Seq<char>>) -> bool {
    &&& is_sorted(entries)
    &&& entries.no_duplicates()
    &&& forall|k: Seq<char>| #[trigger]
        entries.contains(k) <==> (files.contains_key(k) && is_below(k, path))
}

/// The paths of the files below `path`, each once, in order.
pub open spec fn listing(files: Files, path: Seq<char>) -> Seq<Seq<char>> {
    choose|entries: Seq<Seq<char>>| lists(files, path, entries)
}

/// Two lists of the same texts, each in order and without a text twice,
/// are the same list.
pub proof fn lemma_sorted_lists_agree(a: Seq<Seq<char>>, b: Seq<Seq<char>>)
    requires
        is_sorted(a),
        is_sorted(b),
        a.no_duplicates(),
        b.no_duplicates(),
        forall|k: Seq<char>| a.contains(k) <==> b.contains(k),
    ensures
        a == b,
    decreases a.len(),
{
    assert(a.to_set() =~= b.to_set());
    a.unique_seq_to_set();
    b.unique_seq_to_set();
    if a.len() == 0 {
        assert(a =~= b);
    } else {
        let x = a.last();
        let y = b.last();
        assert(a.contains(x));
        assert(b.contains(y));
        let j = choose|j: int| 0 <= j < b.len() && b[j] == x;
        let i = choose|i: int| 0 <= i < a.len() && a[i] == y;
        if x != y {
            assert(text_le(x, y));
            assert(text_le(y, x));
            lemma_text_le_antisym(x, y);
        }
        let a0 = a.drop_last();
        let b0 = b.drop_last();
        assert forall|k: Seq<char>| a0.contains(k) <==> b0.contains(k) by {
            if a0.contains(k) {
                let m = choose|m: int| 0 <= m < a0.len() && a0[m] == k;
                assert(a[m] == k);
                assert(a.contains(k));
                let n = choose|n: int| 0 <= n < b.len() && b[n] == k;
                assert(n < b0.len());
                assert(b0[n] == k);
            }
            if b0.contains(k) {
                let m = choose|m: int| 0 <= m < b0.len() && b0[m] == k;
                assert(b[m] == k);
                assert(b.contains(k));
                let n = choose|n: int| 0 <= n < a.len() && a[n] == k;
                assert(n < a0.len());
                assert(a0[n] == k);
            }
        }
        lemma_sorted_lists_agree(a0, b0);
        assert(a =~= a0.push(x));
        assert(b =~= b0.push(y));
    }
}

/// The entries of a directory are its listing.
pub proof fn lemma_listing(files: Files, path: Seq<char>, entries: Seq<Seq<char>>)
    requires
        lists(files, path, entries),
    ensures
        entries == listing(files, path),
{
    let chosen = listing(files, path);
    assert(lists(files, path, chosen));
    assert forall|k: Seq<char>| entries.contains(k) <==> chosen.contains(k) by {}
    lemma_sorted_lists_agree(entries, chosen);
}

impl MemoryStorage {
    /// Every path is stored once, with one text.
    #[verifier::type_invariant]
    closed spec fn wf(&self) -> bool {
        &&& self.files.wf()
        &&& forall|k: Seq<char>| self.files@.contains_key(k) ==> (#[trigger] self.files@[k]).len() == 1
    }

    /// The storage without files.
    pub fn new() -> (r: MemoryStorage)
        ensures
            r.files() == Map::<Seq<char>, Seq<char>>::empty(),
    {
        let r = MemoryStorage { files: ListMap::new() };
        assert(r.files() =~= Map::<Seq<char>, Seq<char>>::empty());
        r
    }

    /// The number of files.
    pub fn len(&self) -> (r: usize)
        ensures
            r == self.files().dom().len(),
    {
        proof {
            use_type_invariant(self);
        }
        assert(self.files().dom() =~= self.files@.dom());
        self.files.len()
    }

    /// The paths below `path`, in order, each once.
    pub fn paths_below(&self, path: &str) -> (r: Vec<String>)
        ensures
            is_sorted(strings(r@)),
            strings(r@).no_duplicates(),
            forall|k: Seq<char>| #[trigger]
                strings(r@).contains(k) <==> (self.files().contains_key(k) && is_below(k, path@)),
            forall|i: int| 0 <= i < r@.len() ==> (#[trigger] r@[i])@.len() > path@.len(),
    {
        proof {
            use_type_invariant(self);
        }
        let prefix = chars_of(path);
        let mut found: Vec<Vec<char>> = Vec::new();
        let count = self.files.len();
        let mut i: usize = 0;
        while i < count
            invariant
                i <= count,
                count == self.files.keys().len(),
                self.files.wf(),
                prefix@ == path@,
                texts(found@).no_duplicates(),
                forall|k: Seq<char>|
                    texts(found@).contains(k) <==> (exists|m: int|
                        0 <= m < i && self.files.keys()[m] == k && is_below(k, path@)),
            decreases count - i,
        {
            let key = chars_of(self.files.key_at(i).as_str());
            if has_prefix(&key, &prefix) && !same_chars(&key, &prefix) {
                let ghost before = texts(found@);
                proof {
                    self.files.lemma_keys();
                    if before.contains(key@) {
                        let m = choose|m: int|
                            0 <= m < i && self.files.keys()[m] == key@ && is_below(key@, path@);
                        assert(self.files.keys()[m] == self.files.keys()[i as int]);
                    }
                }
                found.push(key);
                proof {
                    let after = texts(found@);
                    assert(after =~= before.push(key@));
                    assert forall|k: Seq<char>| after.contains(k) <==> (exists|m: int|
                        0 <= m < i + 1 && self.files.keys()[m] == k && is_below(k, path@)) by {
                        if after.contains(k) {
                            let p = choose|p: int| 0 <= p < after.len() && after[p] == k;
                            if p < before.len() {
                                assert(before[p] == k);
                                assert(before.contains(k));
                            } else {
                                assert(self.files.keys()[i as int] == k);
                            }
                        }
                        if exists|m: int|
                            0 <= m < i + 1 && self.files.keys()[m] == k && is_below(k, path@) {
                            let m = choose|m: int|
                                0 <= m < i + 1 && self.files.keys()[m] == k && is_below(k, path@);
                            if m < i {
                                assert(before.contains(k));
                                let p = choose|p: int| 0 <= p < before.len() && before[p] == k;
                                assert(after[p] == k);
                            } else {
                                assert(after[before.len() as int] == k);
                            }
                        }
                    }
                }
            } else {
                assert forall|k: Seq<char>| texts(found@).contains(k) <==> (exists|m: int|
                    0 <= m < i + 1 && self.files.keys()[m] == k && is_below(k, path@)) by {
                    if exists|m: int|
                        0 <= m < i + 1 && self.files.keys()[m] == k && is_below(k, path@) {
                        let m = choose|m: int|
                            0 <= m < i + 1 && self.files.keys()[m] == k && is_below(k, path@);
                        assert(m < i);
                    }
                }
            }
            i += 1;
        }
        let ghost unsorted = texts(found@);
        let sorted = sort_texts(found);
        let r = strings_of(&sorted);
        proof {
            let out = strings(r@);
            self.files.lemma_keys();
            unsorted.lemma_multiset_has_no_duplicates();
            out.lemma_multiset_has_no_duplicates_conv();
            assert forall|k: Seq<char>| out.contains(k) <==> (self.files().contains_key(k)
                && is_below(k, path@)) by {
                vstd::seq_lib::to_multiset_contains(out, k);
                vstd::seq_lib::to_multiset_contains(unsorted, k);
                if self.files().contains_key(k) && is_below(k, path@) {
                    self.files.lemma_key_index(k);
                    let m = self.files.spec_index_of(k);
                    assert(0 <= m < count && self.files.keys()[m] == k);
                }
                if unsorted.contains(k) {
                    let m = choose|m: int|
                        0 <= m < count && self.files.keys()[m] == k && is_below(k, path@);
                    assert(self.files.keys().contains(k));
                    assert(self.files.keys().to_set().contains(k));
                }
            }
            assert forall|i: int| 0 <= i < r@.len() implies (#[trigger] r@[i])@.len()
                > path@.len() by {
                assert(out[i] == r@[i]@);
                assert(out.contains(out[i]));
                let k = out[i];
                assert(is_below(k, path@));
                if k.len() == path@.len() {
                    assert(k.subrange(0, path@.len() as int) =~= k);
                }
            }
        }
        r
    }
}

impl Default for MemoryStorage {
    fn default() -> (r: MemoryStorage)
        ensures
            r.files() == Map::<Seq<char>, Seq<char>>::empty(),
    {
        MemoryStorage::new()
    }
}

impl Storage for MemoryStorage {
    closed spec fn files(&self) -> Files {
        Map::new(|k: Seq<char>| self.files@.contains_key(k), |k: Seq<char>| self.files@[k][0])
    }

    open spec fn keeps_account(&self) -> bool {
        true
    }

    /// The text stored at `path`; `NotFound` where there is none.
    fn read_to_string(&self, path: &str) -> (r: Result<String, Error>)
        ensures
            r is Ok <==> self.files().contains_key(path@),
            match r {
                Ok(_) => true,
                Err(Error::NotFound(p)) => p@ == path@,
                Err(_) => false,
            },
    {
        proof {
            use_type_invariant(self);
        }
        match self.files.get(path) {
            Some(list) => {
                assert(strings(list@)[0] == list@[0]@);
                Ok(list[0].clone())
            },
            None => Err(Error::NotFound(path.to_owned())),
        }
    }

    /// Stores `contents` at `path`. This never fails.
    fn write(&mut self, path: &str, contents: &str) -> (r: Result<(), Error>)
        ensures
            r is Ok,
    {
        proof {
            use_type_invariant(&*self);
        }
        let mut list: Vec<String> = Vec::new();
        list.push(contents.to_owned());
        assert(strings(list@) =~= seq![contents@]);
        let mut files = ListMap::new();
        core::mem::swap(&mut self.files, &mut files);
        files.insert(path, list);
        core::mem::swap(&mut self.files, &mut files);
        assert(self.files() =~= old(self).files().insert(path@, contents@));
        Ok(())
    }

    /// Whether a file is stored at `path`.
    fn path_exists(&self, path: &str) -> (r: bool)
        ensures
            r == self.files().contains_key(path@),
    {
        self.files.contains_key(path)
    }

    /// Whether some file lies below `path`.
    fn is_dir(&self, path: &str) -> (r: bool)
        ensures
            r == is_folder(self.files(), path@),
    {
        let below = self.paths_below(path);
        proof {
            if below.len() > 0 {
                let first = strings(below@)[0];
                assert(strings(below@).contains(first));
                assert(self.files().contains_key(first) && is_below(first, path@));
            }
            if exists|k: Seq<char>| self.files().contains_key(k) && is_below(k, path@) {
                let k = choose|k: Seq<char>| self.files().contains_key(k) && is_below(k, path@);
                assert(strings(below@).contains(k));
                assert(below.len() > 0);
            }
        }
        below.len() > 0
    }

    /// All files below `path`, in the order of their paths. This never
    /// fails.
    fn read_dir(&self, path: &str) -> (r: Result<Vec<String>, Error>)
        ensures
            r is Ok,
            lists(self.files(), path@, strings(r->Ok_0@)),
    {
        let below = self.paths_below(path);
        proof {
            lemma_listing(self.files(), path@, strings(below@));
        }
        Ok(below)
    }

    /// Does nothing: directories are not stored.
    fn create_dir_all(&mut self, path: &str) -> (r: Result<(), Error>)
        ensures
            r is Ok,
    {
        Ok(())
    }
}

} // verus!
