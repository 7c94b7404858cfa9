//! The document cache: an in-memory table from page parameters to page
//! content, and its persistent form, one shard file per crate.

use crate::assoc::{assoc_map, distinct_keys, has_key};
use crate::assoc::{lemma_assoc_map_dom, lemma_assoc_map_len, lemma_assoc_map_push};
use crate::assoc::{lemma_assoc_map_update, lemma_assoc_map_value};
use crate::docs_parser::{DocContent, DocsRsParams, ParamsView};
use crate::shard::{directory_table, is_partition_of, load_table, shard_file_views, shard_files};
use crate::shard::{CacheDirectory, ShardFile};
use crate::text::{chars_of, contains_pattern, find, first_occurrence, occurs_at, piece};
use crate::text::{is_first_occurrence_from, lemma_first_occurrence_is};
use std::path::PathBuf;
use vstd::prelude::*;
use vstd::string::StringExecFns;

verus! {

/// The separator between version and path in a normalized key.
pub open spec fn separator() -> Seq<char> {
    seq![':', ':']
}

/// The normalized key of a page inside its crate's shard: version, separator,
/// path.
pub open spec fn normalized(key: ParamsView) -> Seq<char> {
    key.version + separator() + key.path
}

/// The page parameters that a normalized key of crate `crate_name` stands
/// for: the key is cut at the first separator; there are none where the key
/// holds no separator.
pub open spec fn denormalized(crate_name: Seq<char>, normalized_key: Seq<char>) -> Option<
    ParamsView,
> {
    match first_occurrence(normalized_key, separator()) {
        Some(at) => Some(
            ParamsView {
                crate_name,
                version: normalized_key.subrange(0, at),
                path: normalized_key.subrange(at + 2, normalized_key.len() as int),
            },
        ),
        None => None,
    }
}

/// The error text for a normalized key without separator.
pub open spec fn invalid_key_message(normalized_key: Seq<char>) -> Seq<char> {
    "Invalid normalized key format: "@ + normalized_key
}

/// The keys that come back from their normalized form: the version holds no
/// separator and does not end in a colon.
pub open spec fn survives_normalization(key: ParamsView) -> bool {
    &&& !contains_pattern(key.version, separator())
    &&& (key.version.len() > 0 ==> key.version.last() != ':')
}

/// Cutting a normalized key gives the key back exactly when its version
/// holds no separator and does not end in a colon.
pub proof fn lemma_denormalize_inverts_normalize(key: ParamsView)
    ensures
        denormalized(key.crate_name, normalized(key)) == Some(key) <==> survives_normalization(
            key,
        ),
{
    let sep = separator();
    let text = normalized(key);
    let v = key.version.len() as int;
    assert(text.subrange(v, v + 2) =~= sep);
    assert(occurs_at(text, sep, v));
    if survives_normalization(key) {
        assert forall|earlier: int| 0 <= earlier < v implies !occurs_at(text, sep, earlier) by {
            if occurs_at(text, sep, earlier) {
                assert(text.subrange(earlier, earlier + 2)[0] == ':');
                assert(text.subrange(earlier, earlier + 2)[1] == ':');
                if earlier + 2 <= v {
                    assert(key.version.subrange(earlier, earlier + 2) =~= sep);
                    assert(occurs_at(key.version, sep, earlier));
                } else {
                    assert(key.version.last() == text[earlier]);
                }
            }
        }
        lemma_first_occurrence_is(text, sep, 0, v);
        assert(text.subrange(0, v) =~= key.version);
        assert(text.subrange(v + 2, text.len() as int) =~= key.path);
    } else {
        if denormalized(key.crate_name, text) == Some(key) {
            let at = first_occurrence(text, sep)->0;
            assert(is_first_occurrence_from(text, sep, 0, at));
            assert(text.subrange(0, at) == key.version);
            assert(at == v);
            if contains_pattern(key.version, sep) {
                let inner = choose|i: int| occurs_at(key.version, sep, i);
                assert(text.subrange(inner, inner + 2) =~= key.version.subrange(inner, inner + 2));
                assert(occurs_at(text, sep, inner));
            } else {
                assert(text.subrange(v - 1, v + 1) =~= sep);
                assert(occurs_at(text, sep, v - 1));
            }
        }
    }
}

/// A key that was cut from a normalized key has that normalized key.
pub proof fn lemma_normalize_inverts_denormalize(crate_name: Seq<char>, normalized_key: Seq<char>)
    requires
        denormalized(crate_name, normalized_key) is Some,
    ensures
        normalized(denormalized(crate_name, normalized_key)->0) == normalized_key,
        denormalized(crate_name, normalized_key)->0.crate_name == crate_name,
{
    let sep = separator();
    let at = first_occurrence(normalized_key, sep)->0;
    assert(is_first_occurrence_from(normalized_key, sep, 0, at));
    assert(normalized_key.subrange(at, at + 2) == sep);
    assert(normalized_key =~= normalized_key.subrange(0, at) + sep + normalized_key.subrange(
        at + 2,
        normalized_key.len() as int,
    ));
}

/// The key under which a page is stored inside its crate's shard file.
pub fn normalize_key(params: &DocsRsParams) -> (key: String)
    ensures
        key@ == normalized(params@),
{
    let mut key = params.version.clone();
    key.append("::");
    key.append(params.path.as_str());
    proof {
        reveal_strlit("::");
        assert("::"@ =~= separator());
    }
    key
}

/// Recovers the page parameters from a crate name and a normalized key.
///
/// The key is cut at its first separator. A key without separator is
/// refused, with a message that holds the key.
pub fn denormalize_key(crate_name: &str, normalized_key: &str) -> (cut: Result<
    DocsRsParams,
    String,
>)
    ensures
        match cut {
            Ok(params) => denormalized(crate_name@, normalized_key@) == Some(params@),
            Err(message) => denormalized(crate_name@, normalized_key@) is None && message@
                == invalid_key_message(normalized_key@),
        },
{
    let text = chars_of(normalized_key);
    let mut pattern: Vec<char> = Vec::new();
    pattern.push(':');
    pattern.push(':');
    assert(pattern@ =~= separator());
    match find(&text, &pattern) {
        Some(at) => {
            assert(is_first_occurrence_from(text@, pattern@, 0, at as int));
            assert(pattern@.len() == 2);
            assert(at + 2 <= text.len());
            Ok(
                DocsRsParams {
                    crate_name: crate_name.to_owned(),
                    version: piece(normalized_key, 0, at),
                    path: piece(normalized_key, at + 2, text.len()),
                },
            )
        },
        None => {
            let mut message = "Invalid normalized key format: ".to_owned();
            message.append(normalized_key);
            Err(message)
        },
    }
}

/// What a table holds for a key: the content stored under it, if there is
/// any.
pub open spec fn lookup(table: Map<ParamsView, Seq<char>>, key: ParamsView) -> Option<Seq<char>> {
    if table.contains_key(key) {
        Some(table[key])
    } else {
        None
    }
}

/// One entry of a table: a key with its content.
#[derive(Debug)]
struct Slot {
    key: DocsRsParams,
    value: DocContent,
}

/// The table of the cache: a finite map from page parameters to page
/// content. A key stands in it at most once.
#[derive(Debug)]
pub struct CacheTable {
    slots: Vec<Slot>,
}

/// The entries that a sequence of slots holds, as pairs of views.
spec fn pairs_of(slots: Seq<Slot>) -> Seq<(ParamsView, Seq<char>)> {
    Seq::new(slots.len(), |i: int| (slots[i].key@, slots[i].value@))
}

impl View for CacheTable {
    type V = Map<ParamsView, Seq<char>>;

    closed spec fn view(&self) -> Map<ParamsView, Seq<char>> {
        assoc_map(self.pairs())
    }
}

impl CacheTable {
    /// The entries in the order in which the table holds them.
    pub closed spec fn pairs(&self) -> Seq<(ParamsView, Seq<char>)> {
        pairs_of(self.slots@)
    }

    #[verifier::type_invariant]
    spec fn keys_are_distinct(&self) -> bool {
        distinct_keys(self.pairs())
    }

    /// A table is the finite map that its entries stand for.
    pub proof fn lemma_view(&self)
        ensures
            self@ == assoc_map(self.pairs()),
            self@.dom().finite(),
    {
        lemma_assoc_map_dom(self.pairs());
    }

    /// The empty table.
    pub fn new() -> (table: Self)
        ensures
            table@ == Map::<ParamsView, Seq<char>>::empty(),
    {
        let table = CacheTable { slots: Vec::new() };
        assert(table.pairs() =~= Seq::empty());
        table
    }

    /// The number of entries.
    pub fn len(&self) -> (count: usize)
        ensures
            self@.dom().finite(),
            count == self@.dom().len(),
            count == self.pairs().len(),
            distinct_keys(self.pairs()),
    {
        proof {
            use_type_invariant(self);
            lemma_assoc_map_len(self.pairs());
        }
        self.slots.len()
    }

    /// Tells whether the table holds no entry.
    pub fn is_empty(&self) -> (empty: bool)
        ensures
            empty == (self@ == Map::<ParamsView, Seq<char>>::empty()),
    {
        proof {
            use_type_invariant(self);
            lemma_assoc_map_len(self.pairs());
            if self.slots@.len() == 0 {
                assert(self.pairs() =~= Seq::empty());
            }
        }
        self.slots.len() == 0
    }

    /// The entry at place `at` in the order of the table, if there is one.
    pub fn entry(&self, at: usize) -> (slot: Option<(&DocsRsParams, &DocContent)>)
        ensures
            match slot {
                Some((key, value)) => at < self.pairs().len() && self.pairs()[at as int] == (
                    key@,
                    value@,
                ),
                None => at >= self.pairs().len(),
            },
    {
        if at < self.slots.len() {
            Some((&self.slots[at].key, &self.slots[at].value))
        } else {
            None
        }
    }

    /// The place of `key` among the slots, if it has one.
    fn position(&self, key: &DocsRsParams) -> (place: Option<usize>)
        ensures
            match place {
                Some(at) => at < self.slots@.len() && self.pairs()[at as int].0 == key@,
                None => !has_key(self.pairs(), key@),
            },
    {
        let mut at: usize = 0;
        while at < self.slots.len()
            invariant
                at <= self.slots@.len(),
                forall|i: int| 0 <= i < at ==> self.pairs()[i].0 != key@,
            decreases self.slots@.len() - at,
        {
            if self.slots[at].key == *key {
                return Some(at);
            }
            at += 1;
        }
        None
    }

    /// The content stored under `key`, if there is any.
    pub fn get(&self, key: &DocsRsParams) -> (found: Option<DocContent>)
        ensures
            match found {
                Some(content) => lookup(self@, key@) == Some(content@),
                None => lookup(self@, key@) is None,
            },
    {
        proof {
            use_type_invariant(self);
            lemma_assoc_map_dom(self.pairs());
        }
        match self.position(key) {
            Some(at) => {
                proof {
                    lemma_assoc_map_value(self.pairs(), at as int);
                }
                Some(self.slots[at].value.clone())
            },
            None => None,
        }
    }

    /// Tells whether the table holds an entry for `key`.
    pub fn contains_key(&self, key: &DocsRsParams) -> (present: bool)
        ensures
            present == self@.contains_key(key@),
    {
        proof {
            use_type_invariant(self);
            lemma_assoc_map_dom(self.pairs());
        }
        match self.position(key) {
            Some(at) => {
                proof {
                    lemma_assoc_map_value(self.pairs(), at as int);
                }
                true
            },
            None => false,
        }
    }

    /// Stores `value` under `key`, in place of what was stored there.
    pub fn insert(&mut self, key: DocsRsParams, value: DocContent)
        ensures
            final(self)@ == old(self)@.insert(key@, value@),
    {
        proof {
            use_type_invariant(&*self);
        }
        let place = self.position(&key);
        let ghost before = self.pairs();
        let mut slots: Vec<Slot> = Vec::new();
        std::mem::swap(&mut slots, &mut self.slots);
        match place {
            Some(at) => {
                slots.set(at, Slot { key, value });
                proof {
                    lemma_assoc_map_update(before, at as int, value@);
                    assert(pairs_of(slots@) =~= before.update(at as int, (key@, value@)));
                }
                self.slots = slots;
            },
            None => {
                slots.push(Slot { key, value });
                proof {
                    lemma_assoc_map_push(before, key@, value@);
                    assert(pairs_of(slots@) =~= before.push((key@, value@)));
                }
                self.slots = slots;
            },
        }
    }

    /// Removes every entry.
    pub fn clear(&mut self)
        ensures
            final(self)@ == Map::<ParamsView, Seq<char>>::empty(),
    {
        self.slots = Vec::new();
        assert(self.pairs() =~= Seq::empty());
    }
}

/// A cache of documentation pages.
///
/// A cache holds a table from page parameters to page content. Lookups copy
/// the content out; `insert` and `clear` are the only ways to change single
/// entries, and `load` replaces the table as a whole.
pub trait Cache {
    /// The table that the cache holds.
    spec fn table(&self) -> Map<ParamsView, Seq<char>>;

    /// A copy of the content stored under `key`, if there is any.
    fn get(&self, key: &DocsRsParams) -> (found: Option<DocContent>)
        ensures
            match found {
                Some(content) => lookup(self.table(), key@) == Some(content@),
                None => lookup(self.table(), key@) is None,
            },
    ;

    /// Stores `value` under `key`, in place of what was stored there.
    fn insert(&mut self, key: DocsRsParams, value: DocContent)
        ensures
            final(self).table() == old(self).table().insert(key@, value@),
    ;

    /// Tells whether content is stored under `key`.
    fn contains_key(&self, key: &DocsRsParams) -> (present: bool)
        ensures
            present == self.table().contains_key(key@),
    ;

    /// Removes every entry.
    fn clear(&mut self)
        ensures
            final(self).table() == Map::<ParamsView, Seq<char>>::empty(),
    ;

    /// The persistent form of the table as it is now: the shard files to
    /// write into the cache directory, one for each crate that has a page.
    fn save(&self) -> (written: Vec<ShardFile>)
        ensures
            is_partition_of(shard_file_views(written@), self.table()),
    ;

    /// Replaces the table by what was found at the place of the cache
    /// directory. Nothing of the old table is kept.
    fn load(&mut self, directory: &CacheDirectory)
        ensures
            final(self).table() == directory_table(*directory),
    ;
}

/// `std::path::PathBuf`, which the library carries through and never looks
/// into.
#[verifier::external_type_specification]
#[verifier::external_body]
pub struct ExPathBuf(PathBuf);

/// The cache of the service: a table in memory, and the directory in which
/// its persistent form is kept.
#[derive(Debug)]
pub struct InMemoryCache {
    table: CacheTable,
    cache_dir: PathBuf,
}

impl InMemoryCache {
    /// The directory that the cache was made for.
    pub closed spec fn directory(&self) -> PathBuf {
        self.cache_dir
    }

    /// An empty cache whose persistent form is kept in `cache_dir`.
    pub fn new(cache_dir: PathBuf) -> (cache: Self)
        ensures
            cache.table() == Map::<ParamsView, Seq<char>>::empty(),
            cache.directory() == cache_dir,
    {
        InMemoryCache { table: CacheTable::new(), cache_dir }
    }

    /// The directory in which the persistent form is kept.
    pub fn cache_dir(&self) -> (dir: &PathBuf)
        ensures
            *dir == self.directory(),
    {
        &self.cache_dir
    }

    /// The number of entries.
    pub fn len(&self) -> (count: usize)
        ensures
            self.table().dom().finite(),
            count == self.table().dom().len(),
    {
        self.table.len()
    }

    /// Tells whether the cache holds no entry.
    pub fn is_empty(&self) -> (empty: bool)
        ensures
            empty == (self.table() == Map::<ParamsView, Seq<char>>::empty()),
    {
        self.table.is_empty()
    }
}

impl Cache for InMemoryCache {
    closed spec fn table(&self) -> Map<ParamsView, Seq<char>> {
        self.table@
    }

    fn get(&self, key: &DocsRsParams) -> (found: Option<DocContent>) {
        self.table.get(key)
    }

    fn insert(&mut self, key: DocsRsParams, value: DocContent)
        ensures
            final(self).directory() == old(self).directory(),
    {
        self.table.insert(key, value);
    }

    fn contains_key(&self, key: &DocsRsParams) -> (present: bool) {
        self.table.contains_key(key)
    }

    fn clear(&mut self)
        ensures
            final(self).directory() == old(self).directory(),
    {
        self.table.clear();
    }

    fn save(&self) -> (written: Vec<ShardFile>) {
        shard_files(&self.table)
    }

    fn load(&mut self, directory: &CacheDirectory)
        ensures
            final(self).directory() == old(self).directory(),
    {
        match directory {
            CacheDirectory::Shards(shards) => {
                self.table = load_table(shards);
            },
            _ => {
                self.table = CacheTable::new();
            },
        }
    }
}

/// After `clear`, a lookup finds nothing, whatever the key: the cleared
/// table is the empty one, and the empty table holds no key.
pub proof fn lemma_cleared_table_holds_nothing(key: ParamsView)
    ensures
        lookup(Map::<ParamsView, Seq<char>>::empty(), key) is None,
{
}

} // verus!
