//! The persistent form of the cache: one shard file per crate, named after
//! the crate, that holds the crate's pages under their normalized keys.
//!
//! Nothing here touches a file system. Saving yields the shard files to
//! write and, from a listing of the cache directory, the stale files to
//! remove; loading picks the shard files out of a listing and builds the
//! table from what was read from them.

use crate::assoc::{assoc_map, distinct_keys, has_key};
use crate::assoc::{lemma_assoc_map_dom, lemma_assoc_map_push, lemma_assoc_map_update};
use crate::cache::{denormalize_key, denormalized, normalize_key, normalized, CacheTable};
use crate::cache::{lemma_denormalize_inverts_normalize, lemma_normalize_inverts_denormalize};
use crate::cache::survives_normalization;
use crate::docs_parser::{DocContent, ParamsView};
use crate::text::{chars_of, piece, string_views};
use vstd::prelude::*;
use vstd::string::StringExecFns;

verus! {

/// The ending of a shard file's name.
pub open spec fn shard_suffix() -> Seq<char> {
    seq!['.', 'j', 's', 'o', 'n']
}

/// The name of the shard file of a crate.
pub open spec fn shard_file_name(crate_name: Seq<char>) -> Seq<char> {
    crate_name + shard_suffix()
}

/// The crate whose shard a file of this name holds: the name without its
/// ending `.json`, where something stands before that ending. A name of any
/// other form is no shard file's name.
pub open spec fn shard_crate_name(file_name: Seq<char>) -> Option<Seq<char>> {
    let stem_len = file_name.len() - shard_suffix().len();
    if stem_len > 0 && file_name.subrange(stem_len, file_name.len() as int) == shard_suffix() {
        Some(file_name.subrange(0, stem_len))
    } else {
        None
    }
}

/// The shard file of a crate is read back as that crate's, unless the
/// crate's name is empty: then its file is no shard file.
pub proof fn lemma_shard_name_gives_crate(crate_name: Seq<char>)
    ensures
        shard_crate_name(shard_file_name(crate_name)) == if crate_name.len() > 0 {
            Some(crate_name)
        } else {
            None
        },
{
    let name = shard_file_name(crate_name);
    let stem_len = name.len() - shard_suffix().len();
    assert(stem_len == crate_name.len());
    assert(name.subrange(stem_len, name.len() as int) =~= shard_suffix());
    assert(name.subrange(0, stem_len) =~= crate_name);
}

/// A shard file's name is the name of its crate's shard file.
pub proof fn lemma_crate_gives_shard_name(file_name: Seq<char>)
    requires
        shard_crate_name(file_name) is Some,
    ensures
        shard_file_name(shard_crate_name(file_name)->0) == file_name,
{
    let stem_len = file_name.len() - shard_suffix().len();
    assert(file_name =~= file_name.subrange(0, stem_len) + file_name.subrange(
        stem_len,
        file_name.len() as int,
    ));
}

/// The name under which the shard of crate `crate_name` is written.
pub fn file_name_of(crate_name: &str) -> (file_name: String)
    ensures
        file_name@ == shard_file_name(crate_name@),
{
    let mut file_name = crate_name.to_owned();
    file_name.append(".json");
    proof {
        reveal_strlit(".json");
        assert(".json"@ =~= shard_suffix());
    }
    file_name
}

/// The crate whose shard the file `file_name` holds, if it is a shard file.
pub fn crate_name_of(file_name: &str) -> (crate_name: Option<String>)
    ensures
        match crate_name {
            Some(name) => shard_crate_name(file_name@) == Some(name@),
            None => shard_crate_name(file_name@) is None,
        },
{
    let name = chars_of(file_name);
    if name.len() <= 5 {
        return None;
    }
    let stem_len = name.len() - 5;
    let ends_as_shard = name[stem_len] == '.' && name[stem_len + 1] == 'j' && name[stem_len + 2]
        == 's' && name[stem_len + 3] == 'o' && name[stem_len + 4] == 'n';
    if ends_as_shard {
        assert(name@.subrange(stem_len as int, name@.len() as int) =~= shard_suffix());
        Some(piece(file_name, 0, stem_len))
    } else {
        assert(name@.subrange(stem_len as int, name@.len() as int) != shard_suffix()) by {
            let tail = name@.subrange(stem_len as int, name@.len() as int);
            if tail == shard_suffix() {
                assert(tail[0] == '.' && tail[1] == 'j' && tail[2] == 's' && tail[3] == 'o'
                    && tail[4] == 'n');
            }
        }
        None
    }
}

/// One entry of a shard: a page's normalized key and its content.
#[derive(Debug)]
pub struct ShardEntry {
    /// The normalized key: version, separator, path.
    pub key: String,
    /// The content of the page.
    pub content: DocContent,
}

impl View for ShardEntry {
    type V = (Seq<char>, Seq<char>);

    open spec fn view(&self) -> (Seq<char>, Seq<char>) {
        (self.key@, self.content@)
    }
}

/// The entries of a shard as pairs of normalized key and content.
pub open spec fn entry_pairs(entries: Seq<ShardEntry>) -> Seq<(Seq<char>, Seq<char>)> {
    entries.map_values(|entry: ShardEntry| entry@)
}

/// Mathematical value of a [`ShardFile`].
pub struct ShardFileView {
    pub file_name: Seq<char>,
    pub crate_name: Seq<char>,
    pub entries: Seq<(Seq<char>, Seq<char>)>,
}

/// A shard file to write: the pages of one crate under their normalized
/// keys, and the name of the file that holds them.
#[derive(Debug)]
pub struct ShardFile {
    /// The name of the file inside the cache directory.
    pub file_name: String,
    /// The crate whose pages the file holds.
    pub crate_name: String,
    /// The pages. No normalized key stands twice.
    pub entries: Vec<ShardEntry>,
}

impl View for ShardFile {
    type V = ShardFileView;

    open spec fn view(&self) -> ShardFileView {
        ShardFileView {
            file_name: self.file_name@,
            crate_name: self.crate_name@,
            entries: entry_pairs(self.entries@),
        }
    }
}

/// The shard files of a save as mathematical values.
pub open spec fn shard_file_views(files: Seq<ShardFile>) -> Seq<ShardFileView> {
    files.map_values(|file: ShardFile| file@)
}

/// Mathematical value of a [`DirItem`].
pub struct DirItemView {
    pub name: Seq<char>,
    pub is_file: bool,
}

/// One entry of a listing of the cache directory.
#[derive(Debug)]
pub struct DirItem {
    /// The entry's name inside the directory.
    pub name: String,
    /// Whether the entry is a regular file.
    pub is_file: bool,
}

impl View for DirItem {
    type V = DirItemView;

    open spec fn view(&self) -> DirItemView {
        DirItemView { name: self.name@, is_file: self.is_file }
    }
}

/// A listing of the cache directory as mathematical values.
pub open spec fn listing_view(listing: Seq<DirItem>) -> Seq<DirItemView> {
    listing.map_values(|item: DirItem| item@)
}

/// Mathematical value of a [`ShardSource`].
pub struct ShardSourceView {
    pub file_name: Seq<char>,
    pub crate_name: Seq<char>,
}

/// A shard file to read: its name, and the crate whose pages it holds.
#[derive(Debug)]
pub struct ShardSource {
    /// The name of the file inside the cache directory.
    pub file_name: String,
    /// The crate that the file's name gives.
    pub crate_name: String,
}

impl View for ShardSource {
    type V = ShardSourceView;

    open spec fn view(&self) -> ShardSourceView {
        ShardSourceView { file_name: self.file_name@, crate_name: self.crate_name@ }
    }
}

/// The shard file that a directory entry is, if it is one: a regular file
/// with a shard file's name.
pub open spec fn source_of(item: DirItemView) -> Option<ShardSourceView> {
    if item.is_file && shard_crate_name(item.name) is Some {
        Some(ShardSourceView { file_name: item.name, crate_name: shard_crate_name(item.name)->0 })
    } else {
        None
    }
}

/// `name` is the file name of one of the shard files `written`.
pub open spec fn is_written(written: Seq<ShardFileView>, name: Seq<char>) -> bool {
    exists|i: int| 0 <= i < written.len() && written[i].file_name == name
}

/// The name of a directory entry, if the entry is stale after a save that
/// wrote `written`: a regular file with a shard file's name that the save did
/// not write.
pub open spec fn stale_name(written: Seq<ShardFileView>, item: DirItemView) -> Option<Seq<char>> {
    if item.is_file && shard_crate_name(item.name) is Some && !is_written(written, item.name) {
        Some(item.name)
    } else {
        None
    }
}

/// The views of a sequence of shard sources.
pub open spec fn source_views(sources: Seq<ShardSource>) -> Seq<ShardSourceView> {
    sources.map_values(|source: ShardSource| source@)
}

/// Picks the shard files out of a listing of the cache directory.
///
/// The result holds, in the order of the listing, every regular file whose
/// name is a shard file's name, with the crate that the name gives. Entries
/// that are no regular files, and files of other names, are left out.
pub fn shard_sources(listing: &Vec<DirItem>) -> (sources: Vec<ShardSource>)
    ensures
        source_views(sources@) == listing_view(listing@).filter_map(
            |item: DirItemView| source_of(item),
        ),
{
    let ghost items = listing_view(listing@);
    let ghost pick = |item: DirItemView| source_of(item);
    let mut sources: Vec<ShardSource> = Vec::new();
    let mut at: usize = 0;
    assert(items.take(0) =~= Seq::empty());
    while at < listing.len()
        invariant
            at <= listing.len(),
            items == listing_view(listing@),
            pick == |item: DirItemView| source_of(item),
            source_views(sources@) =~= items.take(at as int).filter_map(pick),
        decreases listing.len() - at,
    {
        let item = &listing[at];
        proof {
            items.lemma_filter_map_take_succ(pick, at as int);
        }
        if item.is_file {
            match crate_name_of(item.name.as_str()) {
                Some(crate_name) => {
                    sources.push(ShardSource { file_name: item.name.clone(), crate_name });
                },
                None => {},
            }
        }
        at += 1;
    }
    assert(items.take(at as int) =~= items);
    sources
}

/// Tells whether `name` is the file name of one of the shard files `written`.
fn was_written(written: &Vec<ShardFile>, name: &String) -> (found: bool)
    ensures
        found == is_written(shard_file_views(written@), name@),
{
    let mut at: usize = 0;
    while at < written.len()
        invariant
            at <= written.len(),
            forall|i: int| 0 <= i < at ==> shard_file_views(written@)[i].file_name != name@,
        decreases written.len() - at,
    {
        if written[at].file_name == *name {
            assert(shard_file_views(written@)[at as int].file_name == name@);
            return true;
        }
        at += 1;
    }
    false
}

/// Finds the stale shard files after a save.
///
/// The result holds, in the order of the listing, the name of every regular
/// file with a shard file's name that is not the file name of one of the
/// shard files `written`. Files of other names are never in it.
pub fn stale_files(listing: &Vec<DirItem>, written: &Vec<ShardFile>) -> (stale: Vec<String>)
    ensures
        string_views(stale@) == listing_view(listing@).filter_map(
            |item: DirItemView| stale_name(shard_file_views(written@), item),
        ),
{
    let ghost items = listing_view(listing@);
    let ghost pick = |item: DirItemView| stale_name(shard_file_views(written@), item);
    let mut stale: Vec<String> = Vec::new();
    let mut at: usize = 0;
    assert(items.take(0) =~= Seq::empty());
    while at < listing.len()
        invariant
            at <= listing.len(),
            items == listing_view(listing@),
            pick == |item: DirItemView| stale_name(shard_file_views(written@), item),
            string_views(stale@) =~= items.take(at as int).filter_map(pick),
        decreases listing.len() - at,
    {
        let item = &listing[at];
        proof {
            items.lemma_filter_map_take_succ(pick, at as int);
        }
        if item.is_file {
            match crate_name_of(item.name.as_str()) {
                Some(_) => {
                    if !was_written(written, &item.name) {
                        stale.push(item.name.clone());
                    }
                },
                None => {},
            }
        }
        at += 1;
    }
    assert(items.take(at as int) =~= items);
    stale
}

/// `shard` holds what `table` holds for the crate `crate_name`: the
/// normalized key of each of the crate's pages, and under each normalized
/// key the content of a page of the crate with that normalized key.
pub open spec fn is_shard_of(
    shard: Map<Seq<char>, Seq<char>>,
    table: Map<ParamsView, Seq<char>>,
    crate_name: Seq<char>,
) -> bool {
    &&& forall|key: ParamsView| #[trigger]
        table.contains_key(key) && key.crate_name == crate_name ==> shard.contains_key(
            normalized(key),
        )
    &&& forall|normalized_key: Seq<char>| #[trigger]
        shard.contains_key(normalized_key) ==> exists|key: ParamsView|
            stands_for(table, crate_name, key, normalized_key, shard[normalized_key])
}

/// `key` is a page of crate `crate_name` in `table` with the given
/// normalized key and content.
pub open spec fn stands_for(
    table: Map<ParamsView, Seq<char>>,
    crate_name: Seq<char>,
    key: ParamsView,
    normalized_key: Seq<char>,
    content: Seq<char>,
) -> bool {
    &&& table.contains_key(key)
    &&& key.crate_name == crate_name
    &&& normalized(key) == normalized_key
    &&& table[key] == content
}

/// `file` is the shard file of its crate for `table`: it is named after the
/// crate, holds at least one page and no normalized key twice, and holds what
/// the table holds for the crate.
pub open spec fn is_shard_file_of(file: ShardFileView, table: Map<ParamsView, Seq<char>>) -> bool {
    &&& file.file_name == shard_file_name(file.crate_name)
    &&& file.entries.len() > 0
    &&& distinct_keys(file.entries)
    &&& is_shard_of(assoc_map(file.entries), table, file.crate_name)
}

/// One of `files` is the shard file of crate `crate_name`.
pub open spec fn has_shard_file(files: Seq<ShardFileView>, crate_name: Seq<char>) -> bool {
    exists|i: int| 0 <= i < files.len() && files[i].crate_name == crate_name
}

/// `files` is the persistent form of `table`: one shard file for each crate
/// that has a page in the table, and no other.
pub open spec fn is_partition_of(
    files: Seq<ShardFileView>,
    table: Map<ParamsView, Seq<char>>,
) -> bool {
    &&& forall|i: int| 0 <= i < files.len() ==> is_shard_file_of(#[trigger] files[i], table)
    &&& forall|i: int, j: int|
        0 <= i < j < files.len() ==> (#[trigger] files[i]).crate_name != (
        #[trigger] files[j]).crate_name
    &&& forall|key: ParamsView| #[trigger]
        table.contains_key(key) ==> has_shard_file(files, key.crate_name)
}

/// Adding a new page to a table adds it to the shard of its crate and leaves
/// the shards of the other crates as they are.
proof fn lemma_shard_step(
    shard: Map<Seq<char>, Seq<char>>,
    table: Map<ParamsView, Seq<char>>,
    crate_name: Seq<char>,
    key: ParamsView,
    content: Seq<char>,
)
    requires
        is_shard_of(shard, table, crate_name),
        !table.contains_key(key),
    ensures
        key.crate_name == crate_name ==> is_shard_of(
            shard.insert(normalized(key), content),
            table.insert(key, content),
            crate_name,
        ),
        key.crate_name != crate_name ==> is_shard_of(
            shard,
            table.insert(key, content),
            crate_name,
        ),
{
    let grown = table.insert(key, content);
    if key.crate_name == crate_name {
        let more = shard.insert(normalized(key), content);
        assert forall|normalized_key: Seq<char>| #[trigger]
            more.contains_key(normalized_key) implies exists|page: ParamsView|
            stands_for(grown, crate_name, page, normalized_key, more[normalized_key]) by {
            if normalized_key == normalized(key) {
                assert(stands_for(grown, crate_name, key, normalized_key, more[normalized_key]));
            } else {
                assert(shard.contains_key(normalized_key));
                let page = choose|page: ParamsView|
                    stands_for(table, crate_name, page, normalized_key, shard[normalized_key]);
                assert(stands_for(grown, crate_name, page, normalized_key, more[normalized_key]));
            }
        }
        assert forall|page: ParamsView| #[trigger]
            grown.contains_key(page) && page.crate_name == crate_name implies more.contains_key(
            normalized(page),
        ) by {
            if page != key {
                assert(table.contains_key(page));
            }
        }
    } else {
        assert forall|normalized_key: Seq<char>| #[trigger]
            shard.contains_key(normalized_key) implies exists|page: ParamsView|
            stands_for(grown, crate_name, page, normalized_key, shard[normalized_key]) by {
            let page = choose|page: ParamsView|
                stands_for(table, crate_name, page, normalized_key, shard[normalized_key]);
            assert(stands_for(grown, crate_name, page, normalized_key, shard[normalized_key]));
        }
        assert forall|page: ParamsView| #[trigger]
            grown.contains_key(page) && page.crate_name == crate_name implies shard.contains_key(
            normalized(page),
        ) by {
            assert(table.contains_key(page));
        }
    }
}

/// After a save, the shard file of a crate that has no page in the table
/// is stale.
///
/// `written` is the persistent form of `table`, and `item` is a regular file
/// of the cache directory whose name is that of the shard file of a crate
/// without a page in the table. Then the save did not write the file, and
/// the file is among those to remove.
pub proof fn lemma_orphan_shard_is_stale(
    table: Map<ParamsView, Seq<char>>,
    written: Seq<ShardFileView>,
    item: DirItemView,
)
    requires
        is_partition_of(written, table),
        item.is_file,
        shard_crate_name(item.name) is Some,
        forall|key: ParamsView| #[trigger]
            table.contains_key(key) ==> key.crate_name != shard_crate_name(item.name)->0,
    ensures
        stale_name(written, item) == Some(item.name),
{
    if is_written(written, item.name) {
        let i = choose|i: int| 0 <= i < written.len() && written[i].file_name == item.name;
        let file = written[i];
        assert(is_shard_file_of(file, table));
        lemma_shard_name_gives_crate(file.crate_name);
        lemma_assoc_map_dom(file.entries);
        assert(has_key(file.entries, file.entries[0].0));
        let held = assoc_map(file.entries);
        assert(held.contains_key(file.entries[0].0));
        let page = choose|page: ParamsView|
            stands_for(
                table,
                file.crate_name,
                page,
                file.entries[0].0,
                held[file.entries[0].0],
            );
        assert(table.contains_key(page));
    }
}

/// A save never lists a file that it wrote among the stale files.
pub proof fn lemma_written_is_not_stale(written: Seq<ShardFileView>, at: int, item: DirItemView)
    requires
        0 <= at < written.len(),
        item.name == written[at].file_name,
    ensures
        stale_name(written, item) is None,
{
}

/// The place of the entry with key `key`, if there is one.
fn entry_position(entries: &Vec<ShardEntry>, key: &String) -> (place: Option<usize>)
    ensures
        match place {
            Some(at) => at < entries@.len() && entry_pairs(entries@)[at as int].0 == key@,
            None => !has_key(entry_pairs(entries@), key@),
        },
{
    let mut at: usize = 0;
    while at < entries.len()
        invariant
            at <= entries@.len(),
            forall|i: int| 0 <= i < at ==> entry_pairs(entries@)[i].0 != key@,
        decreases entries@.len() - at,
    {
        if entries[at].key == *key {
            return Some(at);
        }
        at += 1;
    }
    None
}

/// Puts `content` under `key` into the entries of a shard, in place of what
/// stood there.
fn put_entry(entries: &mut Vec<ShardEntry>, key: String, content: DocContent)
    requires
        distinct_keys(entry_pairs(old(entries)@)),
    ensures
        distinct_keys(entry_pairs(final(entries)@)),
        assoc_map(entry_pairs(final(entries)@)) == assoc_map(entry_pairs(old(entries)@)).insert(
            key@,
            content@,
        ),
{
    let ghost before = entry_pairs(entries@);
    match entry_position(entries, &key) {
        Some(at) => {
            entries.set(at, ShardEntry { key, content });
            proof {
                lemma_assoc_map_update(before, at as int, content@);
                assert(entry_pairs(entries@) =~= before.update(at as int, (key@, content@)));
            }
        },
        None => {
            entries.push(ShardEntry { key, content });
            proof {
                lemma_assoc_map_push(before, key@, content@);
                assert(entry_pairs(entries@) =~= before.push((key@, content@)));
            }
        },
    }
}

/// The shard file of crate `crate_name` for `table`.
fn shard_of(table: &CacheTable, crate_name: &String) -> (file: ShardFile)
    ensures
        file@.crate_name == crate_name@,
        file@.file_name == shard_file_name(crate_name@),
        distinct_keys(file@.entries),
        is_shard_of(assoc_map(file@.entries), table@, crate_name@),
{
    let count = table.len();
    let ghost pairs = table.pairs();
    let mut entries: Vec<ShardEntry> = Vec::new();
    let mut at: usize = 0;
    assert(pairs.take(0) =~= Seq::empty());
    assert(entry_pairs(entries@) =~= Seq::empty());
    while at < count
        invariant
            at <= count,
            count == pairs.len(),
            pairs == table.pairs(),
            distinct_keys(pairs),
            distinct_keys(entry_pairs(entries@)),
            is_shard_of(
                assoc_map(entry_pairs(entries@)),
                assoc_map(pairs.take(at as int)),
                crate_name@,
            ),
        decreases count - at,
    {
        let ghost seen = pairs.take(at as int);
        proof {
            assert(pairs.take(at + 1) =~= seen.push(pairs[at as int]));
            lemma_assoc_map_push(seen, pairs[at as int].0, pairs[at as int].1);
            lemma_assoc_map_dom(seen);
            if has_key(seen, pairs[at as int].0) {
                let i = choose|i: int| 0 <= i < seen.len() && seen[i].0 == pairs[at as int].0;
                assert(pairs[i].0 == pairs[at as int].0);
            }
            lemma_shard_step(
                assoc_map(entry_pairs(entries@)),
                assoc_map(seen),
                crate_name@,
                pairs[at as int].0,
                pairs[at as int].1,
            );
        }
        match table.entry(at) {
            Some((key, value)) => {
                if key.crate_name == *crate_name {
                    put_entry(&mut entries, normalize_key(key), value.clone());
                }
            },
            None => {},
        }
        at += 1;
    }
    proof {
        assert(pairs.take(at as int) =~= pairs);
        table.lemma_view();
    }
    ShardFile { file_name: file_name_of(crate_name.as_str()), crate_name: crate_name.clone(), entries }
}

/// `name` is one of `names`.
spec fn is_listed(names: Seq<String>, name: Seq<char>) -> bool {
    exists|i: int| 0 <= i < names.len() && names[i]@ == name
}

/// `name` is the crate of one of the pages `pairs`.
spec fn has_page_of(pairs: Seq<(ParamsView, Seq<char>)>, name: Seq<char>) -> bool {
    exists|i: int| 0 <= i < pairs.len() && pairs[i].0.crate_name == name
}

/// Tells whether `name` is one of `names`.
fn is_among(names: &Vec<String>, name: &String) -> (found: bool)
    ensures
        found == is_listed(names@, name@),
{
    let mut at: usize = 0;
    while at < names.len()
        invariant
            at <= names.len(),
            forall|i: int| 0 <= i < at ==> names@[i]@ != name@,
        decreases names.len() - at,
    {
        if names[at] == *name {
            return true;
        }
        at += 1;
    }
    false
}

/// The crates that have a page in `table`, each once, in the order in which
/// the table first holds a page of them.
fn crate_names(table: &CacheTable) -> (names: Vec<String>)
    ensures
        forall|i: int, j: int| 0 <= i < j < names@.len() ==> names@[i]@ != names@[j]@,
        forall|i: int| 0 <= i < names@.len() ==> has_page_of(table.pairs(), #[trigger] names@[i]@),
        forall|i: int|
            0 <= i < table.pairs().len() ==> is_listed(
                names@,
                (#[trigger] table.pairs()[i]).0.crate_name,
            ),
{
    let count = table.len();
    let ghost pairs = table.pairs();
    let mut names: Vec<String> = Vec::new();
    let mut at: usize = 0;
    while at < count
        invariant
            at <= count,
            count == pairs.len(),
            pairs == table.pairs(),
            forall|i: int, j: int| 0 <= i < j < names@.len() ==> names@[i]@ != names@[j]@,
            forall|i: int| 0 <= i < names@.len() ==> has_page_of(pairs, #[trigger] names@[i]@),
            forall|i: int| 0 <= i < at ==> is_listed(names@, (#[trigger] pairs[i]).0.crate_name),
        decreases count - at,
    {
        match table.entry(at) {
            Some((key, _)) => {
                if !is_among(&names, &key.crate_name) {
                    let ghost before = names@;
                    names.push(key.crate_name.clone());
                    proof {
                        assert(names@[names@.len() - 1]@ == pairs[at as int].0.crate_name);
                        assert forall|i: int| 0 <= i < at implies is_listed(
                            names@,
                            (#[trigger] pairs[i]).0.crate_name,
                        ) by {
                            let w = choose|w: int|
                                0 <= w < before.len() && before[w]@ == pairs[i].0.crate_name;
                            assert(names@[w]@ == pairs[i].0.crate_name);
                        }
                    }
                }
            },
            None => {},
        }
        at += 1;
    }
    names
}

/// The persistent form of a table: one shard file for each crate that has a
/// page in it.
///
/// Each shard file is named after its crate and holds the crate's pages
/// under their normalized keys, each normalized key once. Where two pages of
/// a crate have the same normalized key, the file holds the content of one
/// of them under it.
pub fn shard_files(table: &CacheTable) -> (files: Vec<ShardFile>)
    ensures
        is_partition_of(shard_file_views(files@), table@),
{
    let names = crate_names(table);
    let ghost pairs = table.pairs();
    let mut files: Vec<ShardFile> = Vec::new();
    let mut at: usize = 0;
    proof {
        table.lemma_view();
        lemma_assoc_map_dom(pairs);
    }
    while at < names.len()
        invariant
            at <= names@.len(),
            pairs == table.pairs(),
            table@ == assoc_map(pairs),
            forall|key: ParamsView| #[trigger] table@.contains_key(key) <==> has_key(pairs, key),
            files@.len() == at,
            forall|i: int, j: int| 0 <= i < j < names@.len() ==> names@[i]@ != names@[j]@,
            forall|i: int| 0 <= i < names@.len() ==> has_page_of(pairs, #[trigger] names@[i]@),
            forall|i: int| 0 <= i < at ==> (#[trigger] shard_file_views(files@)[i]).crate_name
                == names@[i]@,
            forall|i: int| 0 <= i < at ==> is_shard_file_of(
                #[trigger] shard_file_views(files@)[i],
                table@,
            ),
        decreases names@.len() - at,
    {
        let file = shard_of(table, &names[at]);
        proof {
            let name = names@[at as int]@;
            assert(has_page_of(pairs, name));
            let p = choose|p: int| 0 <= p < pairs.len() && pairs[p].0.crate_name == name;
            assert(has_key(pairs, pairs[p].0));
            assert(table@.contains_key(pairs[p].0));
            assert(assoc_map(file@.entries).contains_key(normalized(pairs[p].0)));
            lemma_assoc_map_dom(file@.entries);
            assert(has_key(file@.entries, normalized(pairs[p].0)));
        }
        let ghost before = shard_file_views(files@);
        files.push(file);
        proof {
            assert(shard_file_views(files@) =~= before.push(file@));
        }
        at += 1;
    }
    proof {
        let views = shard_file_views(files@);
        assert forall|key: ParamsView| #[trigger] table@.contains_key(key) implies has_shard_file(
            views,
            key.crate_name,
        ) by {
            let p = choose|p: int| 0 <= p < pairs.len() && pairs[p].0 == key;
            assert(is_listed(names@, pairs[p].0.crate_name));
            let i = choose|i: int| 0 <= i < names@.len() && names@[i]@ == key.crate_name;
            assert(views[i].crate_name == key.crate_name);
        }
    }
    files
}

/// `c` has the Unicode property `White_Space`.
pub uninterp spec fn is_white_space(c: char) -> bool;

/// `char::is_whitespace` of std tells whether a character has the Unicode
/// property `White_Space`; the contract names that property and claims no
/// more.
pub assume_specification[ char::is_whitespace ](c: char) -> (white: bool)
    ensures
        white == is_white_space(c),
;

/// `text` is empty or holds white space only.
pub open spec fn is_blank_text(text: Seq<char>) -> bool {
    forall|i: int| 0 <= i < text.len() ==> is_white_space(#[trigger] text[i])
}

/// Tells whether the text of a shard file is empty or holds white space
/// only. Such a file holds no entries and is not handed to a parser.
pub fn is_blank(text: &str) -> (blank: bool)
    ensures
        blank == is_blank_text(text@),
{
    for c in it: text.chars()
        invariant
            it.seq() == text@,
            forall|i: int| 0 <= i < it.index() ==> is_white_space(#[trigger] text@[i]),
    {
        if !c.is_whitespace() {
            assert(!is_white_space(text@[it.index()]));
            return false;
        }
    }
    true
}

/// What reading a shard file gave.
#[derive(Debug)]
pub enum ShardContent {
    /// The file could not be read.
    Unreadable,
    /// The file is empty or holds white space only.
    Blank,
    /// The file does not hold a shard's entries.
    Malformed,
    /// The entries that the file holds.
    Entries(Vec<ShardEntry>),
}

impl View for ShardContent {
    type V = Option<Seq<(Seq<char>, Seq<char>)>>;

    open spec fn view(&self) -> Option<Seq<(Seq<char>, Seq<char>)>> {
        match self {
            ShardContent::Entries(entries) => Some(entry_pairs(entries@)),
            _ => None,
        }
    }
}

/// Mathematical value of a [`LoadedShard`]: the crate, and the entries that
/// were read from its file, if any were.
pub struct LoadedShardView {
    pub crate_name: Seq<char>,
    pub entries: Option<Seq<(Seq<char>, Seq<char>)>>,
}

/// A shard file as it was read: the crate that its name gives, and what
/// reading it gave.
#[derive(Debug)]
pub struct LoadedShard {
    /// The crate that the file's name gives.
    pub crate_name: String,
    /// What reading the file gave.
    pub content: ShardContent,
}

impl View for LoadedShard {
    type V = LoadedShardView;

    open spec fn view(&self) -> LoadedShardView {
        LoadedShardView { crate_name: self.crate_name@, entries: self.content@ }
    }
}

/// The shards of a load as mathematical values.
pub open spec fn loaded_shard_views(shards: Seq<LoadedShard>) -> Seq<LoadedShardView> {
    shards.map_values(|shard: LoadedShard| shard@)
}

/// The table after the entries of one shard file of crate `crate_name` were
/// put into `table`, in order: each entry is stored under the page that its
/// normalized key stands for, and an entry whose normalized key stands for
/// none is left out.
pub open spec fn ingest(
    table: Map<ParamsView, Seq<char>>,
    crate_name: Seq<char>,
    entries: Seq<(Seq<char>, Seq<char>)>,
) -> Map<ParamsView, Seq<char>>
    decreases entries.len(),
{
    if entries.len() == 0 {
        table
    } else {
        let before = ingest(table, crate_name, entries.drop_last());
        match denormalized(crate_name, entries.last().0) {
            Some(key) => before.insert(key, entries.last().1),
            None => before,
        }
    }
}

/// The table that a load builds from the shard files it read, in order. A
/// file from which no entries were read adds nothing.
pub open spec fn loaded_table(shards: Seq<LoadedShardView>) -> Map<ParamsView, Seq<char>>
    decreases shards.len(),
{
    if shards.len() == 0 {
        Map::empty()
    } else {
        let before = loaded_table(shards.drop_last());
        match shards.last().entries {
            Some(entries) => ingest(before, shards.last().crate_name, entries),
            None => before,
        }
    }
}

/// What a load found at the place of the cache directory.
#[derive(Debug)]
pub enum CacheDirectory {
    /// Nothing is there.
    Missing,
    /// Something is there that is no directory.
    NotADirectory,
    /// A directory, with the shard files that were read from it.
    Shards(Vec<LoadedShard>),
}

/// The table that a load builds from what it found: the empty table where
/// the directory is missing or is no directory, and else the table of the
/// shard files that were read.
pub open spec fn directory_table(directory: CacheDirectory) -> Map<ParamsView, Seq<char>> {
    match directory {
        CacheDirectory::Shards(shards) => loaded_table(loaded_shard_views(shards@)),
        _ => Map::empty(),
    }
}

/// Builds the table from the shard files that were read.
///
/// The files are taken in order, and the entries of each in order. An entry
/// is stored under the page that the file's crate and the entry's normalized
/// key stand for, in place of what an earlier entry stored there. An entry
/// whose normalized key holds no separator is left out, and so is a file
/// that was unreadable, blank or malformed.
pub fn load_table(shards: &Vec<LoadedShard>) -> (table: CacheTable)
    ensures
        table@ == loaded_table(loaded_shard_views(shards@)),
{
    let ghost views = loaded_shard_views(shards@);
    let mut table = CacheTable::new();
    let mut at: usize = 0;
    assert(views.take(0) =~= Seq::empty());
    while at < shards.len()
        invariant
            at <= shards.len(),
            views == loaded_shard_views(shards@),
            table@ == loaded_table(views.take(at as int)),
        decreases shards.len() - at,
    {
        let shard = &shards[at];
        let ghost before = table@;
        proof {
            assert(views.take(at + 1).drop_last() =~= views.take(at as int));
            assert(views.take(at + 1).last() == shard@);
        }
        match &shard.content {
            ShardContent::Entries(entries) => {
                let ghost pairs = entry_pairs(entries@);
                let mut next: usize = 0;
                assert(pairs.take(0) =~= Seq::empty());
                while next < entries.len()
                    invariant
                        next <= entries.len(),
                        pairs == entry_pairs(entries@),
                        table@ == ingest(before, shard.crate_name@, pairs.take(next as int)),
                    decreases entries.len() - next,
                {
                    let entry = &entries[next];
                    proof {
                        assert(pairs.take(next + 1).drop_last() =~= pairs.take(next as int));
                        assert(pairs.take(next + 1).last() == entry@);
                    }
                    match denormalize_key(shard.crate_name.as_str(), entry.key.as_str()) {
                        Ok(params) => {
                            table.insert(params, entry.content.clone());
                        },
                        Err(_) => {},
                    }
                    next += 1;
                }
                assert(pairs.take(next as int) =~= pairs);
            },
            _ => {},
        }
        at += 1;
    }
    assert(views.take(at as int) =~= views);
    table
}

/// The entries `shard` of a shard file of crate `crate_name` hold the page
/// `key`: the page is of that crate, its normalized key stands in the
/// entries, and the normalized key stands for the page.
pub open spec fn lands(
    crate_name: Seq<char>,
    shard: Map<Seq<char>, Seq<char>>,
    key: ParamsView,
) -> bool {
    &&& key.crate_name == crate_name
    &&& shard.contains_key(normalized(key))
    &&& denormalized(crate_name, normalized(key)) == Some(key)
}

/// Putting the entries of a shard file into a table stores each page that
/// the entries hold, with the content that the entries give for its
/// normalized key, and leaves the other pages of the table as they are.
pub proof fn lemma_ingest(
    table: Map<ParamsView, Seq<char>>,
    crate_name: Seq<char>,
    entries: Seq<(Seq<char>, Seq<char>)>,
)
    ensures
        forall|key: ParamsView| #[trigger]
            ingest(table, crate_name, entries).contains_key(key) <==> table.contains_key(key)
                || lands(crate_name, assoc_map(entries), key),
        forall|key: ParamsView| #[trigger]
            lands(crate_name, assoc_map(entries), key) ==> ingest(table, crate_name, entries)[key]
                == assoc_map(entries)[normalized(key)],
        forall|key: ParamsView|
            table.contains_key(key) && !lands(crate_name, assoc_map(entries), key) ==> (
            #[trigger] ingest(table, crate_name, entries)[key]) == table[key],
    decreases entries.len(),
{
    if entries.len() > 0 {
        let front = entries.drop_last();
        let last = entries.last();
        lemma_ingest(table, crate_name, front);
        let before = ingest(table, crate_name, front);
        let after = ingest(table, crate_name, entries);
        let shard = assoc_map(entries);
        assert(shard == assoc_map(front).insert(last.0, last.1));
        assert forall|key: ParamsView|
            lands(crate_name, shard, key) && normalized(key) == last.0 implies denormalized(
            crate_name,
            last.0,
        ) == Some(key) by {}
        if denormalized(crate_name, last.0) is Some {
            lemma_normalize_inverts_denormalize(crate_name, last.0);
        }
        assert forall|key: ParamsView| #[trigger]
            after.contains_key(key) <==> table.contains_key(key) || lands(
                crate_name,
                shard,
                key,
            ) by {
            if lands(crate_name, shard, key) && normalized(key) != last.0 {
                assert(lands(crate_name, assoc_map(front), key));
            }
            if lands(crate_name, assoc_map(front), key) {
                assert(lands(crate_name, shard, key));
            }
        }
        assert forall|key: ParamsView| #[trigger]
            lands(crate_name, shard, key) implies after[key] == shard[normalized(key)] by {
            if normalized(key) != last.0 {
                assert(lands(crate_name, assoc_map(front), key));
            }
        }
        assert forall|key: ParamsView|
            table.contains_key(key) && !lands(crate_name, shard, key) implies (
        #[trigger] after[key]) == table[key] by {
            if lands(crate_name, assoc_map(front), key) {
                assert(lands(crate_name, shard, key));
            }
        }
    }
}

/// The shard `shard` of a load was read from the shard file `file` of a
/// save: the file's name gives the shard's crate, and the entries that were
/// read give each normalized key the content that the file's entries give
/// it.
pub open spec fn is_read_from(shard: LoadedShardView, file: ShardFileView) -> bool {
    &&& shard_crate_name(file.file_name) == Some(shard.crate_name)
    &&& shard.entries is Some
    &&& assoc_map(shard.entries->0) == assoc_map(file.entries)
}

/// One of the shard files `written` is what `shard` was read from.
#[verifier::opaque]
pub open spec fn has_origin(written: Seq<ShardFileView>, shard: LoadedShardView) -> bool {
    exists|j: int| 0 <= j < written.len() && is_read_from(shard, written[j])
}

/// One of the shards `loaded` was read from `file`.
#[verifier::opaque]
pub open spec fn has_reading(loaded: Seq<LoadedShardView>, file: ShardFileView) -> bool {
    exists|i: int| 0 <= i < loaded.len() && is_read_from(loaded[i], file)
}

/// `loaded` is what a load reads from a directory whose shard files are the
/// files `written` of a save: each shard was read from one of the files, and
/// each of the files whose name is a shard file's name was read.
pub open spec fn reads_back(loaded: Seq<LoadedShardView>, written: Seq<ShardFileView>) -> bool {
    &&& forall|i: int| 0 <= i < loaded.len() ==> has_origin(written, #[trigger] loaded[i])
    &&& forall|j: int|
        0 <= j < written.len() && shard_crate_name((#[trigger] written[j]).file_name) is Some
            ==> has_reading(loaded, written[j])
}

/// Every page of `table` comes back from the persistent form: its crate's
/// name is not empty, and its version holds no separator and does not end in
/// a colon.
pub open spec fn is_restorable(table: Map<ParamsView, Seq<char>>) -> bool {
    forall|key: ParamsView| #[trigger]
        table.contains_key(key) ==> key.crate_name.len() > 0 && survives_normalization(key)
}

/// What a load has built after some of the shards that were read back is a
/// part of the saved table.
proof fn lemma_loaded_part_of_saved(
    table: Map<ParamsView, Seq<char>>,
    written: Seq<ShardFileView>,
    loaded: Seq<LoadedShardView>,
)
    requires
        is_partition_of(written, table),
        is_restorable(table),
        forall|i: int| 0 <= i < loaded.len() ==> has_origin(written, #[trigger] loaded[i]),
    ensures
        loaded_table(loaded).submap_of(table),
    decreases loaded.len(),
{
    if loaded.len() > 0 {
        let front = loaded.drop_last();
        let shard = loaded.last();
        assert forall|i: int| 0 <= i < front.len() implies has_origin(
            written,
            #[trigger] front[i],
        ) by {
            assert(front[i] == loaded[i]);
        }
        lemma_loaded_part_of_saved(table, written, front);
        let before = loaded_table(front);
        assert(has_origin(written, loaded[loaded.len() - 1]));
        reveal(has_origin);
        let j = choose|j: int| 0 <= j < written.len() && is_read_from(shard, written[j]);
        let file = written[j];
        assert(is_shard_file_of(file, table));
        lemma_shard_name_gives_crate(file.crate_name);
        let entries = shard.entries->0;
        let held = assoc_map(entries);
        lemma_ingest(before, shard.crate_name, entries);
        let after = loaded_table(loaded);
        assert(after == ingest(before, shard.crate_name, entries));
        assert forall|key: ParamsView| #[trigger] after.contains_key(key) implies table.contains_key(
            key,
        ) && after[key] == table[key] by {
            if lands(shard.crate_name, held, key) {
                let page = choose|page: ParamsView|
                    stands_for(
                        table,
                        file.crate_name,
                        page,
                        normalized(key),
                        held[normalized(key)],
                    );
                lemma_denormalize_inverts_normalize(page);
                assert(page == key);
            }
        }
    }
}

/// A page that one of the shards holds stands in the loaded table.
proof fn lemma_loaded_holds_landed(loaded: Seq<LoadedShardView>, at: int, key: ParamsView)
    requires
        0 <= at < loaded.len(),
        loaded[at].entries is Some,
        lands(loaded[at].crate_name, assoc_map(loaded[at].entries->0), key),
    ensures
        loaded_table(loaded).contains_key(key),
    decreases loaded.len(),
{
    let front = loaded.drop_last();
    let shard = loaded.last();
    if at < loaded.len() - 1 {
        assert(front[at] == loaded[at]);
        lemma_loaded_holds_landed(front, at, key);
    }
    if shard.entries is Some {
        lemma_ingest(loaded_table(front), shard.crate_name, shard.entries->0);
    }
}

/// A shard that was read from the shard file of a page's crate holds the
/// page.
proof fn lemma_read_shard_holds_page(
    table: Map<ParamsView, Seq<char>>,
    file: ShardFileView,
    shard: LoadedShardView,
    key: ParamsView,
)
    requires
        is_shard_file_of(file, table),
        is_read_from(shard, file),
        table.contains_key(key),
        key.crate_name == file.crate_name,
        key.crate_name.len() > 0,
        survives_normalization(key),
    ensures
        shard.entries is Some,
        lands(shard.crate_name, assoc_map(shard.entries->0), key),
{
    lemma_shard_name_gives_crate(file.crate_name);
    lemma_denormalize_inverts_normalize(key);
    assert(assoc_map(file.entries).contains_key(normalized(key)));
}

/// One of the shards that were read back holds a given page of the saved
/// table.
proof fn lemma_saved_page_was_read(
    table: Map<ParamsView, Seq<char>>,
    written: Seq<ShardFileView>,
    loaded: Seq<LoadedShardView>,
    key: ParamsView,
) -> (at: int)
    requires
        is_partition_of(written, table),
        reads_back(loaded, written),
        table.contains_key(key),
        key.crate_name.len() > 0,
        survives_normalization(key),
    ensures
        0 <= at < loaded.len(),
        loaded[at].entries is Some,
        lands(loaded[at].crate_name, assoc_map(loaded[at].entries->0), key),
{
    assert(has_shard_file(written, key.crate_name));
    let j = choose|j: int| 0 <= j < written.len() && written[j].crate_name == key.crate_name;
    let file = written[j];
    assert(is_shard_file_of(file, table));
    assert(shard_crate_name(file.file_name) is Some) by {
        lemma_shard_name_gives_crate(file.crate_name);
    }
    assert(has_reading(loaded, file));
    reveal(has_reading);
    let i = choose|i: int| 0 <= i < loaded.len() && is_read_from(loaded[i], file);
    lemma_read_shard_holds_page(table, file, loaded[i], key);
    i
}

/// Loading what a save wrote gives the saved table back.
///
/// `written` is the persistent form of `table`, and `loaded` is what a load
/// reads from a directory whose shard files are exactly those files. Then
/// the load builds `table`, provided that every page of the table has a
/// crate name that is not empty and a version that holds no separator and
/// does not end in a colon.
pub proof fn lemma_load_restores_saved(
    table: Map<ParamsView, Seq<char>>,
    written: Seq<ShardFileView>,
    loaded: Seq<LoadedShardView>,
)
    requires
        is_partition_of(written, table),
        reads_back(loaded, written),
        is_restorable(table),
    ensures
        loaded_table(loaded) == table,
{
    lemma_loaded_part_of_saved(table, written, loaded);
    let rebuilt = loaded_table(loaded);
    assert forall|key: ParamsView| #[trigger] table.contains_key(key) implies rebuilt.contains_key(
        key,
    ) by {
        let at = lemma_saved_page_was_read(table, written, loaded, key);
        lemma_loaded_holds_landed(loaded, at, key);
    }
    assert(rebuilt =~= table);
}

} // verus!
