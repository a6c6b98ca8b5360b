//! The article cache: the compiled documents of a run, each under its key.
//!
//! The cache is loaded from the persisted records, hands documents out, takes
//! newly compiled ones in, and turns documents back into records. A document
//! that cannot be loaded takes every document that depends on it out of the
//! cache with it.

use vstd::prelude::*;
use vstd::string::*;
use crate::article::{
    cause_message, error_views, recorded, restorable, restored, unresolved, Cause, CauseView,
    Document, DocumentView, ErrorRecord, ErrorRecordView, LoadFailure, LoadFailureView,
    PersistedRecord, RecordStore, RecordView, ReferenceData, ReferenceDataView,
};
use crate::cascade::{
    failing, failing_within, fails, fails_within, hit, lemma_fails_later, lemma_fails_next,
    lemma_fails_settled,
};
use crate::paths::{join, joined, replace_extension, with_extension};
use crate::registry::{key_texts, Key, KeyRegistry};
use crate::table::Table;
use crate::text::{
    clone_list, lemma_take_next_to_set, list_contains, merge, same_text, texts,
};

verus! {

/// Where the output of the document at `path` is written: under the output
/// root, with the extension of rendered output.
pub open spec fn html_path(root: Seq<char>, path: Seq<char>) -> Seq<char> {
    with_extension(joined(root, path), "html"@)
}

/// Where the record of the document at `path` is persisted: under the
/// records root, with the extension of a record added.
pub open spec fn json_path(root: Seq<char>, path: Seq<char>) -> Seq<char> {
    joined(root, path + ".json"@)
}

/// The compiled documents, each under its key, and the two roots on disk:
/// one for the persisted records, one for rendered output.
pub struct ArticleCache {
    cache_article_path: String,
    cache_html_path: String,
    cache: Table<Document>,
}

impl View for ArticleCache {
    type V = Map<Seq<char>, DocumentView>;

    closed spec fn view(&self) -> Map<Seq<char>, DocumentView> {
        self.cache@
    }
}

/// One entry of `write_cache`: the document to persist, and what the
/// compiler attaches to it.
#[derive(Debug, Clone, PartialEq, Eq)]
pub struct CacheUpdate {
    pub key: Key,
    pub data: ReferenceData,
}

pub struct CacheUpdateView {
    pub key: Seq<char>,
    pub data: ReferenceDataView,
}

impl View for CacheUpdate {
    type V = CacheUpdateView;

    open spec fn view(&self) -> CacheUpdateView {
        CacheUpdateView { key: self.key@, data: self.data@ }
    }
}

/// The views of a list of updates.
pub open spec fn update_views(updates: Seq<CacheUpdate>) -> Seq<CacheUpdateView> {
    updates.map_values(|u: CacheUpdate| u@)
}

/// What became of one entry of `write_cache`.
#[derive(Debug, Clone, PartialEq, Eq)]
pub enum WriteOutcome {
    /// The document left the cache; `record` is to be written to `file`.
    Write { file: String, record: PersistedRecord },
    /// The cache holds no document under `key`: nothing was done.
    Missing { key: Key },
}

pub enum WriteOutcomeView {
    Write { file: Seq<char>, record: RecordView },
    Missing { key: Seq<char> },
}

impl View for WriteOutcome {
    type V = WriteOutcomeView;

    open spec fn view(&self) -> WriteOutcomeView {
        match self {
            WriteOutcome::Write { file, record } => WriteOutcomeView::Write {
                file: file@,
                record: record@,
            },
            WriteOutcome::Missing { key } => WriteOutcomeView::Missing { key: key@ },
        }
    }
}

/// The views of a list of outcomes.
pub open spec fn outcome_views(outcomes: Seq<WriteOutcome>) -> Seq<WriteOutcomeView> {
    outcomes.map_values(|o: WriteOutcome| o@)
}

/// The cache and the outcomes after `write_cache` has gone through
/// `updates`, one after the other.
pub struct Written {
    pub cache: Map<Seq<char>, DocumentView>,
    pub outcomes: Seq<WriteOutcomeView>,
}

/// What `write_cache` does: an update whose document is in the cache takes
/// it out and yields its record; one whose document is missing changes
/// nothing and is marked.
pub open spec fn written(
    cache: Map<Seq<char>, DocumentView>,
    article_root: Seq<char>,
    updates: Seq<CacheUpdateView>,
) -> Written
    decreases updates.len(),
{
    if updates.len() == 0 {
        Written { cache: cache, outcomes: Seq::empty() }
    } else {
        let before = written(cache, article_root, updates.drop_last());
        let update = updates.last();
        if before.cache.contains_key(update.key) {
            let document = before.cache[update.key];
            Written {
                cache: before.cache.remove(update.key),
                outcomes: before.outcomes.push(
                    WriteOutcomeView::Write {
                        file: json_path(article_root, document.path),
                        record: recorded(document, update.data),
                    },
                ),
            }
        } else {
            Written {
                cache: before.cache,
                outcomes: before.outcomes.push(WriteOutcomeView::Missing { key: update.key }),
            }
        }
    }
}

/// What `get` finds under `key`.
pub open spec fn looked_up(cache: Map<Seq<char>, DocumentView>, key: Seq<char>) -> Option<
    DocumentView,
> {
    if cache.contains_key(key) {
        Some(cache[key])
    } else {
        None
    }
}

/// What `drain` leaves in the cache: nothing.
pub open spec fn drained() -> Map<Seq<char>, DocumentView> {
    Map::empty()
}

/// The views of a list of keyed documents.
pub open spec fn entry_views(entries: Seq<(Key, Document)>) -> Seq<(Seq<char>, DocumentView)> {
    entries.map_values(|e: (Key, Document)| (e.0@, e.1@))
}

/// The cache after `entries` have been put into it, one after the other.
pub open spec fn refreshed(
    cache: Map<Seq<char>, DocumentView>,
    entries: Seq<(Seq<char>, DocumentView)>,
) -> Map<Seq<char>, DocumentView>
    decreases entries.len(),
{
    if entries.len() == 0 {
        cache
    } else {
        refreshed(cache, entries.drop_last()).insert(entries.last().0, entries.last().1)
    }
}

/// Each document of the list comes with the key of its own path.
pub open spec fn own_keys(entries: Seq<(Seq<char>, DocumentView)>) -> bool {
    forall|i: int| 0 <= i < entries.len() ==> (#[trigger] entries[i]).0 == entries[i].1.path
}

/// The keys of a list of keyed documents.
pub open spec fn entry_keys(entries: Seq<(Seq<char>, DocumentView)>) -> Set<Seq<char>> {
    Set::new(|k: Seq<char>| exists|i: int| 0 <= i < entries.len() && (#[trigger] entries[i]).0 == k)
}

/// What `load` and the cascade hand back: the failed documents, and the
/// record files that are to be deleted on disk.
#[derive(Debug, Clone, PartialEq, Eq)]
pub struct LoadOutcome {
    pub errors: Vec<ErrorRecord>,
    pub removed: Vec<String>,
}

/// The keys of a list of error records.
pub open spec fn error_keys(errors: Seq<ErrorRecordView>) -> Seq<Seq<char>> {
    errors.map_values(|e: ErrorRecordView| e.key)
}

/// The keys that documents can depend on no more: those that `errors`
/// reports, and those of the sources that are gone.
pub open spec fn lost(errors: Seq<ErrorRecordView>, gone: Seq<Seq<char>>) -> Set<Seq<char>> {
    error_keys(errors).to_set().union(gone.to_set())
}

/// The keys of a list of failures.
pub open spec fn failure_keys(failed: Seq<LoadFailure>) -> Seq<Seq<char>> {
    failed.map_values(|f: LoadFailure| f.key@)
}

/// Each failed key with the references that its record could not resolve.
pub open spec fn failure_map(failed: Seq<LoadFailure>) -> Map<Seq<char>, Seq<Seq<char>>> {
    Map::new(
        |k: Seq<char>| failure_keys(failed).contains(k),
        |k: Seq<char>| failed[failure_keys(failed).index_of(k)]@.missing,
    )
}

/// The error that `key` is reported with: a key of `direct` with the
/// references that it could not resolve, every other key as a document
/// whose dependency failed.
pub open spec fn error_of(
    html_root: Seq<char>,
    direct: Map<Seq<char>, Seq<Seq<char>>>,
    key: Seq<char>,
) -> ErrorRecordView {
    ErrorRecordView {
        key: key,
        output: html_path(html_root, key),
        cause: if direct.contains_key(key) {
            CauseView::Unresolved(direct[key])
        } else {
            CauseView::BrokenDependency
        },
    }
}

/// `errors` reports the keys of `bad`, each once and each with its error,
/// and `removed` names the record file of each, in the same order.
pub open spec fn reports(
    errors: Seq<ErrorRecordView>,
    removed: Seq<Seq<char>>,
    bad: Set<Seq<char>>,
    direct: Map<Seq<char>, Seq<Seq<char>>>,
    html_root: Seq<char>,
    article_root: Seq<char>,
) -> bool {
    &&& error_keys(errors).no_duplicates()
    &&& forall|k: Seq<char>| bad.contains(k) <==> error_keys(errors).contains(k)
    &&& forall|i: int|
        0 <= i < errors.len() ==> #[trigger] errors[i] == error_of(html_root, direct, errors[i].key)
    &&& removed.len() == errors.len()
    &&& forall|i: int|
        0 <= i < errors.len() ==> #[trigger] removed[i] == json_path(article_root, errors[i].key)
}

/// The keys that fail where the keys of `first` have failed and the
/// sources of `gone` are no more: the keys of `first`, and every document
/// that depends on one of them or on a source that is gone, at whatever
/// depth. What is gone is not among them.
pub open spec fn cascaded(
    docs: Map<Seq<char>, DocumentView>,
    first: Set<Seq<char>>,
    gone: Set<Seq<char>>,
) -> Set<Seq<char>> {
    failing(docs, first.union(gone)).difference(gone)
}

/// The state after a `load`, with the records that failed by themselves
/// (`direct`: each with the references that resolve to nothing) and the
/// keys of all documents that failed (`bad`).
pub struct Loaded {
    pub cache: Map<Seq<char>, DocumentView>,
    pub registry: Set<Seq<char>>,
    pub store: Map<Seq<char>, RecordView>,
    pub direct: Map<Seq<char>, Seq<Seq<char>>>,
    pub bad: Set<Seq<char>>,
}

/// The cache after the records that can be restored have been put into
/// it, each as its document and under the key of its path.
pub open spec fn absorbed(
    cache: Map<Seq<char>, DocumentView>,
    records: Map<Seq<char>, RecordView>,
    live: Set<Seq<char>>,
) -> Map<Seq<char>, DocumentView> {
    Map::new(
        |k: Seq<char>|
            cache.contains_key(k) || (records.contains_key(k) && restorable(
                records[k].references,
                live,
            )),
        |k: Seq<char>|
            if records.contains_key(k) && restorable(records[k].references, live) {
                restored(k, records[k])
            } else {
                cache[k]
            },
    )
}

/// The records that cannot be restored, each with the references that
/// resolve to nothing.
pub open spec fn direct_failures(
    records: Map<Seq<char>, RecordView>,
    live: Set<Seq<char>>,
) -> Map<Seq<char>, Seq<Seq<char>>> {
    Map::new(
        |k: Seq<char>| records.contains_key(k) && !restorable(records[k].references, live),
        |k: Seq<char>| unresolved(records[k].references, live),
    )
}

/// What `load` does. The deleted sources go away: their documents, their
/// records and their keys. The paths of the records that are left become
/// live keys. Each record that can be restored enters the cache as its
/// document. The others fail, and with them every document of the cache
/// that depends on a failed one or on a deleted source: all of these leave
/// the cache, the registry and the store.
pub open spec fn loaded(
    cache: Map<Seq<char>, DocumentView>,
    registry: Set<Seq<char>>,
    store: Map<Seq<char>, RecordView>,
    deleted: Seq<Seq<char>>,
) -> Loaded {
    let gone = deleted.to_set();
    let records = store.remove_keys(gone);
    let live = registry.difference(gone).union(records.dom());
    let docs = absorbed(cache.remove_keys(gone), records, live);
    let direct = direct_failures(records, live);
    let bad = cascaded(docs, direct.dom(), gone);
    Loaded {
        cache: docs.remove_keys(bad),
        registry: live.difference(bad),
        store: records.remove_keys(bad),
        direct: direct,
        bad: bad,
    }
}

impl LoadOutcome {
    /// The error report: for each failed document, the path of its output
    /// and the message to render there, in the order of `errors`.
    pub fn error_articles(&self) -> (report: Vec<(String, String)>)
        ensures
            report@.len() == self.errors@.len(),
            forall|i: int|
                0 <= i < report@.len() ==> (#[trigger] report@[i]).0@ == self.errors@[i]@.output
                    && report@[i].1@ == cause_message(self.errors@[i]@.cause),
    {
        let mut report: Vec<(String, String)> = Vec::new();
        let mut i: usize = 0;
        while i < self.errors.len()
            invariant
                i <= self.errors.len(),
                report@.len() == i,
                forall|j: int|
                    0 <= j < i ==> (#[trigger] report@[j]).0@ == self.errors@[j]@.output
                        && report@[j].1@ == cause_message(self.errors@[j]@.cause),
            decreases self.errors.len() - i,
        {
            report.push((self.errors[i].output.clone(), self.errors[i].message()));
            i += 1;
        }
        report
    }
}

impl ArticleCache {
    /// The root under which the records are persisted.
    pub closed spec fn article_root(&self) -> Seq<char> {
        self.cache_article_path@
    }

    /// The root under which output is rendered.
    pub closed spec fn html_root(&self) -> Seq<char> {
        self.cache_html_path@
    }

    /// The number of documents.
    pub closed spec fn count(&self) -> nat {
        self.cache.names().len()
    }

    /// An empty cache whose roots lie under `cache_path`.
    pub fn new(cache_path: &str) -> (cache: ArticleCache)
        ensures
            cache@ == Map::<Seq<char>, DocumentView>::empty(),
            cache.count() == 0,
            cache.article_root() == joined(cache_path@, "article"@),
            cache.html_root() == joined(cache_path@, "html"@),
    {
        ArticleCache {
            cache_article_path: join(cache_path, "article"),
            cache_html_path: join(cache_path, "html"),
            cache: Table::new(),
        }
    }

    /// Where the output of the document at `path` is written.
    pub fn typ_to_html_path(&self, path: &str) -> (r: String)
        ensures
            r@ == html_path(self.html_root(), path@),
    {
        let under = join(self.cache_html_path.as_str(), path);
        replace_extension(under.as_str(), "html")
    }

    /// Where the record of the document at `path` is persisted.
    pub fn typ_to_json_path(&self, path: &str) -> (r: String)
        ensures
            r@ == json_path(self.article_root(), path@),
    {
        let name = merge(path, ".json");
        join(self.cache_article_path.as_str(), name.as_str())
    }

    /// Whether `file` is the file in which the record of `path` is
    /// persisted.
    pub fn is_record_file(&self, file: &str, path: &str) -> (r: bool)
        ensures
            r == (file@ == json_path(self.article_root(), path@)),
    {
        let expected = self.typ_to_json_path(path);
        same_text(file, expected.as_str())
    }

    /// The number of documents in the cache.
    pub fn len(&self) -> (n: usize)
        ensures
            n == self.count(),
            n == self@.dom().len(),
            self@.dom().finite(),
    {
        let n = self.cache.len();
        proof {
            self.cache.names().unique_seq_to_set();
        }
        n
    }

    /// The document under `key`.
    pub fn get(&self, key: &Key) -> (r: Option<&Document>)
        ensures
            match r {
                Some(document) => looked_up(self@, key@) == Some(document@),
                None => looked_up(self@, key@) is None,
            },
    {
        self.cache.get(key.path())
    }

    /// Takes every document out of the cache, each with its key. Each key
    /// comes once, and the cache is empty afterwards.
    pub fn drain(&mut self) -> (all: Vec<(Key, Document)>)
        ensures
            final(self)@ == drained(),
            final(self).article_root() == old(self).article_root(),
            final(self).html_root() == old(self).html_root(),
            all@.len() == old(self).count(),
            forall|i: int, j: int|
                0 <= i < all@.len() && 0 <= j < all@.len() && i != j ==> all@[i].0@ != all@[j].0@,
            forall|i: int|
                0 <= i < all@.len() ==> old(self)@.contains_key((#[trigger] all@[i]).0@) && old(
                    self,
                )@[all@[i].0@] == all@[i].1@,
            forall|k: Seq<char>|
                old(self)@.contains_key(k) ==> exists|i: int|
                    0 <= i < all@.len() && (#[trigger] all@[i]).0@ == k,
    {
        let ghost names = self.cache.names();
        let ghost values = self.cache.values();
        let mut taken = self.cache.take_all();
        let n = taken.len();
        let mut all: Vec<(Key, Document)> = Vec::new();
        while taken.len() > 0
            invariant
                taken@.len() + all@.len() == n,
                n == names.len(),
                forall|i: int|
                    0 <= i < taken@.len() ==> (#[trigger] taken@[i]).0@ == names[i] && taken@[i].1
                        == values[i],
                forall|i: int|
                    0 <= i < all@.len() ==> (#[trigger] all@[i]).0@ == names[n - 1 - i] && all@[i].1
                        == values[n - 1 - i],
            decreases taken@.len(),
        {
            let entry = taken.pop().unwrap();
            all.push((Key::from_path(entry.0.as_str()), entry.1));
        }
        proof {
            assert forall|i: int|
                0 <= i < all@.len() implies old(self)@.contains_key((#[trigger] all@[i]).0@) && old(
                self,
            )@[all@[i].0@] == all@[i].1@ by {
                assert(names.to_set().contains(names[n - 1 - i]));
                assert(old(self).cache@[names[n - 1 - i]] == values[n - 1 - i]@);
            }
            assert forall|k: Seq<char>| old(self)@.contains_key(k) implies exists|i: int|
                0 <= i < all@.len() && (#[trigger] all@[i]).0@ == k by {
                assert(names.to_set().contains(k));
                let p = choose|p: int| 0 <= p < names.len() && names[p] == k;
                assert(all@[n - 1 - p].0@ == k);
            }
        }
        all
    }

    /// Puts newly compiled documents into the cache, each under its key, and
    /// makes each of these keys live in the registry. A later entry replaces
    /// an earlier one with the same key. The key of a document is the key
    /// of its path (`Document::key`), and each document comes with its own.
    pub fn refresh(&mut self, registry: &mut KeyRegistry, new: Vec<(Key, Document)>)
        requires
            own_keys(entry_views(new@)),
        ensures
            final(self)@ == refreshed(old(self)@, entry_views(new@)),
            final(registry)@ == old(registry)@.union(entry_keys(entry_views(new@))),
            final(self).article_root() == old(self).article_root(),
            final(self).html_root() == old(self).html_root(),
    {
        let ghost entries = entry_views(new@);
        let mut i: usize = 0;
        proof {
            assert(entries.take(0) =~= Seq::<(Seq<char>, DocumentView)>::empty());
            assert(registry@ =~= old(registry)@.union(entry_keys(entries.take(0))));
        }
        while i < new.len()
            invariant
                i <= new.len(),
                entries == entry_views(new@),
                self@ == refreshed(old(self)@, entries.take(i as int)),
                registry@ == old(registry)@.union(entry_keys(entries.take(i as int))),
                self.article_root() == old(self).article_root(),
                self.html_root() == old(self).html_root(),
            decreases new.len() - i,
        {
            let key = &new[i].0;
            let document = new[i].1.duplicate();
            registry.register_key(key);
            self.cache.insert(String::from_str(key.path()), document);
            proof {
                let done = entries.take(i as int);
                let more = entries.take(i + 1);
                assert(more.drop_last() =~= done);
                assert(more.last() == entries[i as int]);
                assert forall|k: Seq<char>| entry_keys(more).contains(k) <==> entry_keys(
                    done,
                ).contains(k) || k == key@ by {
                    if entry_keys(done).contains(k) {
                        let j = choose|j: int| 0 <= j < done.len() && (#[trigger] done[j]).0 == k;
                        assert(more[j].0 == k);
                    }
                    if k == key@ {
                        assert(more[i as int].0 == k);
                    }
                }
                assert(registry@ =~= old(registry)@.union(entry_keys(more)));
            }
            i += 1;
        }
        assert(entries.take(new@.len() as int) =~= entries);
    }

    /// Whether `key` is among the keys that `errors` reports.
    fn is_reported(errors: &Vec<ErrorRecord>, key: &Key) -> (r: bool)
        ensures
            r == error_keys(error_views(errors@)).contains(key@),
    {
        let ghost keys = error_keys(error_views(errors@));
        let mut i: usize = 0;
        while i < errors.len()
            invariant
                i <= errors.len(),
                keys == error_keys(error_views(errors@)),
                forall|j: int| 0 <= j < i ==> keys[j] != key@,
            decreases errors.len() - i,
        {
            if errors[i].key.same(key) {
                assert(keys[i as int] == key@);
                return true;
            }
            i += 1;
        }
        false
    }

    /// Whether `document` depends on a key that `errors` reports, or on a
    /// source that is gone.
    fn depends_on_reported(document: &Document, errors: &Vec<ErrorRecord>, gone: &Vec<String>) -> (r:
        bool)
        ensures
            r == hit(document@, lost(error_views(errors@), texts(gone@))),
    {
        let ghost bad = lost(error_views(errors@), texts(gone@));
        let mut i: usize = 0;
        while i < document.depends_on.len()
            invariant
                i <= document.depends_on.len(),
                bad == lost(error_views(errors@), texts(gone@)),
                forall|j: int| 0 <= j < i ==> !bad.contains(#[trigger] document@.depends_on[j]),
            decreases document.depends_on.len() - i,
        {
            if Self::is_reported(errors, &document.depends_on[i]) || list_contains(
                gone,
                document.depends_on[i].path(),
            ) {
                assert(bad.contains(document@.depends_on[i as int]));
                return true;
            }
            i += 1;
        }
        false
    }

    /// The keys of the cached documents that depend on a key that `errors`
    /// reports or on a source that is gone, each once.
    fn dependents(&self, errors: &Vec<ErrorRecord>, gone: &Vec<String>) -> (next: Vec<Key>)
        ensures
            key_texts(next@).no_duplicates(),
            forall|k: Seq<char>|
                key_texts(next@).contains(k) <==> self@.contains_key(k) && hit(
                    self@[k],
                    lost(error_views(errors@), texts(gone@)),
                ),
    {
        let ghost bad = lost(error_views(errors@), texts(gone@));
        let ghost names = self.cache.names();
        let ghost values = self.cache.values();
        let n = self.cache.len();
        let mut next: Vec<Key> = Vec::new();
        let ghost mut from: Seq<int> = Seq::empty();
        let mut at: usize = 0;
        while at < n
            invariant
                at <= n,
                n == names.len(),
                names == self.cache.names(),
                values == self.cache.values(),
                bad == lost(error_views(errors@), texts(gone@)),
                from.len() == next@.len(),
                forall|a: int|
                    0 <= a < from.len() ==> 0 <= #[trigger] from[a] < at && next@[a]@
                        == names[from[a]] && hit(values[from[a]]@, bad),
                forall|a: int, b: int| 0 <= a < b < from.len() ==> from[a] < from[b],
                forall|p: int|
                    0 <= p < at && hit(#[trigger] values[p]@, bad) ==> exists|a: int|
                        0 <= a < from.len() && from[a] == p,
            decreases n - at,
        {
            let document = self.cache.value_at(at);
            if Self::depends_on_reported(document, errors, gone) {
                next.push(Key::from_path(self.cache.name_at(at).as_str()));
                proof {
                    let ghost before = from;
                    from = from.push(at as int);
                    assert forall|p: int|
                        0 <= p < at + 1 && hit(#[trigger] values[p]@, bad) implies exists|a: int|
                        0 <= a < from.len() && from[a] == p by {
                        if p < at {
                            let a = choose|a: int| 0 <= a < before.len() && before[a] == p;
                            assert(from[a] == p);
                        } else {
                            assert(from[before.len() as int] == p);
                        }
                    }
                }
            }
            at += 1;
        }
        proof {
            let keys = key_texts(next@);
            assert forall|a: int, b: int|
                0 <= a < keys.len() && 0 <= b < keys.len() && a != b implies keys[a] != keys[b] by {
                if a < b {
                    assert(from[a] < from[b]);
                } else {
                    assert(from[b] < from[a]);
                }
            }
            assert forall|k: Seq<char>| keys.contains(k) implies self@.contains_key(k) && hit(
                self@[k],
                bad,
            ) by {
                let a = choose|a: int| 0 <= a < keys.len() && keys[a] == k;
                assert(names.to_set().contains(names[from[a]]));
                assert(self.cache@[names[from[a]]] == values[from[a]]@);
            }
            assert forall|k: Seq<char>| self@.contains_key(k) && hit(self@[k], bad) implies keys.contains(
                k,
            ) by {
                assert(names.to_set().contains(k));
                let p = choose|p: int| 0 <= p < names.len() && names[p] == k;
                assert(self.cache@[names[p]] == values[p]@);
                let a = choose|a: int| 0 <= a < from.len() && from[a] == p;
                assert(keys[a] == k);
            }
        }
        next
    }

    /// Takes one failed document out of the cache, the registry and the
    /// store, and reports it.
    fn fail_document(
        &mut self,
        registry: &mut KeyRegistry,
        store: &mut RecordStore,
        key: &Key,
        cause: Cause,
        out: &mut LoadOutcome,
    )
        ensures
            final(self)@ == old(self)@.remove(key@),
            final(self).article_root() == old(self).article_root(),
            final(self).html_root() == old(self).html_root(),
            final(self).count() == old(self).count() - (if old(self)@.contains_key(key@) {
                1int
            } else {
                0int
            }),
            final(registry)@ == old(registry)@.remove(key@),
            final(store)@ == old(store)@.remove(key@),
            error_views(final(out).errors@) == error_views(old(out).errors@).push(
                ErrorRecordView {
                    key: key@,
                    output: html_path(old(self).html_root(), key@),
                    cause: cause@,
                },
            ),
            texts(final(out).removed@) == texts(old(out).removed@).push(
                json_path(old(self).article_root(), key@),
            ),
    {
        let ghost errors = error_views(out.errors@);
        let ghost removed = texts(out.removed@);
        registry.remove_key(key);
        let _ = self.cache.remove(key.path());
        store.remove(key.path());
        let record = ErrorRecord {
            key: key.duplicate(),
            output: self.typ_to_html_path(key.path()),
            cause,
        };
        let file = self.typ_to_json_path(key.path());
        out.errors.push(record);
        out.removed.push(file);
        assert(error_views(out.errors@) =~= errors.push(record@));
        assert(texts(out.removed@) =~= removed.push(file@));
    }

    /// The cascade: reports the failed documents and every document that
    /// depends on a failed one, at whatever depth, and takes each of them
    /// out of the cache, the registry and the store.
    ///
    /// It works in rounds. The first round reports `failed`. Each further
    /// round looks through the documents that are left for those that
    /// depend on a reported key, and reports them. It ends with the round
    /// that finds none.
    ///
    /// `load` calls it with the records that it could not restore. It is
    /// open to a caller that turns records into documents by other means
    /// and has failures of its own to report; no key may fail twice.
    pub fn errors(
        &mut self,
        registry: &mut KeyRegistry,
        store: &mut RecordStore,
        failed: Vec<LoadFailure>,
    ) -> (out: LoadOutcome)
        requires
            failure_keys(failed@).no_duplicates(),
        ensures
            final(self).article_root() == old(self).article_root(),
            final(self).html_root() == old(self).html_root(),
            final(self)@ == old(self)@.remove_keys(
                failing(old(self)@, failure_map(failed@).dom()),
            ),
            final(registry)@ == old(registry)@.difference(
                failing(old(self)@, failure_map(failed@).dom()),
            ),
            final(store)@ == old(store)@.remove_keys(
                failing(old(self)@, failure_map(failed@).dom()),
            ),
            reports(
                error_views(out.errors@),
                texts(out.removed@),
                failing(old(self)@, failure_map(failed@).dom()),
                failure_map(failed@),
                old(self).html_root(),
                old(self).article_root(),
            ),
    {
        let gone: Vec<String> = Vec::new();
        proof {
            let none = texts(gone@).to_set();
            let first = failure_map(failed@).dom();
            assert(none =~= Set::<Seq<char>>::empty());
            assert(first.union(none) =~= first);
            assert(failing(self@, first).difference(none) =~= failing(self@, first));
        }
        self.cascade(registry, store, failed, &gone)
    }

    /// The cascade with sources that are gone: a document that depends on
    /// one of them fails like one that depends on a failed document. What
    /// is gone is in none of the cache, the registry and the store, and is
    /// not reported itself.
    fn cascade(
        &mut self,
        registry: &mut KeyRegistry,
        store: &mut RecordStore,
        failed: Vec<LoadFailure>,
        gone: &Vec<String>,
    ) -> (out: LoadOutcome)
        requires
            failure_keys(failed@).no_duplicates(),
            forall|k: Seq<char>| #[trigger]
                texts(gone@).to_set().contains(k) ==> !old(self)@.contains_key(k) && !old(
                    registry,
                )@.contains(k) && !old(store)@.contains_key(k) && !failure_map(
                    failed@,
                ).contains_key(k),
        ensures
            final(self).article_root() == old(self).article_root(),
            final(self).html_root() == old(self).html_root(),
            final(self)@ == old(self)@.remove_keys(
                cascaded(old(self)@, failure_map(failed@).dom(), texts(gone@).to_set()),
            ),
            final(registry)@ == old(registry)@.difference(
                cascaded(old(self)@, failure_map(failed@).dom(), texts(gone@).to_set()),
            ),
            final(store)@ == old(store)@.remove_keys(
                cascaded(old(self)@, failure_map(failed@).dom(), texts(gone@).to_set()),
            ),
            reports(
                error_views(out.errors@),
                texts(out.removed@),
                cascaded(old(self)@, failure_map(failed@).dom(), texts(gone@).to_set()),
                failure_map(failed@),
                old(self).html_root(),
                old(self).article_root(),
            ),
    {
        let ghost docs = self@;
        let ghost live = registry@;
        let ghost records = store@;
        let ghost direct = failure_map(failed@);
        let ghost seeds = texts(gone@).to_set();
        let ghost first = direct.dom().union(seeds);
        assert forall|k: Seq<char>| seeds.contains(k) implies !docs.contains_key(k)
            && !live.contains(k) && !records.contains_key(k) && !direct.contains_key(k) by {}
        let ghost html_root = self.html_root();
        let ghost article_root = self.article_root();
        let ghost keys = failure_keys(failed@);
        let mut out = LoadOutcome { errors: Vec::new(), removed: Vec::new() };
        let mut i: usize = 0;
        proof {
            assert(keys.take(0).to_set() =~= Set::<Seq<char>>::empty());
            assert(self@ =~= docs.remove_keys(keys.take(0).to_set()));
            assert(registry@ =~= live.difference(keys.take(0).to_set()));
            assert(store@ =~= records.remove_keys(keys.take(0).to_set()));
        }
        while i < failed.len()
            invariant
                i <= failed.len(),
                keys == failure_keys(failed@),
                self.html_root() == html_root,
                self.article_root() == article_root,
                self@ == docs.remove_keys(keys.take(i as int).to_set()),
                registry@ == live.difference(keys.take(i as int).to_set()),
                store@ == records.remove_keys(keys.take(i as int).to_set()),
                error_views(out.errors@).len() == i,
                texts(out.removed@).len() == i,
                forall|j: int|
                    0 <= j < i ==> #[trigger] error_views(out.errors@)[j] == (ErrorRecordView {
                        key: keys[j],
                        output: html_path(html_root, keys[j]),
                        cause: CauseView::Unresolved(failed@[j]@.missing),
                    }),
                forall|j: int|
                    0 <= j < i ==> #[trigger] texts(out.removed@)[j] == json_path(
                        article_root,
                        keys[j],
                    ),
            decreases failed.len() - i,
        {
            let failure = &failed[i];
            let cause = Cause::Unresolved(clone_list(&failure.missing));
            self.fail_document(registry, store, &failure.key, cause, &mut out);
            proof {
                lemma_take_next_to_set(keys, i as int);
                let done = keys.take(i as int).to_set();
                assert(self@ =~= docs.remove_keys(done.insert(keys[i as int])));
                assert(registry@ =~= live.difference(done.insert(keys[i as int])));
                assert(store@ =~= records.remove_keys(done.insert(keys[i as int])));
            }
            i += 1;
        }
        let ghost mut round: nat = 0;
        proof {
            assert(keys.take(keys.len() as int) =~= keys);
            assert(failing_within(docs, first, 0) =~= keys.to_set().union(seeds));
            assert forall|k: Seq<char>| docs.contains_key(k) || records.contains_key(k)
                implies !seeds.contains(k) by {
                if seeds.contains(k) {
                    assert(!docs.contains_key(k) && !records.contains_key(k));
                }
            }
            assert(docs.remove_keys(keys.to_set()) =~= docs.remove_keys(
                keys.to_set().union(seeds),
            ));
            assert(records.remove_keys(keys.to_set()) =~= records.remove_keys(
                keys.to_set().union(seeds),
            ));
            assert(self@ =~= docs.remove_keys(failing_within(docs, first, 0)));
            assert(registry@ =~= live.difference(failing_within(docs, first, 0)));
            assert(store@ =~= records.remove_keys(failing_within(docs, first, 0)));
            let errors = error_views(out.errors@);
            assert(error_keys(errors) =~= keys);
            assert forall|k: Seq<char>|
                failing_within(docs, first, 0).difference(seeds).contains(k) <==> keys.contains(
                    k,
                ) by {
                if keys.contains(k) {
                    assert(direct.contains_key(k));
                }
            }
            assert forall|j: int| 0 <= j < errors.len() implies #[trigger] errors[j] == error_of(
                html_root,
                direct,
                errors[j].key,
            ) by {
                assert(keys.contains(keys[j]));
                assert(keys.index_of(keys[j]) == j);
            }
        }
        loop
            invariant
                first == direct.dom().union(seeds),
                seeds == texts(gone@).to_set(),
                forall|k: Seq<char>| seeds.contains(k) ==> !docs.contains_key(k),
                self.html_root() == html_root,
                self.article_root() == article_root,
                self@ == docs.remove_keys(failing_within(docs, first, round)),
                registry@ == live.difference(failing_within(docs, first, round)),
                store@ == records.remove_keys(failing_within(docs, first, round)),
                reports(
                    error_views(out.errors@),
                    texts(out.removed@),
                    failing_within(docs, first, round).difference(seeds),
                    direct,
                    html_root,
                    article_root,
                ),
            ensures
                failing_within(docs, first, round) == failing(docs, first),
            decreases self.count(),
        {
            let ghost bad = failing_within(docs, first, round);
            let next = self.dependents(&out.errors, gone);
            proof {
                assert forall|k: Seq<char>| seeds.contains(k) implies bad.contains(k) by {
                    assert(first.contains(k));
                }
                let reported = error_keys(error_views(out.errors@));
                assert forall|k: Seq<char>|
                    lost(error_views(out.errors@), texts(gone@)).contains(k) <==> bad.contains(
                        k,
                    ) by {
                    assert(reported.to_set().contains(k) <==> reported.contains(k));
                    assert(bad.difference(seeds).contains(k) <==> reported.contains(k));
                }
                assert(lost(error_views(out.errors@), texts(gone@)) =~= bad);
            }
            if next.len() == 0 {
                proof {
                    assert forall|k: Seq<char>|
                        fails_within(docs, first, k, round + 1) implies fails_within(
                        docs,
                        first,
                        k,
                        round,
                    ) by {
                        lemma_fails_next(docs, first, k, round);
                        if !first.contains(k) && !bad.contains(k) {
                            assert(self@.contains_key(k) && self@[k] == docs[k]);
                            assert(key_texts(next@).contains(k));
                        }
                    }
                    assert forall|k: Seq<char>| fails(docs, first, k) implies bad.contains(k) by {
                        let rounds = choose|rounds: nat| fails_within(docs, first, k, rounds);
                        lemma_fails_settled(docs, first, round, k, rounds);
                    }
                    assert(bad =~= failing(docs, first));
                }
                break;
            }
            let ghost start = self@;
            let ghost start_live = registry@;
            let ghost start_records = store@;
            let ghost start_errors = error_views(out.errors@);
            let ghost start_removed = texts(out.removed@);
            let ghost start_count = self.count();
            let ghost fresh = key_texts(next@);
            let mut j: usize = 0;
            proof {
                assert(fresh.take(0).to_set() =~= Set::<Seq<char>>::empty());
                assert(self@ =~= start.remove_keys(fresh.take(0).to_set()));
                assert(registry@ =~= start_live.difference(fresh.take(0).to_set()));
                assert(store@ =~= start_records.remove_keys(fresh.take(0).to_set()));
            }
            while j < next.len()
                invariant
                    j <= next.len(),
                    fresh == key_texts(next@),
                    fresh.no_duplicates(),
                    forall|a: int| 0 <= a < fresh.len() ==> start.contains_key(#[trigger] fresh[a]),
                    self.html_root() == html_root,
                    self.article_root() == article_root,
                    self.count() == start_count - j,
                    self@ == start.remove_keys(fresh.take(j as int).to_set()),
                    registry@ == start_live.difference(fresh.take(j as int).to_set()),
                    store@ == start_records.remove_keys(fresh.take(j as int).to_set()),
                    error_views(out.errors@).len() == start_errors.len() + j,
                    texts(out.removed@).len() == start_removed.len() + j,
                    forall|a: int|
                        0 <= a < start_errors.len() ==> #[trigger] error_views(out.errors@)[a]
                            == start_errors[a],
                    forall|a: int|
                        0 <= a < start_removed.len() ==> #[trigger] texts(out.removed@)[a]
                            == start_removed[a],
                    forall|a: int|
                        0 <= a < j ==> #[trigger] error_views(out.errors@)[start_errors.len() + a]
                            == (ErrorRecordView {
                            key: fresh[a],
                            output: html_path(html_root, fresh[a]),
                            cause: CauseView::BrokenDependency,
                        }),
                    forall|a: int|
                        0 <= a < j ==> #[trigger] texts(out.removed@)[start_removed.len() + a]
                            == json_path(article_root, fresh[a]),
                decreases next.len() - j,
            {
                proof {
                    lemma_take_next_to_set(fresh, j as int);
                    assert(start.contains_key(fresh[j as int]));
                    assert(!fresh.take(j as int).to_set().contains(fresh[j as int])) by {
                        if fresh.take(j as int).contains(fresh[j as int]) {
                            let a = choose|a: int|
                                0 <= a < fresh.take(j as int).len() && fresh.take(j as int)[a]
                                    == fresh[j as int];
                            assert(fresh[a] == fresh[j as int]);
                        }
                    }
                }
                self.fail_document(registry, store, &next[j], Cause::BrokenDependency, &mut out);
                proof {
                    let done = fresh.take(j as int).to_set();
                    assert(self@ =~= start.remove_keys(done.insert(fresh[j as int])));
                    assert(registry@ =~= start_live.difference(done.insert(fresh[j as int])));
                    assert(store@ =~= start_records.remove_keys(done.insert(fresh[j as int])));
                }
                j += 1;
            }
            proof {
                assert(fresh.take(fresh.len() as int) =~= fresh);
                let more = failing_within(docs, first, round + 1);
                assert forall|k: Seq<char>| more.contains(k) <==> bad.contains(k)
                    || fresh.contains(k) by {
                    lemma_fails_next(docs, first, k, round);
                    if bad.contains(k) {
                        lemma_fails_later(docs, first, k, round, round + 1);
                    }
                    if fresh.contains(k) {
                        assert(start.contains_key(k) && start[k] == docs[k]);
                    }
                    if more.contains(k) && !bad.contains(k) {
                        assert(!first.contains(k));
                        assert(start.contains_key(k) && start[k] == docs[k]);
                    }
                }
                assert(self@ =~= docs.remove_keys(more));
                assert(registry@ =~= live.difference(more));
                assert(store@ =~= records.remove_keys(more));
                let errors = error_views(out.errors@);
                let removed = texts(out.removed@);
                let keys_now = error_keys(errors);
                let old_keys = error_keys(start_errors);
                assert forall|a: int| 0 <= a < keys_now.len() implies #[trigger] keys_now[a] == (
                if a < old_keys.len() {
                    old_keys[a]
                } else {
                    fresh[a - old_keys.len()]
                }) by {
                    if a < start_errors.len() {
                        assert(errors[a] == start_errors[a]);
                    } else {
                        assert(errors[start_errors.len() + (a - start_errors.len())].key == fresh[a
                            - start_errors.len()]);
                    }
                }
                assert forall|a: int, b: int|
                    0 <= a < keys_now.len() && 0 <= b < keys_now.len() && a != b implies keys_now[a]
                    != keys_now[b] by {
                    if a < old_keys.len() && b >= old_keys.len() {
                        assert(old_keys.contains(old_keys[a]));
                        assert(start.contains_key(fresh[b - old_keys.len()]));
                    }
                    if b < old_keys.len() && a >= old_keys.len() {
                        assert(old_keys.contains(old_keys[b]));
                        assert(start.contains_key(fresh[a - old_keys.len()]));
                    }
                }
                assert forall|k: Seq<char>|
                    more.difference(seeds).contains(k) <==> keys_now.contains(k) by {
                    if bad.difference(seeds).contains(k) {
                        let a = choose|a: int| 0 <= a < old_keys.len() && old_keys[a] == k;
                        assert(keys_now[a] == k);
                    }
                    if fresh.contains(k) {
                        let a = choose|a: int| 0 <= a < fresh.len() && fresh[a] == k;
                        assert(keys_now[old_keys.len() + a] == k);
                        assert(start.contains_key(fresh[a]));
                        assert(docs.contains_key(k));
                    }
                    if keys_now.contains(k) {
                        let a = choose|a: int| 0 <= a < keys_now.len() && keys_now[a] == k;
                        if a < old_keys.len() {
                            assert(old_keys.contains(old_keys[a]));
                        } else {
                            assert(fresh.contains(fresh[a - old_keys.len()]));
                        }
                    }
                }
                assert forall|a: int| 0 <= a < errors.len() implies #[trigger] errors[a]
                    == error_of(html_root, direct, errors[a].key) by {
                    if a < start_errors.len() {
                        assert(errors[a] == start_errors[a]);
                    } else {
                        let b = a - start_errors.len();
                        assert(errors[start_errors.len() + b].key == fresh[b]);
                        assert(start.contains_key(fresh[b]));
                        assert(!bad.contains(fresh[b]));
                        assert(!first.contains(fresh[b]));
                        assert(!direct.dom().contains(fresh[b]));
                    }
                }
                assert forall|a: int| 0 <= a < errors.len() implies #[trigger] removed[a]
                    == json_path(article_root, errors[a].key) by {
                    if a < start_errors.len() {
                        assert(errors[a] == start_errors[a]);
                        assert(removed[a] == start_removed[a]);
                    } else {
                        let b = a - start_errors.len();
                        assert(errors[start_errors.len() + b].key == fresh[b]);
                        assert(removed[start_removed.len() + b] == json_path(article_root, fresh[b]));
                    }
                }
                round = round + 1;
            }
        }
        out
    }

    /// Loads the cache from the persisted records.
    ///
    /// The deleted sources are taken away first: their documents leave the
    /// cache, their records the store, and their keys are forgotten. The
    /// paths of the records that are left are registered, and each of these records
    /// is turned back into its document. A record that refers to a document
    /// without a live key fails; the cascade then takes the failed documents
    /// and all that depend on them or on a deleted source out of the cache,
    /// the registry and the store. The outcome reports each failed document once, and names the
    /// record files to delete: those of the deleted sources first, then
    /// those of the failed documents.
    pub fn load(
        &mut self,
        store: &mut RecordStore,
        deleted: &Vec<String>,
        registry: &mut KeyRegistry,
    ) -> (out: LoadOutcome)
        ensures
            final(self).article_root() == old(self).article_root(),
            final(self).html_root() == old(self).html_root(),
            final(self)@ == loaded(old(self)@, old(registry)@, old(store)@, texts(deleted@)).cache,
            final(registry)@ == loaded(
                old(self)@,
                old(registry)@,
                old(store)@,
                texts(deleted@),
            ).registry,
            final(store)@ == loaded(old(self)@, old(registry)@, old(store)@, texts(deleted@)).store,
            texts(out.removed@).len() == deleted@.len() + out.errors@.len(),
            forall|i: int|
                0 <= i < deleted@.len() ==> #[trigger] texts(out.removed@)[i] == json_path(
                    old(self).article_root(),
                    deleted@[i]@,
                ),
            reports(
                error_views(out.errors@),
                texts(out.removed@).skip(deleted@.len() as int),
                loaded(old(self)@, old(registry)@, old(store)@, texts(deleted@)).bad,
                loaded(old(self)@, old(registry)@, old(store)@, texts(deleted@)).direct,
                old(self).html_root(),
                old(self).article_root(),
            ),
    {
        let ghost gone = texts(deleted@);
        let ghost article_root = self.article_root();
        let mut removed: Vec<String> = Vec::new();
        let mut i: usize = 0;
        proof {
            assert(gone.take(0).to_set() =~= Set::<Seq<char>>::empty());
            assert(self@ =~= old(self)@.remove_keys(gone.take(0).to_set()));
            assert(store@ =~= old(store)@.remove_keys(gone.take(0).to_set()));
            assert(registry@ =~= old(registry)@.difference(gone.take(0).to_set()));
        }
        while i < deleted.len()
            invariant
                i <= deleted.len(),
                gone == texts(deleted@),
                self.article_root() == article_root,
                self.html_root() == old(self).html_root(),
                self@ == old(self)@.remove_keys(gone.take(i as int).to_set()),
                store@ == old(store)@.remove_keys(gone.take(i as int).to_set()),
                registry@ == old(registry)@.difference(gone.take(i as int).to_set()),
                texts(removed@).len() == i,
                forall|j: int|
                    0 <= j < i ==> #[trigger] texts(removed@)[j] == json_path(article_root, gone[j]),
            decreases deleted.len() - i,
        {
            let ghost before = texts(removed@);
            let _ = self.cache.remove(deleted[i].as_str());
            store.remove(deleted[i].as_str());
            registry.remove_key(&Key::from_path(deleted[i].as_str()));
            removed.push(self.typ_to_json_path(deleted[i].as_str()));
            proof {
                assert(texts(removed@) =~= before.push(json_path(article_root, gone[i as int])));
                lemma_take_next_to_set(gone, i as int);
                assert(self@ =~= old(self)@.remove_keys(
                    gone.take(i as int).to_set().insert(gone[i as int]),
                ));
                assert(store@ =~= old(store)@.remove_keys(
                    gone.take(i as int).to_set().insert(gone[i as int]),
                ));
                assert(registry@ =~= old(registry)@.difference(
                    gone.take(i as int).to_set().insert(gone[i as int]),
                ));
            }
            i += 1;
        }
        assert(gone.take(gone.len() as int) =~= gone);
        let ghost cache = self@;
        let ghost known = registry@;
        let ghost records = store@;
        let ghost paths = store.paths();
        let n = store.len();
        let mut i: usize = 0;
        proof {
            assert(paths.take(0).to_set() =~= Set::<Seq<char>>::empty());
            assert(registry@ =~= known.union(paths.take(0).to_set()));
        }
        while i < n
            invariant
                i <= n,
                n == paths.len(),
                paths == store.paths(),
                registry@ == known.union(paths.take(i as int).to_set()),
            decreases n - i,
        {
            let _ = registry.register_path(store.path_at(i));
            proof {
                lemma_take_next_to_set(paths, i as int);
                assert(registry@ =~= known.union(
                    paths.take(i as int).to_set().insert(paths[i as int]),
                ));
            }
            i += 1;
        }
        assert(paths.take(paths.len() as int) =~= paths);
        let ghost live = registry@;
        let mut failed: Vec<LoadFailure> = Vec::new();
        let ghost mut from: Seq<int> = Seq::empty();
        let mut i: usize = 0;
        proof {
            assert(paths.take(0).to_set() =~= Set::<Seq<char>>::empty());
            assert(self@ =~= absorbed(cache, records.restrict(paths.take(0).to_set()), live));
        }
        while i < n
            invariant
                i <= n,
                n == paths.len(),
                paths == store.paths(),
                store.well_formed(),
                records == store@,
                live == registry@,
                self.article_root() == article_root,
                self.html_root() == old(self).html_root(),
                self@ == absorbed(cache, records.restrict(paths.take(i as int).to_set()), live),
                from.len() == failed@.len(),
                forall|a: int|
                    0 <= a < from.len() ==> 0 <= #[trigger] from[a] < i && !restorable(
                        records[paths[from[a]]].references,
                        live,
                    ) && failed@[a]@ == (LoadFailureView {
                        key: paths[from[a]],
                        missing: unresolved(records[paths[from[a]]].references, live),
                    }),
                forall|a: int, b: int| 0 <= a < b < from.len() ==> from[a] < from[b],
                forall|p: int|
                    0 <= p < i && !restorable(records[#[trigger] paths[p]].references, live)
                        ==> exists|a: int| 0 <= a < from.len() && from[a] == p,
            decreases n - i,
        {
            let path = store.path_at(i);
            let record = store.record_at(i);
            let ghost done = paths.take(i as int).to_set();
            proof {
                lemma_take_next_to_set(paths, i as int);
                assert(paths.to_set().contains(paths[i as int]));
            }
            match Document::restore(path, record, registry) {
                Ok(document) => {
                    self.cache.insert(String::from_str(path), document);
                    proof {
                        assert(self@ =~= absorbed(
                            cache,
                            records.restrict(done.insert(paths[i as int])),
                            live,
                        ));
                    }
                },
                Err(failure) => {
                    failed.push(failure);
                    proof {
                        let ghost before = from;
                        from = from.push(i as int);
                        assert(self@ =~= absorbed(
                            cache,
                            records.restrict(done.insert(paths[i as int])),
                            live,
                        ));
                        assert forall|p: int|
                            0 <= p < i + 1 && !restorable(
                                records[#[trigger] paths[p]].references,
                                live,
                            ) implies exists|a: int| 0 <= a < from.len() && from[a] == p by {
                            if p < i {
                                let a = choose|a: int| 0 <= a < before.len() && before[a] == p;
                                assert(from[a] == p);
                            } else {
                                assert(from[before.len() as int] == p);
                            }
                        }
                    }
                },
            }
            i += 1;
        }
        let ghost docs = self@;
        let ghost direct = direct_failures(records, live);
        proof {
            assert(paths.take(paths.len() as int) =~= paths);
            assert(records.restrict(paths.to_set()) =~= records);
            let keys = failure_keys(failed@);
            assert forall|a: int| 0 <= a < keys.len() implies #[trigger] keys[a]
                == paths[from[a]] by {
                assert(failed@[a]@.key == paths[from[a]]);
            }
            assert forall|a: int, b: int|
                0 <= a < keys.len() && 0 <= b < keys.len() && a != b implies keys[a] != keys[b] by {
                if a < b {
                    assert(from[a] < from[b]);
                } else {
                    assert(from[b] < from[a]);
                }
            }
            assert forall|k: Seq<char>| direct.contains_key(k) implies keys.contains(k) by {
                assert(paths.to_set().contains(k));
                let p = choose|p: int| 0 <= p < paths.len() && paths[p] == k;
                let a = choose|a: int| 0 <= a < from.len() && from[a] == p;
                assert(keys[a] == k);
            }
            assert forall|k: Seq<char>| keys.contains(k) implies direct.contains_key(k)
                && failure_map(failed@)[k] == direct[k] by {
                let a = keys.index_of(k);
                assert(keys[a] == k);
                assert(paths.to_set().contains(paths[from[a]]));
            }
            assert(failure_map(failed@) =~= direct);
        }
        proof {
            assert forall|k: Seq<char>| #[trigger] gone.to_set().contains(k) implies !self@.contains_key(
                k,
            ) && !registry@.contains(k) && !store@.contains_key(k) && !failure_map(
                failed@,
            ).contains_key(k) by {
                assert(!cache.contains_key(k) && !records.contains_key(k) && !known.contains(k));
            }
        }
        let outcome = self.cascade(registry, store, failed, deleted);
        let LoadOutcome { errors, removed: mut stale } = outcome;
        let ghost first = texts(removed@);
        let ghost second = texts(stale@);
        removed.append(&mut stale);
        proof {
            assert(texts(removed@) =~= first + second);
            assert(texts(removed@).skip(deleted@.len() as int) =~= second);
            assert forall|j: int| 0 <= j < deleted@.len() implies #[trigger] texts(removed@)[j]
                == json_path(article_root, deleted@[j]@) by {
                assert(texts(removed@)[j] == first[j]);
                assert(gone[j] == deleted@[j]@);
            }
        }
        LoadOutcome { errors, removed }
    }

    /// Turns documents back into records, one for each update, and takes
    /// these documents out of the cache.
    ///
    /// The outcomes come in the order of the updates. An update whose key
    /// the cache does not hold is marked as missing and changes nothing: the
    /// other updates are carried out as if it were not there.
    pub fn write_cache(&mut self, updates: Vec<CacheUpdate>) -> (outcomes: Vec<WriteOutcome>)
        ensures
            final(self)@ == written(
                old(self)@,
                old(self).article_root(),
                update_views(updates@),
            ).cache,
            outcome_views(outcomes@) == written(
                old(self)@,
                old(self).article_root(),
                update_views(updates@),
            ).outcomes,
            final(self).article_root() == old(self).article_root(),
            final(self).html_root() == old(self).html_root(),
    {
        let ghost views = update_views(updates@);
        let ghost root = self.article_root();
        let mut outcomes: Vec<WriteOutcome> = Vec::new();
        let mut i: usize = 0;
        proof {
            assert(views.take(0) =~= Seq::<CacheUpdateView>::empty());
            assert(outcome_views(outcomes@) =~= Seq::<WriteOutcomeView>::empty());
        }
        while i < updates.len()
            invariant
                i <= updates.len(),
                views == update_views(updates@),
                root == old(self).article_root(),
                self.article_root() == root,
                self.html_root() == old(self).html_root(),
                self@ == written(old(self)@, root, views.take(i as int)).cache,
                outcome_views(outcomes@) == written(old(self)@, root, views.take(i as int)).outcomes,
            decreases updates.len() - i,
        {
            let update = &updates[i];
            let ghost before = outcome_views(outcomes@);
            proof {
                assert(views.take(i + 1).drop_last() =~= views.take(i as int));
                assert(views.take(i + 1).last() == update@);
            }
            match self.cache.remove(update.key.path()) {
                Some(document) => {
                    let file = self.typ_to_json_path(document.path.as_str());
                    let record = PersistedRecord::from_document(document, update.data.duplicate());
                    let outcome = WriteOutcome::Write { file, record };
                    outcomes.push(outcome);
                    assert(outcome_views(outcomes@) =~= before.push(outcome@));
                },
                None => {
                    let outcome = WriteOutcome::Missing { key: update.key.duplicate() };
                    outcomes.push(outcome);
                    assert(outcome_views(outcomes@) =~= before.push(outcome@));
                },
            }
            i += 1;
        }
        assert(views.take(updates@.len() as int) =~= views);
        outcomes
    }
}

} // verus!
