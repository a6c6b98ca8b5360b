//! What holds across calls and of every input, proved from what the
//! functions of the cache and of the initializer state of themselves.

use vstd::prelude::*;
use crate::article::{restorable, DocumentView, RecordView};
use crate::cache::{
    absorbed, cascaded, direct_failures, drained, entry_keys, loaded, looked_up, own_keys,
    refreshed, written, CacheUpdateView, WriteOutcomeView,
};
use crate::cascade::{fails, fails_within, lemma_failure_cascades, lemma_nothing_fails};
use crate::text::{lemma_filter_keeps_all, lemma_filter_keeps_only};
use crate::initializer::{
    decision, holds_library_path, is_library_path, not_library, MonitorReportView,
    ProjectConfigView,
};

verus! {

/// The documents that a `load` holds before the cascade: those of the cache
/// whose source is not deleted, and those of the records that could be
/// restored.
pub open spec fn gathered(
    cache: Map<Seq<char>, DocumentView>,
    registry: Set<Seq<char>>,
    store: Map<Seq<char>, RecordView>,
    deleted: Seq<Seq<char>>,
) -> Map<Seq<char>, DocumentView> {
    let gone = deleted.to_set();
    let records = store.remove_keys(gone);
    let live = registry.difference(gone).union(records.dom());
    absorbed(cache.remove_keys(gone), records, live)
}

/// Every key of the cache is live in the registry.
pub open spec fn registered(cache: Map<Seq<char>, DocumentView>, registry: Set<Seq<char>>) -> bool {
    forall|k: Seq<char>| cache.contains_key(k) ==> registry.contains(k)
}

/// Every document of the cache depends only on keys that the cache holds or
/// that are live in the registry.
pub open spec fn resolved(cache: Map<Seq<char>, DocumentView>, registry: Set<Seq<char>>) -> bool {
    forall|k: Seq<char>, i: int|
        cache.contains_key(k) && 0 <= i < cache[k].depends_on.len() ==> cache.contains_key(
            #[trigger] cache[k].depends_on[i],
        ) || registry.contains(cache[k].depends_on[i])
}

/// Every document of the cache stands under the key of its own path.
pub open spec fn keyed_by_path(cache: Map<Seq<char>, DocumentView>) -> bool {
    forall|k: Seq<char>| cache.contains_key(k) ==> (#[trigger] cache[k]).path == k
}

/// A record that cannot be restored is reported by `load`.
pub proof fn lemma_load_reports_failed_record(
    cache: Map<Seq<char>, DocumentView>,
    registry: Set<Seq<char>>,
    store: Map<Seq<char>, RecordView>,
    deleted: Seq<Seq<char>>,
    path: Seq<char>,
)
    requires
        loaded(cache, registry, store, deleted).direct.contains_key(path),
    ensures
        loaded(cache, registry, store, deleted).bad.contains(path),
{
    let state = loaded(cache, registry, store, deleted);
    let first = state.direct.dom().union(deleted.to_set());
    assert(fails_within(gathered(cache, registry, store, deleted), first, path, 0));
}

/// A failure cascades through `load`: a document that depends on a key that
/// `load` reports, or on a deleted source, is reported by the same `load`,
/// however long the chain of dependencies that led there.
pub proof fn lemma_load_reports_dependents(
    cache: Map<Seq<char>, DocumentView>,
    registry: Set<Seq<char>>,
    store: Map<Seq<char>, RecordView>,
    deleted: Seq<Seq<char>>,
    document: Seq<char>,
    dependency: Seq<char>,
)
    requires
        gathered(cache, registry, store, deleted).contains_key(document),
        gathered(cache, registry, store, deleted)[document].depends_on.contains(dependency),
        loaded(cache, registry, store, deleted).bad.contains(dependency) || deleted.contains(
            dependency,
        ),
    ensures
        loaded(cache, registry, store, deleted).bad.contains(document),
{
    let state = loaded(cache, registry, store, deleted);
    let docs = gathered(cache, registry, store, deleted);
    let first = state.direct.dom().union(deleted.to_set());
    if deleted.contains(dependency) {
        assert(fails_within(docs, first, dependency, 0));
    }
    lemma_failure_cascades(docs, first, document, dependency);
}

/// A document that `load` reports is gone from the cache, from the registry
/// and from the store alike.
pub proof fn lemma_failed_document_leaves_everything(
    cache: Map<Seq<char>, DocumentView>,
    registry: Set<Seq<char>>,
    store: Map<Seq<char>, RecordView>,
    deleted: Seq<Seq<char>>,
    key: Seq<char>,
)
    requires
        loaded(cache, registry, store, deleted).bad.contains(key),
    ensures
        !loaded(cache, registry, store, deleted).cache.contains_key(key),
        !loaded(cache, registry, store, deleted).registry.contains(key),
        !loaded(cache, registry, store, deleted).store.contains_key(key),
{
}

/// `load` keeps every key of the cache live in the registry.
pub proof fn lemma_load_keeps_cache_registered(
    cache: Map<Seq<char>, DocumentView>,
    registry: Set<Seq<char>>,
    store: Map<Seq<char>, RecordView>,
    deleted: Seq<Seq<char>>,
)
    requires
        registered(cache, registry),
    ensures
        registered(
            loaded(cache, registry, store, deleted).cache,
            loaded(cache, registry, store, deleted).registry,
        ),
{
}

/// After a `load`, no document of the cache depends on a key that is
/// neither in the cache nor live in the registry, if that held before.
pub proof fn lemma_load_keeps_dependencies_resolved(
    cache: Map<Seq<char>, DocumentView>,
    registry: Set<Seq<char>>,
    store: Map<Seq<char>, RecordView>,
    deleted: Seq<Seq<char>>,
)
    requires
        resolved(cache, registry),
    ensures
        resolved(
            loaded(cache, registry, store, deleted).cache,
            loaded(cache, registry, store, deleted).registry,
        ),
{
    let state = loaded(cache, registry, store, deleted);
    let docs = gathered(cache, registry, store, deleted);
    let gone = deleted.to_set();
    let records = store.remove_keys(gone);
    let live = registry.difference(gone).union(records.dom());
    let first = state.direct.dom().union(gone);
    assert forall|k: Seq<char>, i: int|
        state.cache.contains_key(k) && 0 <= i < state.cache[k].depends_on.len()
        implies state.cache.contains_key(#[trigger] state.cache[k].depends_on[i])
        || state.registry.contains(state.cache[k].depends_on[i]) by {
        let dependency = docs[k].depends_on[i];
        if gone.contains(dependency) {
            assert(fails_within(docs, first, dependency, 0));
        }
        if fails(docs, first, dependency) {
            lemma_failure_cascades(docs, first, k, dependency);
        }
        assert(!gone.contains(dependency) && !state.bad.contains(dependency));
        if records.contains_key(k) && restorable(records[k].references, live) {
            assert(live.contains(records[k].references[i]));
        } else {
            assert(cache.contains_key(cache[k].depends_on[i]) || registry.contains(
                cache[k].depends_on[i],
            ));
        }
    }
}

/// `load` keeps every document of the cache under the key of its own path.
pub proof fn lemma_load_keeps_documents_keyed_by_path(
    cache: Map<Seq<char>, DocumentView>,
    registry: Set<Seq<char>>,
    store: Map<Seq<char>, RecordView>,
    deleted: Seq<Seq<char>>,
)
    requires
        keyed_by_path(cache),
    ensures
        keyed_by_path(loaded(cache, registry, store, deleted).cache),
{
}

/// Loading twice is loading once: with the records as the first `load` left
/// them and no deleted sources, a second `load` leaves the cache, the
/// registry and the store as they are, and reports nothing.
pub proof fn lemma_load_is_idempotent(
    cache: Map<Seq<char>, DocumentView>,
    registry: Set<Seq<char>>,
    store: Map<Seq<char>, RecordView>,
    deleted: Seq<Seq<char>>,
)
    ensures
        ({
            let once = loaded(cache, registry, store, deleted);
            let twice = loaded(once.cache, once.registry, once.store, Seq::empty());
            &&& twice.cache == once.cache
            &&& twice.registry == once.registry
            &&& twice.store == once.store
            &&& twice.bad == Set::<Seq<char>>::empty()
            &&& twice.direct == Map::<Seq<char>, Seq<Seq<char>>>::empty()
        }),
{
    let once = loaded(cache, registry, store, deleted);
    let docs = gathered(cache, registry, store, deleted);
    let gone = deleted.to_set();
    let records = store.remove_keys(gone);
    let live = registry.difference(gone).union(records.dom());
    let first = once.direct.dom().union(gone);
    let none = Seq::<Seq<char>>::empty();
    let nothing = none.to_set();
    let records2 = once.store.remove_keys(nothing);
    let live2 = once.registry.difference(nothing).union(records2.dom());
    let docs2 = absorbed(once.cache.remove_keys(nothing), records2, live2);
    let direct2 = direct_failures(records2, live2);
    assert(nothing =~= Set::<Seq<char>>::empty());
    assert(records2 =~= once.store);
    assert(live2 =~= once.registry);
    assert(once.cache.remove_keys(nothing) =~= once.cache);
    assert forall|k: Seq<char>| records2.contains_key(k) implies restorable(
        records[k].references,
        live,
    ) && restorable(records2[k].references, live2) by {
        assert(records.contains_key(k) && !once.bad.contains(k) && records2[k] == records[k]);
        assert(!gone.contains(k));
        if !restorable(records[k].references, live) {
            assert(once.direct.contains_key(k));
            assert(fails_within(docs, first, k, 0));
        }
        assert(docs.contains_key(k) && docs[k].depends_on == records[k].references);
        assert forall|i: int| 0 <= i < records2[k].references.len() implies live2.contains(
            #[trigger] records2[k].references[i],
        ) by {
            let dependency = records[k].references[i];
            assert(live.contains(dependency));
            assert(!gone.contains(dependency));
            if fails(docs, first, dependency) {
                lemma_failure_cascades(docs, first, k, dependency);
            }
        }
    }
    assert forall|k: Seq<char>| !direct2.contains_key(k) by {}
    assert(direct2 =~= Map::<Seq<char>, Seq<Seq<char>>>::empty());
    assert(direct2.dom() =~= Set::<Seq<char>>::empty());
    assert forall|k: Seq<char>| docs2.contains_key(k) <==> once.cache.contains_key(k) by {
        if records2.contains_key(k) {
            assert(restorable(records[k].references, live));
            assert(docs.contains_key(k));
        }
    }
    assert forall|k: Seq<char>| docs2.contains_key(k) implies docs2[k] == once.cache[k] by {
        if records2.contains_key(k) {
            assert(restorable(records2[k].references, live2));
            assert(restorable(records[k].references, live));
            assert(docs[k] == crate::article::restored(k, records[k]));
        }
    }
    assert(docs2 =~= once.cache);
    let first2 = direct2.dom().union(nothing);
    assert(first2 =~= Set::<Seq<char>>::empty());
    assert forall|k: Seq<char>| !fails(docs2, Set::<Seq<char>>::empty(), k) by {
        assert forall|rounds: nat| !fails_within(docs2, Set::<Seq<char>>::empty(), k, rounds) by {
            lemma_nothing_fails(docs2, k, rounds);
        }
    }
    let bad2 = cascaded(docs2, direct2.dom(), nothing);
    assert(bad2 =~= Set::<Seq<char>>::empty());
    assert(docs2.remove_keys(bad2) =~= once.cache);
    assert(live2.difference(bad2) =~= once.registry);
    assert(records2.remove_keys(bad2) =~= once.store);
}

/// A `load` that reports nothing leaves the records as the deletions left
/// them.
pub proof fn lemma_clean_load_keeps_records(
    cache: Map<Seq<char>, DocumentView>,
    registry: Set<Seq<char>>,
    store: Map<Seq<char>, RecordView>,
    deleted: Seq<Seq<char>>,
)
    requires
        loaded(cache, registry, store, deleted).bad == Set::<Seq<char>>::empty(),
    ensures
        loaded(cache, registry, store, deleted).store == store.remove_keys(deleted.to_set()),
{
    assert(loaded(cache, registry, store, deleted).store =~= store.remove_keys(deleted.to_set()));
}

/// A deleted source is forgotten by the `load` that is told of the
/// deletion: afterwards the cache holds no document of it, the store no
/// record, and its key is live no more, so that it resolves to nothing.
pub proof fn lemma_deleted_source_is_forgotten(
    cache: Map<Seq<char>, DocumentView>,
    registry: Set<Seq<char>>,
    store: Map<Seq<char>, RecordView>,
    deleted: Seq<Seq<char>>,
    path: Seq<char>,
)
    requires
        deleted.contains(path),
    ensures
        !loaded(cache, registry, store, deleted).cache.contains_key(path),
        !loaded(cache, registry, store, deleted).store.contains_key(path),
        !loaded(cache, registry, store, deleted).registry.contains(path),
{
}

/// The outcomes of `write_cache` are as many as the updates, and
/// `write_cache` puts nothing into the cache.
pub proof fn lemma_written_shrinks(
    cache: Map<Seq<char>, DocumentView>,
    article_root: Seq<char>,
    updates: Seq<CacheUpdateView>,
)
    ensures
        written(cache, article_root, updates).outcomes.len() == updates.len(),
        forall|k: Seq<char>|
            #![trigger written(cache, article_root, updates).cache.contains_key(k)]
            written(cache, article_root, updates).cache.contains_key(k) ==> cache.contains_key(k)
                && written(cache, article_root, updates).cache[k] == cache[k],
    decreases updates.len(),
{
    if updates.len() > 0 {
        lemma_written_shrinks(cache, article_root, updates.drop_last());
        let before = written(cache, article_root, updates.drop_last());
        let now = written(cache, article_root, updates);
        assert forall|k: Seq<char>| now.cache.contains_key(k) implies cache.contains_key(k)
            && now.cache[k] == cache[k] by {
            assert(before.cache.contains_key(k));
        }
    }
}

/// An update for a key that the cache does not hold is a failure of that
/// update alone: it is marked as missing at its place, and the cache and the
/// outcomes of all other updates are what they are without it.
pub proof fn lemma_missing_update_stands_alone(
    cache: Map<Seq<char>, DocumentView>,
    article_root: Seq<char>,
    before: Seq<CacheUpdateView>,
    update: CacheUpdateView,
    after: Seq<CacheUpdateView>,
)
    requires
        !cache.contains_key(update.key),
    ensures
        ({
            let with = written(cache, article_root, before + seq![update] + after);
            let without = written(cache, article_root, before + after);
            &&& with.cache == without.cache
            &&& with.outcomes == without.outcomes.take(before.len() as int) + seq![
                WriteOutcomeView::Missing { key: update.key },
            ] + without.outcomes.skip(before.len() as int)
        }),
    decreases after.len(),
{
    let all = before + seq![update] + after;
    let rest = before + after;
    let with = written(cache, article_root, all);
    let without = written(cache, article_root, rest);
    let missing = WriteOutcomeView::Missing { key: update.key };
    lemma_written_shrinks(cache, article_root, before);
    lemma_written_shrinks(cache, article_root, rest);
    if after.len() == 0 {
        assert(all.drop_last() =~= before);
        assert(rest =~= before);
        assert(all.last() == update);
        assert(with.outcomes =~= without.outcomes.take(before.len() as int) + seq![missing]
            + without.outcomes.skip(before.len() as int));
    } else {
        let shorter = after.drop_last();
        lemma_missing_update_stands_alone(cache, article_root, before, update, shorter);
        lemma_written_shrinks(cache, article_root, before + shorter);
        assert(all.drop_last() =~= before + seq![update] + shorter);
        assert(rest.drop_last() =~= before + shorter);
        assert(all.last() == after.last());
        assert(rest.last() == after.last());
        let inner = written(cache, article_root, before + shorter);
        assert(with.outcomes =~= without.outcomes.take(before.len() as int) + seq![missing]
            + without.outcomes.skip(before.len() as int));
    }
}

/// A drained cache yields nothing: whatever key is asked for, also one that
/// the cache held before, `get` finds no document.
pub proof fn lemma_drained_cache_yields_nothing(key: Seq<char>)
    ensures
        looked_up(drained(), key) is None,
{
}

/// `refresh` keeps every key of the cache live in the registry: it
/// registers each key that it puts into the cache.
pub proof fn lemma_refresh_keeps_cache_registered(
    cache: Map<Seq<char>, DocumentView>,
    registry: Set<Seq<char>>,
    entries: Seq<(Seq<char>, DocumentView)>,
)
    requires
        registered(cache, registry),
    ensures
        registered(refreshed(cache, entries), registry.union(entry_keys(entries))),
    decreases entries.len(),
{
    if entries.len() > 0 {
        let front = entries.drop_last();
        lemma_refresh_keeps_cache_registered(cache, registry, front);
        assert forall|k: Seq<char>| refreshed(cache, entries).contains_key(k) implies registry.union(
            entry_keys(entries),
        ).contains(k) by {
            if k == entries.last().0 {
                assert(entries[entries.len() - 1].0 == k);
                assert(entry_keys(entries).contains(k));
            } else {
                assert(refreshed(cache, front).contains_key(k));
                assert(registry.union(entry_keys(front)).contains(k));
                if entry_keys(front).contains(k) {
                    let i = choose|i: int| 0 <= i < front.len() && (#[trigger] front[i]).0 == k;
                    assert(entries[i].0 == k);
                    assert(entry_keys(entries).contains(k));
                }
            }
        }
    }
}

/// `refresh` keeps every document of the cache under the key of its own
/// path, as each document that it takes comes with that key.
pub proof fn lemma_refresh_keeps_documents_keyed_by_path(
    cache: Map<Seq<char>, DocumentView>,
    entries: Seq<(Seq<char>, DocumentView)>,
)
    requires
        keyed_by_path(cache),
        own_keys(entries),
    ensures
        keyed_by_path(refreshed(cache, entries)),
    decreases entries.len(),
{
    if entries.len() > 0 {
        let front = entries.drop_last();
        assert forall|i: int| 0 <= i < front.len() implies (#[trigger] front[i]).0
            == front[i].1.path by {
            assert(front[i] == entries[i]);
        }
        lemma_refresh_keeps_documents_keyed_by_path(cache, front);
        assert(entries[entries.len() - 1].0 == entries[entries.len() - 1].1.path);
    }
}

/// `write_cache` keeps every document of the cache under the key of its own
/// path, and so each record that it hands out is the record of the key
/// that it was asked for.
pub proof fn lemma_write_cache_keeps_documents_keyed_by_path(
    cache: Map<Seq<char>, DocumentView>,
    article_root: Seq<char>,
    updates: Seq<CacheUpdateView>,
)
    requires
        keyed_by_path(cache),
    ensures
        keyed_by_path(written(cache, article_root, updates).cache),
{
    lemma_written_shrinks(cache, article_root, updates);
}

/// `write_cache` keeps every key of the cache live in the registry: it
/// only takes documents out.
pub proof fn lemma_write_cache_keeps_cache_registered(
    cache: Map<Seq<char>, DocumentView>,
    registry: Set<Seq<char>>,
    article_root: Seq<char>,
    updates: Seq<CacheUpdateView>,
)
    requires
        registered(cache, registry),
    ensures
        registered(written(cache, article_root, updates).cache, registry),
{
    lemma_written_shrinks(cache, article_root, updates);
}

/// Without a cache to build on, everything is compiled: whatever the
/// monitor has found, the documents to compile are all documents but the
/// library files, and all documents where none of them is a library file.
pub proof fn lemma_missing_cache_compiles_everything(
    monitor: MonitorReportView,
    config: ProjectConfigView,
)
    ensures
        decision(monitor, config, false).overall_compile_needed,
        decision(monitor, config, false).changed_typst_paths == monitor.all_typst_paths.filter(
            not_library(config),
        ),
        !holds_library_path(monitor.all_typst_paths, config) ==> decision(
            monitor,
            config,
            false,
        ).changed_typst_paths == monitor.all_typst_paths,
{
    if !holds_library_path(monitor.all_typst_paths, config) {
        lemma_filter_keeps_all(monitor.all_typst_paths, not_library(config));
    }
}

/// A library file is never among the documents of a decision, neither among
/// the changed nor among the deleted ones, whether or not it forced a full
/// build.
pub proof fn lemma_library_files_are_never_documents(
    monitor: MonitorReportView,
    config: ProjectConfigView,
    cache_exists: bool,
)
    ensures
        !holds_library_path(decision(monitor, config, cache_exists).changed_typst_paths, config),
        !holds_library_path(decision(monitor, config, cache_exists).deleted_typst_paths, config),
{
    let input = decision(monitor, config, cache_exists);
    let source = if input.overall_compile_needed {
        monitor.all_typst_paths
    } else {
        monitor.changed_typst_paths
    };
    assert forall|i: int| 0 <= i < input.changed_typst_paths.len() implies !is_library_path(
        #[trigger] input.changed_typst_paths[i],
        config,
    ) by {
        lemma_filter_keeps_only(source, not_library(config), i);
    }
    assert forall|i: int| 0 <= i < input.deleted_typst_paths.len() implies !is_library_path(
        #[trigger] input.deleted_typst_paths[i],
        config,
    ) by {
        lemma_filter_keeps_only(monitor.deleted_typst_paths, not_library(config), i);
    }
}

} // verus!
