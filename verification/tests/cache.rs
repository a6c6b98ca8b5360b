use typsite::article::{
    Cause, Document, ErrorRecord, LoadFailure, PersistedRecord, RecordStore, ReferenceData,
};
use typsite::cache::{ArticleCache, CacheUpdate, WriteOutcome};
use typsite::registry::{Key, KeyRegistry};

fn strings(items: &[&str]) -> Vec<String> {
    items.iter().map(|s| s.to_string()).collect()
}

fn no_data() -> ReferenceData {
    ReferenceData { outbound: Vec::new(), inbound: Vec::new(), fragments: Vec::new() }
}

fn record(path: &str, content: &str, references: &[&str]) -> PersistedRecord {
    PersistedRecord {
        path: path.to_string(),
        content: content.to_string(),
        references: strings(references),
        data: no_data(),
    }
}

fn document(path: &str, content: &str, depends_on: &[&str]) -> Document {
    Document {
        path: path.to_string(),
        content: content.to_string(),
        depends_on: depends_on.iter().map(|p| Key::from_path(p)).collect(),
    }
}

fn reported<'a>(errors: &'a [ErrorRecord], path: &str) -> Option<&'a ErrorRecord> {
    errors.iter().find(|e| e.key == Key::from_path(path))
}

#[test]
fn new_cache_is_empty_and_roots_lie_under_cache_path() {
    let cache = ArticleCache::new(".cache");
    assert_eq!(cache.len(), 0);
    assert!(cache.get(&Key::from_path("a.typ")).is_none());
    assert_eq!(cache.typ_to_json_path("posts/a.typ"), ".cache/article/posts/a.typ.json");
    assert_eq!(cache.typ_to_html_path("posts/a.typ"), ".cache/html/posts/a.html");
}

#[test]
fn output_path_of_a_source_without_extension_gets_one() {
    let cache = ArticleCache::new("/tmp/site/");
    assert_eq!(cache.typ_to_html_path("index"), "/tmp/site/html/index.html");
    assert_eq!(cache.typ_to_json_path("index"), "/tmp/site/article/index.json");
}

#[test]
fn load_restores_records_whose_references_resolve() {
    let mut cache = ArticleCache::new(".cache");
    let mut registry = KeyRegistry::new();
    let mut store = RecordStore::new();
    store.put(record("a.typ", "A", &["b.typ"]));
    store.put(record("b.typ", "B", &[]));
    let out = cache.load(&mut store, &Vec::new(), &mut registry);
    assert!(out.errors.is_empty());
    assert!(out.removed.is_empty());
    assert_eq!(cache.len(), 2);
    assert_eq!(cache.get(&Key::from_path("a.typ")), Some(&document("a.typ", "A", &["b.typ"])));
    assert_eq!(cache.get(&Key::from_path("b.typ")), Some(&document("b.typ", "B", &[])));
    assert!(registry.knows(&Key::from_path("a.typ")));
    assert!(registry.knows(&Key::from_path("b.typ")));
    assert_eq!(store.len(), 2);
}

#[test]
fn cascade_reaches_every_dependent_of_a_failed_document() {
    let mut cache = ArticleCache::new(".cache");
    let mut registry = KeyRegistry::new();
    let mut store = RecordStore::new();
    store.put(record("a.typ", "A", &["b.typ"]));
    store.put(record("b.typ", "B", &["c.typ"]));
    store.put(record("c.typ", "C", &["gone.typ"]));
    store.put(record("d.typ", "D", &[]));
    let out = cache.load(&mut store, &Vec::new(), &mut registry);

    assert_eq!(out.errors.len(), 3);
    let c = reported(&out.errors, "c.typ").unwrap();
    assert_eq!(c.output, ".cache/html/c.html");
    assert_eq!(c.cause, Cause::Unresolved(strings(&["gone.typ"])));
    assert_eq!(c.message(), "Article gone.typ not found");
    let b = reported(&out.errors, "b.typ").unwrap();
    assert_eq!(b.output, ".cache/html/b.html");
    assert_eq!(b.cause, Cause::BrokenDependency);
    assert_eq!(b.message(), "referenced document not found");
    let a = reported(&out.errors, "a.typ").unwrap();
    assert_eq!(a.output, ".cache/html/a.html");
    assert_eq!(a.cause, Cause::BrokenDependency);

    assert_eq!(cache.len(), 1);
    assert!(cache.get(&Key::from_path("d.typ")).is_some());
    for path in ["a.typ", "b.typ", "c.typ"] {
        assert!(cache.get(&Key::from_path(path)).is_none());
        assert!(!registry.knows(&Key::from_path(path)));
        assert!(registry.path(&Key::from_path(path)).is_none());
        assert!(!store.contains(path));
    }
    assert!(registry.knows(&Key::from_path("d.typ")));
    assert!(store.contains("d.typ"));

    let mut removed = out.removed.clone();
    removed.sort();
    assert_eq!(
        removed,
        strings(&[
            ".cache/article/a.typ.json",
            ".cache/article/b.typ.json",
            ".cache/article/c.typ.json"
        ])
    );
}

#[test]
fn cascade_takes_documents_that_were_cached_before() {
    let mut cache = ArticleCache::new(".cache");
    let mut registry = KeyRegistry::new();
    let mut store = RecordStore::new();
    cache.refresh(
        &mut registry,
        vec![
            (Key::from_path("old.typ"), document("old.typ", "O", &["broken.typ"])),
            (Key::from_path("free.typ"), document("free.typ", "F", &[])),
        ],
    );
    store.put(record("broken.typ", "X", &["nowhere.typ", "free.typ", "void.typ"]));
    let out = cache.load(&mut store, &Vec::new(), &mut registry);
    assert_eq!(out.errors.len(), 2);
    assert_eq!(out.errors[0].key, Key::from_path("broken.typ"));
    assert_eq!(out.errors[0].cause, Cause::Unresolved(strings(&["nowhere.typ", "void.typ"])));
    assert_eq!(
        out.errors[0].message(),
        "Article nowhere.typ not found\nArticle void.typ not found"
    );
    assert_eq!(out.errors[1].key, Key::from_path("old.typ"));
    assert_eq!(out.errors[1].cause, Cause::BrokenDependency);
    assert_eq!(cache.len(), 1);
    assert!(cache.get(&Key::from_path("free.typ")).is_some());
    assert!(registry.knows(&Key::from_path("free.typ")));
    assert!(!registry.knows(&Key::from_path("old.typ")));
}

#[test]
fn a_cycle_of_dependencies_fails_as_a_whole() {
    let mut cache = ArticleCache::new(".cache");
    let mut registry = KeyRegistry::new();
    let mut store = RecordStore::new();
    store.put(record("a.typ", "A", &["b.typ"]));
    store.put(record("b.typ", "B", &["a.typ", "c.typ"]));
    store.put(record("c.typ", "C", &["missing.typ"]));
    let out = cache.load(&mut store, &Vec::new(), &mut registry);
    assert_eq!(out.errors.len(), 3);
    assert_eq!(cache.len(), 0);
    assert_eq!(store.len(), 0);
}

#[test]
fn error_articles_map_output_paths_to_messages() {
    let mut cache = ArticleCache::new("out");
    let mut registry = KeyRegistry::new();
    let mut store = RecordStore::new();
    store.put(record("x/a.typ", "A", &["x/b.typ"]));
    store.put(record("x/b.typ", "B", &["x/none.typ"]));
    let out = cache.load(&mut store, &Vec::new(), &mut registry);
    let report = out.error_articles();
    assert_eq!(
        report,
        vec![
            ("out/html/x/b.html".to_string(), "Article x/none.typ not found".to_string()),
            ("out/html/x/a.html".to_string(), "referenced document not found".to_string()),
        ]
    );
}

#[test]
fn load_twice_changes_nothing_and_reports_nothing() {
    let mut cache = ArticleCache::new(".cache");
    let mut registry = KeyRegistry::new();
    let mut store = RecordStore::new();
    store.put(record("a.typ", "A", &["b.typ"]));
    store.put(record("b.typ", "B", &[]));
    store.put(record("c.typ", "C", &["lost.typ"]));
    store.put(record("d.typ", "D", &["c.typ"]));
    let first = cache.load(&mut store, &Vec::new(), &mut registry);
    assert_eq!(first.errors.len(), 2);
    let a = cache.get(&Key::from_path("a.typ")).cloned();
    let b = cache.get(&Key::from_path("b.typ")).cloned();
    assert!(a.is_some() && b.is_some());

    let second = cache.load(&mut store, &Vec::new(), &mut registry);
    assert!(second.errors.is_empty());
    assert!(second.removed.is_empty());
    assert!(second.error_articles().is_empty());
    assert_eq!(cache.len(), 2);
    assert_eq!(cache.get(&Key::from_path("a.typ")).cloned(), a);
    assert_eq!(cache.get(&Key::from_path("b.typ")).cloned(), b);
    assert_eq!(store.len(), 2);
    assert!(registry.knows(&Key::from_path("a.typ")));
    assert!(!registry.knows(&Key::from_path("c.typ")));
}

#[test]
fn clean_loads_give_identical_caches_and_empty_reports() {
    let mut cache = ArticleCache::new(".cache");
    let mut registry = KeyRegistry::new();
    let mut store = RecordStore::new();
    store.put(record("a.typ", "A", &["b.typ"]));
    store.put(record("b.typ", "B", &[]));
    let first = cache.load(&mut store, &Vec::new(), &mut registry);
    let after_first = (
        cache.get(&Key::from_path("a.typ")).cloned(),
        cache.get(&Key::from_path("b.typ")).cloned(),
        cache.len(),
    );
    let second = cache.load(&mut store, &Vec::new(), &mut registry);
    let after_second = (
        cache.get(&Key::from_path("a.typ")).cloned(),
        cache.get(&Key::from_path("b.typ")).cloned(),
        cache.len(),
    );
    assert_eq!(first, second);
    assert!(first.errors.is_empty());
    assert_eq!(after_first, after_second);
    assert_eq!(store.len(), 2);
}

#[test]
fn deleted_source_loses_its_record_and_its_key() {
    let mut cache = ArticleCache::new(".cache");
    let mut registry = KeyRegistry::new();
    let mut store = RecordStore::new();
    store.put(record("keep.typ", "K", &[]));
    store.put(record("gone.typ", "G", &[]));
    let out = cache.load(&mut store, &strings(&["gone.typ", "never.typ"]), &mut registry);
    assert!(out.errors.is_empty());
    assert_eq!(
        out.removed,
        strings(&[".cache/article/gone.typ.json", ".cache/article/never.typ.json"])
    );
    assert!(!store.contains("gone.typ"));
    assert!(store.contains("keep.typ"));
    assert!(!registry.knows(&Key::from_path("gone.typ")));
    assert!(registry.path(&Key::from_path("gone.typ")).is_none());
    assert!(registry.key("gone.typ").is_none());
    assert!(cache.get(&Key::from_path("gone.typ")).is_none());
    assert!(cache.get(&Key::from_path("keep.typ")).is_some());
}

#[test]
fn deleting_a_source_breaks_the_documents_that_refer_to_it() {
    let mut cache = ArticleCache::new(".cache");
    let mut registry = KeyRegistry::new();
    let mut store = RecordStore::new();
    store.put(record("page.typ", "P", &["gone.typ"]));
    store.put(record("gone.typ", "G", &[]));
    let out = cache.load(&mut store, &strings(&["gone.typ"]), &mut registry);
    assert_eq!(out.errors.len(), 1);
    assert_eq!(out.errors[0].key, Key::from_path("page.typ"));
    assert_eq!(out.errors[0].cause, Cause::Unresolved(strings(&["gone.typ"])));
    assert_eq!(
        out.removed,
        strings(&[".cache/article/gone.typ.json", ".cache/article/page.typ.json"])
    );
    assert_eq!(cache.len(), 0);
}

#[test]
fn a_key_that_was_live_before_the_deletion_resolves_no_more() {
    let mut cache = ArticleCache::new(".cache");
    let mut registry = KeyRegistry::new();
    let mut store = RecordStore::new();
    let key = registry.register_path("gone.typ");
    let other = registry.register_path("other.typ");
    store.put(record("gone.typ", "G", &[]));
    let _ = cache.load(&mut store, &strings(&["gone.typ"]), &mut registry);
    assert!(!store.contains("gone.typ"));
    assert!(!registry.knows(&key));
    assert_eq!(registry.path(&key), None);
    assert_eq!(registry.key("gone.typ"), None);
    assert_eq!(registry.path(&other), Some("other.typ".to_string()));
}

#[test]
fn a_record_cannot_be_restored_through_the_key_of_a_deleted_source() {
    let mut cache = ArticleCache::new(".cache");
    let mut registry = KeyRegistry::new();
    let mut store = RecordStore::new();
    registry.register_path("gone.typ");
    store.put(record("page.typ", "P", &["gone.typ"]));
    let out = cache.load(&mut store, &strings(&["gone.typ"]), &mut registry);
    assert_eq!(out.errors.len(), 1);
    assert_eq!(out.errors[0].key, Key::from_path("page.typ"));
    assert_eq!(out.errors[0].cause, Cause::Unresolved(strings(&["gone.typ"])));
    assert!(cache.get(&Key::from_path("page.typ")).is_none());
    assert!(!registry.knows(&Key::from_path("gone.typ")));
}

#[test]
fn write_cache_turns_documents_into_records() {
    let mut cache = ArticleCache::new(".cache");
    let mut registry = KeyRegistry::new();
    cache.refresh(
        &mut registry,
        vec![
            (Key::from_path("a.typ"), document("a.typ", "A", &["b.typ"])),
            (Key::from_path("b.typ"), document("b.typ", "B", &[])),
        ],
    );
    let data = ReferenceData {
        outbound: strings(&["b"]),
        inbound: strings(&["x", "y"]),
        fragments: strings(&["<p>A</p>"]),
    };
    let outcomes =
        cache.write_cache(vec![CacheUpdate { key: Key::from_path("a.typ"), data: data.clone() }]);
    assert_eq!(
        outcomes,
        vec![WriteOutcome::Write {
            file: ".cache/article/a.typ.json".to_string(),
            record: PersistedRecord {
                path: "a.typ".to_string(),
                content: "A".to_string(),
                references: strings(&["b.typ"]),
                data,
            },
        }]
    );
    assert!(cache.get(&Key::from_path("a.typ")).is_none());
    assert!(cache.get(&Key::from_path("b.typ")).is_some());
}

#[test]
fn write_cache_with_a_missing_key_leaves_the_other_entries_alone() {
    let mut with = ArticleCache::new(".cache");
    let mut without = ArticleCache::new(".cache");
    let mut registry = KeyRegistry::new();
    for cache in [&mut with, &mut without] {
        cache.refresh(
            &mut registry,
            vec![
                (Key::from_path("a.typ"), document("a.typ", "A", &[])),
                (Key::from_path("b.typ"), document("b.typ", "B", &["a.typ"])),
                (Key::from_path("c.typ"), document("c.typ", "C", &[])),
            ],
        );
    }
    let update = |path: &str| CacheUpdate { key: Key::from_path(path), data: no_data() };
    let marked = with.write_cache(vec![update("a.typ"), update("ghost.typ"), update("b.typ")]);
    let plain = without.write_cache(vec![update("a.typ"), update("b.typ")]);
    assert_eq!(marked.len(), 3);
    assert_eq!(marked[0], plain[0]);
    assert_eq!(marked[1], WriteOutcome::Missing { key: Key::from_path("ghost.typ") });
    assert_eq!(marked[2], plain[1]);
    assert_eq!(with.len(), 1);
    assert_eq!(with.get(&Key::from_path("c.typ")), without.get(&Key::from_path("c.typ")));
    assert_eq!(with.get(&Key::from_path("c.typ")), Some(&document("c.typ", "C", &[])));
}

#[test]
fn write_cache_marks_the_second_update_of_one_key_as_missing() {
    let mut cache = ArticleCache::new(".cache");
    let mut registry = KeyRegistry::new();
    cache.refresh(&mut registry, vec![(Key::from_path("a.typ"), document("a.typ", "A", &[]))]);
    let update = |path: &str| CacheUpdate { key: Key::from_path(path), data: no_data() };
    let outcomes = cache.write_cache(vec![update("a.typ"), update("a.typ")]);
    assert!(matches!(outcomes[0], WriteOutcome::Write { .. }));
    assert_eq!(outcomes[1], WriteOutcome::Missing { key: Key::from_path("a.typ") });
}

#[test]
fn written_records_load_back_as_the_same_documents() {
    let mut cache = ArticleCache::new(".cache");
    let mut registry = KeyRegistry::new();
    let a = document("a.typ", "A", &["b.typ"]);
    let b = document("b.typ", "B", &[]);
    cache.refresh(
        &mut registry,
        vec![(Key::from_path("a.typ"), a.clone()), (Key::from_path("b.typ"), b.clone())],
    );
    let update = |path: &str| CacheUpdate { key: Key::from_path(path), data: no_data() };
    let outcomes = cache.write_cache(vec![update("a.typ"), update("b.typ")]);
    assert_eq!(cache.len(), 0);
    let mut store = RecordStore::new();
    for outcome in outcomes {
        match outcome {
            WriteOutcome::Write { record, .. } => store.put(record),
            WriteOutcome::Missing { .. } => unreachable!(),
        }
    }
    let mut fresh = KeyRegistry::new();
    let out = cache.load(&mut store, &Vec::new(), &mut fresh);
    assert!(out.errors.is_empty());
    assert_eq!(cache.get(&Key::from_path("a.typ")), Some(&a));
    assert_eq!(cache.get(&Key::from_path("b.typ")), Some(&b));
}

#[test]
fn drain_empties_the_cache() {
    let mut cache = ArticleCache::new(".cache");
    let mut registry = KeyRegistry::new();
    cache.refresh(
        &mut registry,
        vec![
            (Key::from_path("a.typ"), document("a.typ", "A", &[])),
            (Key::from_path("b.typ"), document("b.typ", "B", &["a.typ"])),
        ],
    );
    let mut all = cache.drain();
    all.sort_by(|x, y| x.1.path.cmp(&y.1.path));
    assert_eq!(
        all,
        vec![
            (Key::from_path("a.typ"), document("a.typ", "A", &[])),
            (Key::from_path("b.typ"), document("b.typ", "B", &["a.typ"])),
        ]
    );
    assert_eq!(cache.len(), 0);
    assert!(cache.get(&Key::from_path("a.typ")).is_none());
    assert!(cache.get(&Key::from_path("b.typ")).is_none());
    assert!(cache.drain().is_empty());
}

#[test]
fn refresh_replaces_a_document_and_registers_its_key() {
    let mut cache = ArticleCache::new(".cache");
    let mut registry = KeyRegistry::new();
    cache.refresh(
        &mut registry,
        vec![
            (Key::from_path("a.typ"), document("a.typ", "first", &[])),
            (Key::from_path("a.typ"), document("a.typ", "second", &["b.typ"])),
        ],
    );
    assert_eq!(cache.len(), 1);
    assert_eq!(
        cache.get(&Key::from_path("a.typ")),
        Some(&document("a.typ", "second", &["b.typ"]))
    );
    assert!(registry.knows(&Key::from_path("a.typ")));
    assert!(!registry.knows(&Key::from_path("b.typ")));
}

#[test]
fn restore_fails_exactly_on_unknown_references() {
    let mut registry = KeyRegistry::new();
    registry.register_paths(&strings(&["a.typ", "b.typ"]));
    let good = record("a.typ", "A", &["b.typ", "a.typ"]);
    assert_eq!(
        Document::from_record(&good, &registry),
        Ok(document("a.typ", "A", &["b.typ", "a.typ"]))
    );
    let bad = record("a.typ", "A", &["b.typ", "z.typ", "y.typ"]);
    let failure = Document::from_record(&bad, &registry).unwrap_err();
    assert_eq!(failure.key, Key::from_path("a.typ"));
    assert_eq!(failure.missing, strings(&["z.typ", "y.typ"]));
}

#[test]
fn record_of_a_document_names_its_dependencies_by_path() {
    let data = ReferenceData {
        outbound: strings(&["o"]),
        inbound: strings(&[]),
        fragments: strings(&["f1", "f2"]),
    };
    let rec = PersistedRecord::from_document(document("d.typ", "D", &["x.typ", "y.typ"]), data.clone());
    assert_eq!(rec.path, "d.typ");
    assert_eq!(rec.content, "D");
    assert_eq!(rec.references, strings(&["x.typ", "y.typ"]));
    assert_eq!(rec.data, data);
}

#[test]
fn store_keeps_one_record_for_each_path() {
    let mut store = RecordStore::new();
    store.put(record("a.typ", "one", &[]));
    store.put(record("a.typ", "two", &["b.typ"]));
    assert_eq!(store.len(), 1);
    assert_eq!(store.get("a.typ"), Some(record("a.typ", "two", &["b.typ"])));
    assert_eq!(store.get("b.typ"), None);
    store.remove("a.typ");
    store.remove("a.typ");
    assert_eq!(store.len(), 0);
    assert!(!store.contains("a.typ"));
}

#[test]
fn cascade_takes_failures_that_the_caller_found() {
    let mut cache = ArticleCache::new(".cache");
    let mut registry = KeyRegistry::new();
    let mut store = RecordStore::new();
    cache.refresh(
        &mut registry,
        vec![
            (Key::from_path("a.typ"), document("a.typ", "A", &["b.typ"])),
            (Key::from_path("b.typ"), document("b.typ", "B", &["c.typ"])),
            (Key::from_path("d.typ"), document("d.typ", "D", &[])),
        ],
    );
    registry.register_path("c.typ");
    store.put(record("b.typ", "B", &["c.typ"]));
    store.put(record("c.typ", "C", &[]));
    let failed =
        vec![LoadFailure { key: Key::from_path("c.typ"), missing: strings(&["syntax error"]) }];
    let out = cache.errors(&mut registry, &mut store, failed);
    assert_eq!(out.errors.len(), 3);
    assert_eq!(out.errors[0].key, Key::from_path("c.typ"));
    assert_eq!(out.errors[0].cause, Cause::Unresolved(strings(&["syntax error"])));
    assert_eq!(out.errors[1].key, Key::from_path("b.typ"));
    assert_eq!(out.errors[1].cause, Cause::BrokenDependency);
    assert_eq!(out.errors[2].key, Key::from_path("a.typ"));
    assert_eq!(
        out.removed,
        strings(&[
            ".cache/article/c.typ.json",
            ".cache/article/b.typ.json",
            ".cache/article/a.typ.json"
        ])
    );
    assert_eq!(cache.len(), 1);
    assert!(cache.get(&Key::from_path("d.typ")).is_some());
    assert!(!registry.knows(&Key::from_path("c.typ")));
    assert!(registry.knows(&Key::from_path("d.typ")));
    assert_eq!(store.len(), 0);
}

#[test]
fn cascade_without_failures_changes_nothing() {
    let mut cache = ArticleCache::new(".cache");
    let mut registry = KeyRegistry::new();
    let mut store = RecordStore::new();
    cache.refresh(
        &mut registry,
        vec![(Key::from_path("a.typ"), document("a.typ", "A", &["b.typ"]))],
    );
    let out = cache.errors(&mut registry, &mut store, Vec::new());
    assert!(out.errors.is_empty());
    assert!(out.removed.is_empty());
    assert_eq!(cache.len(), 1);
}

#[test]
fn record_file_is_told_by_its_place() {
    let cache = ArticleCache::new(".cache");
    assert!(cache.is_record_file(".cache/article/posts/a.typ.json", "posts/a.typ"));
    assert!(!cache.is_record_file(".cache/article/posts/b.typ.json", "posts/a.typ"));
    assert!(!cache.is_record_file(".cache/article/posts/a.typ", "posts/a.typ"));
    assert!(!cache.is_record_file("posts/a.typ.json", "posts/a.typ"));
}

#[test]
fn a_cached_document_of_a_deleted_source_leaves_the_cache() {
    let mut cache = ArticleCache::new(".cache");
    let mut registry = KeyRegistry::new();
    let mut store = RecordStore::new();
    cache.refresh(
        &mut registry,
        vec![
            (Key::from_path("gone.typ"), document("gone.typ", "G", &[])),
            (Key::from_path("stay.typ"), document("stay.typ", "S", &[])),
        ],
    );
    store.put(record("gone.typ", "G", &[]));
    let out = cache.load(&mut store, &strings(&["gone.typ"]), &mut registry);
    assert!(out.errors.is_empty());
    assert_eq!(out.removed, strings(&[".cache/article/gone.typ.json"]));
    assert!(cache.get(&Key::from_path("gone.typ")).is_none());
    assert!(!registry.knows(&Key::from_path("gone.typ")));
    assert!(!store.contains("gone.typ"));
    assert_eq!(cache.len(), 1);
    assert!(cache.get(&Key::from_path("stay.typ")).is_some());
    assert!(registry.knows(&Key::from_path("stay.typ")));
}

#[test]
fn a_cached_document_that_depends_on_a_deleted_source_fails() {
    let mut cache = ArticleCache::new(".cache");
    let mut registry = KeyRegistry::new();
    let mut store = RecordStore::new();
    cache.refresh(
        &mut registry,
        vec![
            (Key::from_path("gone.typ"), document("gone.typ", "G", &[])),
            (Key::from_path("near.typ"), document("near.typ", "N", &["gone.typ"])),
            (Key::from_path("far.typ"), document("far.typ", "F", &["near.typ"])),
            (Key::from_path("free.typ"), document("free.typ", "X", &[])),
        ],
    );
    let out = cache.load(&mut store, &strings(&["gone.typ"]), &mut registry);
    assert_eq!(out.errors.len(), 2);
    assert_eq!(out.errors[0].key, Key::from_path("near.typ"));
    assert_eq!(out.errors[0].cause, Cause::BrokenDependency);
    assert_eq!(out.errors[0].output, ".cache/html/near.html");
    assert_eq!(out.errors[1].key, Key::from_path("far.typ"));
    assert_eq!(out.errors[1].cause, Cause::BrokenDependency);
    assert!(reported(&out.errors, "gone.typ").is_none());
    assert_eq!(
        out.removed,
        strings(&[
            ".cache/article/gone.typ.json",
            ".cache/article/near.typ.json",
            ".cache/article/far.typ.json"
        ])
    );
    assert_eq!(cache.len(), 1);
    assert!(cache.get(&Key::from_path("free.typ")).is_some());
    for path in ["gone.typ", "near.typ", "far.typ"] {
        assert!(cache.get(&Key::from_path(path)).is_none());
        assert!(!registry.knows(&Key::from_path(path)));
    }
    assert!(registry.knows(&Key::from_path("free.typ")));
}

#[test]
fn every_cached_key_resolves_to_the_path_of_its_document_after_load() {
    let mut cache = ArticleCache::new(".cache");
    let mut registry = KeyRegistry::new();
    let mut store = RecordStore::new();
    cache.refresh(
        &mut registry,
        vec![
            (Key::from_path("old.typ"), document("old.typ", "O", &["a.typ"])),
            (Key::from_path("dead.typ"), document("dead.typ", "D", &[])),
        ],
    );
    store.put(record("a.typ", "A", &[]));
    store.put(record("b.typ", "B", &["dead.typ"]));
    let _ = cache.load(&mut store, &strings(&["dead.typ"]), &mut registry);
    let all = cache.drain();
    assert_eq!(all.len(), 2);
    for (key, doc) in all {
        assert_eq!(registry.path(&key), Some(doc.path.clone()));
        assert_eq!(doc.key(), key);
        for dependency in doc.depends_on {
            assert!(registry.knows(&dependency));
        }
    }
}

#[test]
fn the_key_of_a_document_is_the_key_of_its_path() {
    let doc = document("posts/a.typ", "A", &[]);
    assert_eq!(doc.key(), Key::from_path("posts/a.typ"));
    assert_eq!(doc.key().path(), "posts/a.typ");
}
