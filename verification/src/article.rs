//! Documents, the records that persist them between runs, and the errors
//! that a failed document is reported with.

use vstd::prelude::*;
use vstd::string::*;
use crate::registry::{duplicate_keys, key_texts, Key, KeyRegistry};
use crate::table::Table;
use crate::text::{clone_list, lemma_filter_next, texts};

verus! {

/// A compiled document: where its source lies, what it was compiled to, and
/// the documents that it refers to.
#[derive(Debug, Clone, PartialEq, Eq)]
pub struct Document {
    pub path: String,
    pub content: String,
    pub depends_on: Vec<Key>,
}

pub struct DocumentView {
    pub path: Seq<char>,
    pub content: Seq<char>,
    pub depends_on: Seq<Seq<char>>,
}

impl View for Document {
    type V = DocumentView;

    open spec fn view(&self) -> DocumentView {
        DocumentView {
            path: self.path@,
            content: self.content@,
            depends_on: key_texts(self.depends_on@),
        }
    }
}

/// What the compiler attaches to a document when it is persisted: three
/// lists that the cache stores and hands back as they are.
#[derive(Debug, Clone, PartialEq, Eq)]
pub struct ReferenceData {
    pub outbound: Vec<String>,
    pub inbound: Vec<String>,
    pub fragments: Vec<String>,
}

pub struct ReferenceDataView {
    pub outbound: Seq<Seq<char>>,
    pub inbound: Seq<Seq<char>>,
    pub fragments: Seq<Seq<char>>,
}

impl View for ReferenceData {
    type V = ReferenceDataView;

    open spec fn view(&self) -> ReferenceDataView {
        ReferenceDataView {
            outbound: texts(self.outbound@),
            inbound: texts(self.inbound@),
            fragments: texts(self.fragments@),
        }
    }
}

/// The persisted form of a document. It names the documents that it refers
/// to by their source paths, since keys belong to the registry of a run.
#[derive(Debug, Clone, PartialEq, Eq)]
pub struct PersistedRecord {
    pub path: String,
    pub content: String,
    pub references: Vec<String>,
    pub data: ReferenceData,
}

pub struct RecordView {
    pub path: Seq<char>,
    pub content: Seq<char>,
    pub references: Seq<Seq<char>>,
    pub data: ReferenceDataView,
}

impl View for PersistedRecord {
    type V = RecordView;

    open spec fn view(&self) -> RecordView {
        RecordView {
            path: self.path@,
            content: self.content@,
            references: texts(self.references@),
            data: self.data@,
        }
    }
}

/// A record that could not be turned into a document: the key it would have
/// had, and the references that resolve to nothing.
#[derive(Debug, Clone, PartialEq, Eq)]
pub struct LoadFailure {
    pub key: Key,
    pub missing: Vec<String>,
}

pub struct LoadFailureView {
    pub key: Seq<char>,
    pub missing: Seq<Seq<char>>,
}

impl View for LoadFailure {
    type V = LoadFailureView;

    open spec fn view(&self) -> LoadFailureView {
        LoadFailureView { key: self.key@, missing: texts(self.missing@) }
    }
}

/// Why a document is reported as an error.
#[derive(Debug, Clone, PartialEq, Eq)]
pub enum Cause {
    /// Its record refers to documents that the registry does not know.
    Unresolved(Vec<String>),
    /// It depends on a document that failed.
    BrokenDependency,
}

pub enum CauseView {
    Unresolved(Seq<Seq<char>>),
    BrokenDependency,
}

impl View for Cause {
    type V = CauseView;

    open spec fn view(&self) -> CauseView {
        match self {
            Cause::Unresolved(missing) => CauseView::Unresolved(texts(missing@)),
            Cause::BrokenDependency => CauseView::BrokenDependency,
        }
    }
}

/// A failed document: its key, where its output would have been written,
/// and the cause.
#[derive(Debug, Clone, PartialEq, Eq)]
pub struct ErrorRecord {
    pub key: Key,
    pub output: String,
    pub cause: Cause,
}

pub struct ErrorRecordView {
    pub key: Seq<char>,
    pub output: Seq<char>,
    pub cause: CauseView,
}

impl View for ErrorRecord {
    type V = ErrorRecordView;

    open spec fn view(&self) -> ErrorRecordView {
        ErrorRecordView { key: self.key@, output: self.output@, cause: self.cause@ }
    }
}

/// What is said of a reference that resolves to nothing.
pub open spec fn not_found(reference: Seq<char>) -> Seq<char> {
    "Article "@ + reference + " not found"@
}

/// One line for each reference that resolves to nothing, with a line break
/// between two lines.
pub open spec fn not_found_lines(missing: Seq<Seq<char>>) -> Seq<char>
    decreases missing.len(),
{
    if missing.len() == 0 {
        Seq::empty()
    } else if missing.len() == 1 {
        not_found(missing[0])
    } else {
        not_found_lines(missing.drop_last()) + "\n"@ + not_found(missing.last())
    }
}

/// The message that a cause is rendered as.
pub open spec fn cause_message(cause: CauseView) -> Seq<char> {
    match cause {
        CauseView::Unresolved(missing) => not_found_lines(missing),
        CauseView::BrokenDependency => "referenced document not found"@,
    }
}

/// The views of a list of error records.
pub open spec fn error_views(errors: Seq<ErrorRecord>) -> Seq<ErrorRecordView> {
    errors.map_values(|e: ErrorRecord| e@)
}

/// The paths that the registry has no live key for.
pub open spec fn unknown_to(registry: Set<Seq<char>>) -> spec_fn(Seq<char>) -> bool {
    |path: Seq<char>| !registry.contains(path)
}

/// The references that resolve to nothing, in their order.
pub open spec fn unresolved(references: Seq<Seq<char>>, registry: Set<Seq<char>>) -> Seq<
    Seq<char>,
> {
    references.filter(unknown_to(registry))
}

/// Every reference resolves to a live key.
pub open spec fn restorable(references: Seq<Seq<char>>, registry: Set<Seq<char>>) -> bool {
    forall|i: int| 0 <= i < references.len() ==> registry.contains(#[trigger] references[i])
}

/// The document that a record at `path` stands for.
pub open spec fn restored(path: Seq<char>, record: RecordView) -> DocumentView {
    DocumentView { path: path, content: record.content, depends_on: record.references }
}

/// The record that persists a document together with what is attached.
pub open spec fn recorded(document: DocumentView, data: ReferenceDataView) -> RecordView {
    RecordView {
        path: document.path,
        content: document.content,
        references: document.depends_on,
        data: data,
    }
}

/// Nothing is unresolved exactly where every reference resolves.
pub proof fn lemma_unresolved_none(references: Seq<Seq<char>>, registry: Set<Seq<char>>)
    ensures
        unresolved(references, registry).len() == 0 <==> restorable(references, registry),
    decreases references.len(),
{
    reveal(Seq::filter);
    if references.len() > 0 {
        let front = references.drop_last();
        lemma_unresolved_none(front, registry);
        if restorable(references, registry) {
            assert forall|i: int| 0 <= i < front.len() implies registry.contains(
                #[trigger] front[i],
            ) by {
                assert(front[i] == references[i]);
            }
            assert(registry.contains(references[references.len() - 1]));
        }
        if unresolved(references, registry).len() == 0 {
            assert forall|i: int| 0 <= i < references.len() implies registry.contains(
                #[trigger] references[i],
            ) by {
                if i < front.len() {
                    assert(front[i] == references[i]);
                }
            }
        }
    }
}

impl Cause {
    /// The message to show in place of the document.
    pub fn message(&self) -> (r: String)
        ensures
            r@ == cause_message(self@),
    {
        match self {
            Cause::Unresolved(missing) => {
                let mut r = String::new();
                let mut i: usize = 0;
                while i < missing.len()
                    invariant
                        i <= missing.len(),
                        r@ == not_found_lines(texts(missing@).take(i as int)),
                    decreases missing.len() - i,
                {
                    proof {
                        let more = texts(missing@).take(i + 1);
                        assert(more.drop_last() =~= texts(missing@).take(i as int));
                        assert(more.last() == missing@[i as int]@);
                        assert(more.len() == 1 ==> more[0] == missing@[i as int]@);
                    }
                    if i > 0 {
                        r.append("\n");
                    }
                    r.append("Article ");
                    r.append(missing[i].as_str());
                    r.append(" not found");
                    i += 1;
                }
                assert(texts(missing@).take(missing@.len() as int) =~= texts(missing@));
                r
            },
            Cause::BrokenDependency => String::from_str("referenced document not found"),
        }
    }
}

impl ErrorRecord {
    /// The message to show in place of the document.
    pub fn message(&self) -> (r: String)
        ensures
            r@ == cause_message(self@.cause),
    {
        self.cause.message()
    }
}

impl ReferenceData {
    /// A copy with the same lists.
    pub fn duplicate(&self) -> (r: ReferenceData)
        ensures
            r@ == self@,
    {
        ReferenceData {
            outbound: clone_list(&self.outbound),
            inbound: clone_list(&self.inbound),
            fragments: clone_list(&self.fragments),
        }
    }
}

impl PersistedRecord {
    /// A copy with the same contents.
    pub fn duplicate(&self) -> (r: PersistedRecord)
        ensures
            r@ == self@,
    {
        PersistedRecord {
            path: self.path.clone(),
            content: self.content.clone(),
            references: clone_list(&self.references),
            data: self.data.duplicate(),
        }
    }

    /// The record that persists `document` with `data` attached.
    pub fn from_document(document: Document, data: ReferenceData) -> (r: PersistedRecord)
        ensures
            r@ == recorded(document@, data@),
    {
        let mut references: Vec<String> = Vec::new();
        let mut i: usize = 0;
        while i < document.depends_on.len()
            invariant
                i <= document.depends_on.len(),
                references@.len() == i,
                forall|j: int| 0 <= j < i ==> references@[j]@ == document.depends_on@[j]@,
            decreases document.depends_on.len() - i,
        {
            references.push(String::from_str(document.depends_on[i].path()));
            i += 1;
        }
        assert(texts(references@) =~= key_texts(document.depends_on@));
        PersistedRecord { path: document.path, content: document.content, references, data }
    }
}

impl Document {
    /// The key of the document: the key of its path.
    pub fn key(&self) -> (key: Key)
        ensures
            key@ == self@.path,
    {
        Key::from_path(self.path.as_str())
    }

    /// A copy with the same contents.
    pub fn duplicate(&self) -> (r: Document)
        ensures
            r@ == self@,
    {
        Document {
            path: self.path.clone(),
            content: self.content.clone(),
            depends_on: duplicate_keys(&self.depends_on),
        }
    }

    /// Turns the record of the document at `path` back into the document.
    ///
    /// This succeeds exactly where the registry has a live key for every
    /// document that the record refers to. Otherwise the failure names the
    /// key of the document and the references that resolve to nothing.
    pub fn restore(path: &str, record: &PersistedRecord, registry: &KeyRegistry) -> (r: Result<
        Document,
        LoadFailure,
    >)
        ensures
            r is Ok <==> restorable(record@.references, registry@),
            match r {
                Ok(document) => document@ == restored(path@, record@),
                Err(failure) => failure@ == (LoadFailureView {
                    key: path@,
                    missing: unresolved(record@.references, registry@),
                }),
            },
    {
        let mut depends_on: Vec<Key> = Vec::new();
        let mut missing: Vec<String> = Vec::new();
        let ghost references = record@.references;
        let mut i: usize = 0;
        proof {
            reveal(Seq::filter);
            assert(references.take(0).filter(unknown_to(registry@)) =~= texts(missing@));
        }
        while i < record.references.len()
            invariant
                i <= record.references.len(),
                references == texts(record.references@),
                depends_on@.len() == i,
                forall|j: int| 0 <= j < i ==> depends_on@[j]@ == references[j],
                texts(missing@) == references.take(i as int).filter(unknown_to(registry@)),
            decreases record.references.len() - i,
        {
            let key = Key::from_path(record.references[i].as_str());
            proof {
                lemma_filter_next(references, i as int, unknown_to(registry@));
            }
            if !registry.knows(&key) {
                let ghost before = texts(missing@);
                missing.push(record.references[i].clone());
                assert(texts(missing@) =~= before.push(references[i as int]));
            }
            depends_on.push(key);
            i += 1;
        }
        proof {
            assert(references.take(references.len() as int) =~= references);
            lemma_unresolved_none(references, registry@);
            assert(key_texts(depends_on@) =~= references);
        }
        if missing.len() == 0 {
            Ok(Document { path: String::from_str(path), content: record.content.clone(), depends_on })
        } else {
            Err(LoadFailure { key: Key::from_path(path), missing })
        }
    }

    /// Turns a record back into the document at the record's own path.
    pub fn from_record(record: &PersistedRecord, registry: &KeyRegistry) -> (r: Result<
        Document,
        LoadFailure,
    >)
        ensures
            r is Ok <==> restorable(record@.references, registry@),
            match r {
                Ok(document) => document@ == restored(record@.path, record@),
                Err(failure) => failure@ == (LoadFailureView {
                    key: record@.path,
                    missing: unresolved(record@.references, registry@),
                }),
            },
    {
        Document::restore(record.path.as_str(), record, registry)
    }
}

/// The records that are persisted, one for each source path: what the
/// library knows of the record files on disk.
pub struct RecordStore {
    records: Table<PersistedRecord>,
}

impl View for RecordStore {
    type V = Map<Seq<char>, RecordView>;

    /// Each source path with its record. The record under a path is the
    /// record of that path.
    closed spec fn view(&self) -> Map<Seq<char>, RecordView> {
        Map::new(
            |path: Seq<char>| self.records@.contains_key(path),
            |path: Seq<char>|
                RecordView {
                    path: path,
                    content: self.records@[path].content,
                    references: self.records@[path].references,
                    data: self.records@[path].data,
                },
        )
    }
}

impl RecordStore {
    /// The source paths, in the order of the store.
    pub closed spec fn paths(&self) -> Seq<Seq<char>> {
        self.records.names()
    }

    /// How positions and the map belong together.
    pub open spec fn well_formed(&self) -> bool {
        &&& self.paths().no_duplicates()
        &&& self@.dom() =~= self.paths().to_set()
    }

    /// A store without records: there is no record under any path, and no
    /// path at any position.
    pub fn new() -> (store: RecordStore)
        ensures
            store@ == Map::<Seq<char>, RecordView>::empty(),
            store.paths() == Seq::<Seq<char>>::empty(),
            store.well_formed(),
    {
        let store = RecordStore { records: Table::new() };
        assert(store@ =~= Map::<Seq<char>, RecordView>::empty());
        assert(store@.dom() =~= store.paths().to_set());
        store
    }

    /// The number of records.
    pub fn len(&self) -> (n: usize)
        ensures
            n == self.paths().len(),
            self.well_formed(),
    {
        self.records.len()
    }

    /// Whether there is a record for `path`.
    pub fn contains(&self, path: &str) -> (r: bool)
        ensures
            r == self@.contains_key(path@),
    {
        self.records.contains(path)
    }

    /// The source path at a position.
    pub(crate) fn path_at(&self, i: usize) -> (path: &str)
        requires
            i < self.paths().len(),
        ensures
            path@ == self.paths()[i as int],
    {
        self.records.name_at(i).as_str()
    }

    /// The record at a position, as far as it does not depend on the path.
    pub(crate) fn record_at(&self, i: usize) -> (record: &PersistedRecord)
        requires
            i < self.paths().len(),
            self.well_formed(),
        ensures
            record@.content == self@[self.paths()[i as int]].content,
            record@.references == self@[self.paths()[i as int]].references,
            record@.data == self@[self.paths()[i as int]].data,
    {
        let n = self.records.len();
        let record = self.records.value_at(i);
        proof {
            let path = self.paths()[i as int];
            assert(self.records@[self.records.names()[i as int]] == self.records.values()[i as int]@);
            assert(self.paths().to_set().contains(path));
        }
        record
    }

    /// The record for `path`.
    pub fn get(&self, path: &str) -> (r: Option<PersistedRecord>)
        ensures
            match r {
                Some(record) => self@.contains_key(path@) && record@ == self@[path@],
                None => !self@.contains_key(path@),
            },
    {
        match self.records.get(path) {
            Some(record) => Some(
                PersistedRecord {
                    path: String::from_str(path),
                    content: record.content.clone(),
                    references: clone_list(&record.references),
                    data: record.data.duplicate(),
                },
            ),
            None => None,
        }
    }

    /// Stores a record under its path, in place of the one that stood there.
    pub fn put(&mut self, record: PersistedRecord)
        ensures
            final(self)@ == old(self)@.insert(record@.path, record@),
    {
        let path = record.path.clone();
        self.records.insert(path, record);
        assert(self@ =~= old(self)@.insert(record@.path, record@));
    }

    /// Takes the record for `path` away, if there is one.
    pub fn remove(&mut self, path: &str)
        ensures
            final(self)@ == old(self)@.remove(path@),
    {
        let _ = self.records.remove(path);
        assert(self@ =~= old(self)@.remove(path@));
    }
}

} // verus!
