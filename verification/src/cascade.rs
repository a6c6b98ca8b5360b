//! Which documents fail when some documents have failed: a document that
//! depends on a failed document fails too, and so on along every chain of
//! dependencies. This module states that closure and proves what the cache
//! needs of it.

use vstd::prelude::*;
use crate::article::DocumentView;

verus! {

/// The document depends on a key of `bad`.
pub open spec fn hit(document: DocumentView, bad: Set<Seq<char>>) -> bool {
    exists|i: int|
        0 <= i < document.depends_on.len() && bad.contains(#[trigger] document.depends_on[i])
}

/// `key` fails within `rounds` rounds: it is one of `failed`, or it names a
/// document of `docs` that depends on a key that fails in fewer rounds.
pub open spec fn fails_within(
    docs: Map<Seq<char>, DocumentView>,
    failed: Set<Seq<char>>,
    key: Seq<char>,
    rounds: nat,
) -> bool
    decreases rounds,
{
    failed.contains(key) || (rounds > 0 && docs.contains_key(key) && exists|i: int|
        0 <= i < docs[key].depends_on.len() && fails_within(
            docs,
            failed,
            #[trigger] docs[key].depends_on[i],
            (rounds - 1) as nat,
        ))
}

/// `key` fails: it is one of `failed`, or a chain of dependencies leads from
/// it through documents of `docs` to one of `failed`.
pub open spec fn fails(
    docs: Map<Seq<char>, DocumentView>,
    failed: Set<Seq<char>>,
    key: Seq<char>,
) -> bool {
    exists|rounds: nat| fails_within(docs, failed, key, rounds)
}

/// The keys that fail within `rounds` rounds.
pub open spec fn failing_within(
    docs: Map<Seq<char>, DocumentView>,
    failed: Set<Seq<char>>,
    rounds: nat,
) -> Set<Seq<char>> {
    Set::new(|key: Seq<char>| fails_within(docs, failed, key, rounds))
}

/// The keys that fail.
pub open spec fn failing(docs: Map<Seq<char>, DocumentView>, failed: Set<Seq<char>>) -> Set<
    Seq<char>,
> {
    Set::new(|key: Seq<char>| fails(docs, failed, key))
}

/// One round more: the failed keys, and the documents that depend on a key
/// that failed within the rounds before.
pub proof fn lemma_fails_next(
    docs: Map<Seq<char>, DocumentView>,
    failed: Set<Seq<char>>,
    key: Seq<char>,
    rounds: nat,
)
    ensures
        fails_within(docs, failed, key, rounds + 1) <==> failed.contains(key) || (
        docs.contains_key(key) && hit(docs[key], failing_within(docs, failed, rounds))),
{
    let bad = failing_within(docs, failed, rounds);
    if fails_within(docs, failed, key, rounds + 1) && !failed.contains(key) {
        let i = choose|i: int|
            0 <= i < docs[key].depends_on.len() && fails_within(
                docs,
                failed,
                #[trigger] docs[key].depends_on[i],
                rounds,
            );
        assert(bad.contains(docs[key].depends_on[i]));
    }
    if docs.contains_key(key) && hit(docs[key], bad) {
        let i = choose|i: int|
            0 <= i < docs[key].depends_on.len() && bad.contains(#[trigger] docs[key].depends_on[i]);
        assert(fails_within(docs, failed, docs[key].depends_on[i], rounds));
    }
}

/// What fails within some rounds fails within more rounds.
pub proof fn lemma_fails_later(
    docs: Map<Seq<char>, DocumentView>,
    failed: Set<Seq<char>>,
    key: Seq<char>,
    rounds: nat,
    more: nat,
)
    requires
        fails_within(docs, failed, key, rounds),
        rounds <= more,
    ensures
        fails_within(docs, failed, key, more),
    decreases rounds,
{
    if !failed.contains(key) {
        let i = choose|i: int|
            0 <= i < docs[key].depends_on.len() && fails_within(
                docs,
                failed,
                #[trigger] docs[key].depends_on[i],
                (rounds - 1) as nat,
            );
        lemma_fails_later(docs, failed, docs[key].depends_on[i], (rounds - 1) as nat, (more - 1) as nat);
    }
}

/// Once a round adds nothing, no later round adds anything.
pub proof fn lemma_fails_settled(
    docs: Map<Seq<char>, DocumentView>,
    failed: Set<Seq<char>>,
    settled: nat,
    key: Seq<char>,
    rounds: nat,
)
    requires
        forall|k: Seq<char>|
            fails_within(docs, failed, k, settled + 1) ==> fails_within(docs, failed, k, settled),
        fails_within(docs, failed, key, rounds),
    ensures
        fails_within(docs, failed, key, settled),
    decreases rounds,
{
    if rounds <= settled {
        lemma_fails_later(docs, failed, key, rounds, settled);
    } else if !failed.contains(key) {
        let i = choose|i: int|
            0 <= i < docs[key].depends_on.len() && fails_within(
                docs,
                failed,
                #[trigger] docs[key].depends_on[i],
                (rounds - 1) as nat,
            );
        let dep = docs[key].depends_on[i];
        lemma_fails_settled(docs, failed, settled, dep, (rounds - 1) as nat);
        assert(fails_within(docs, failed, key, settled + 1));
    }
}

/// A failure cascades: where a document depends on a key that fails, at
/// whatever depth that failure was found, the document fails as well.
pub proof fn lemma_failure_cascades(
    docs: Map<Seq<char>, DocumentView>,
    failed: Set<Seq<char>>,
    document: Seq<char>,
    dependency: Seq<char>,
)
    requires
        docs.contains_key(document),
        docs[document].depends_on.contains(dependency),
        fails(docs, failed, dependency),
    ensures
        fails(docs, failed, document),
{
    let rounds = choose|rounds: nat| fails_within(docs, failed, dependency, rounds);
    let i = choose|i: int|
        0 <= i < docs[document].depends_on.len() && docs[document].depends_on[i] == dependency;
    assert(fails_within(docs, failed, docs[document].depends_on[i], rounds));
    assert(fails_within(docs, failed, document, rounds + 1));
}

/// Only failures make failures: a key that fails is one of `failed`, or it
/// names a document that depends on a key that fails.
pub proof fn lemma_failure_has_cause(
    docs: Map<Seq<char>, DocumentView>,
    failed: Set<Seq<char>>,
    key: Seq<char>,
)
    requires
        fails(docs, failed, key),
    ensures
        failed.contains(key) || (docs.contains_key(key) && hit(docs[key], failing(docs, failed))),
{
    let rounds = choose|rounds: nat| fails_within(docs, failed, key, rounds);
    if !failed.contains(key) {
        let i = choose|i: int|
            0 <= i < docs[key].depends_on.len() && fails_within(
                docs,
                failed,
                #[trigger] docs[key].depends_on[i],
                (rounds - 1) as nat,
            );
        assert(fails(docs, failed, docs[key].depends_on[i]));
        assert(failing(docs, failed).contains(docs[key].depends_on[i]));
    }
}

/// Where nothing has failed, nothing fails.
pub proof fn lemma_nothing_fails(docs: Map<Seq<char>, DocumentView>, key: Seq<char>, rounds: nat)
    ensures
        !fails_within(docs, Set::<Seq<char>>::empty(), key, rounds),
    decreases rounds,
{
    if rounds > 0 && docs.contains_key(key) {
        assert forall|i: int| 0 <= i < docs[key].depends_on.len() implies !fails_within(
            docs,
            Set::<Seq<char>>::empty(),
            #[trigger] docs[key].depends_on[i],
            (rounds - 1) as nat,
        ) by {
            lemma_nothing_fails(docs, docs[key].depends_on[i], (rounds - 1) as nat);
        }
    }
}

} // verus!
