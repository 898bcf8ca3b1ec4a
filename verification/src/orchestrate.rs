//! Batch orchestration: iterate the bookmark collection in order, validate
//! each URL, apply enrichment outcomes, keep the run statistics, and decide
//! when a progress checkpoint is due.

use crate::model::{AiResponse, AiResponseV, Bookmark, BookmarkV, Stats};
use crate::weburl::{spec_url_valid, validate_url};
use vstd::prelude::*;

verus! {

/// Bookmarks per batch: a checkpoint is written before processing every
/// positive multiple of this index.
pub const BATCH_SIZE: usize = 10;

/// Seconds to pause at a batch boundary before the checkpoint.
pub const BATCH_INTERVAL_SECS: u64 = 5;

/// Is a checkpoint due immediately before processing index `idx`?
pub fn checkpoint_due(idx: usize) -> (r: bool)
    ensures
        r == (idx > 0 && idx % BATCH_SIZE == 0),
{
    idx > 0 && idx % BATCH_SIZE == 0
}

/// A bookmark after a successful enrichment: the title and the tags are
/// replaced together; the URL and the date stay.
pub open spec fn spec_enriched(b: BookmarkV, a: AiResponseV) -> BookmarkV {
    BookmarkV { url: b.url, title: a.title, tags: Some(a.tags), date_added: b.date_added }
}

/// Overwrite a bookmark's title and tags together from one successful
/// response; nothing else changes.
pub fn apply_enrichment(b: &mut Bookmark, resp: AiResponse)
    ensures
        final(b)@ == spec_enriched(old(b)@, resp@),
{
    b.title = resp.title;
    b.tags = Some(resp.tags);
}

pub open spec fn oc_view(oc: Option<AiResponse>) -> Option<AiResponseV> {
    match oc {
        Some(a) => Some(a@),
        None => None,
    }
}

/// One bookmark's outcome: enriched when its URL is valid and the client
/// produced a response; untouched otherwise.
pub open spec fn outcome_applied(old_b: BookmarkV, new_b: BookmarkV, oc: Option<AiResponseV>) -> bool {
    if spec_url_valid(old_b.url) {
        match oc {
            Some(a) => new_b == spec_enriched(old_b, a),
            None => new_b == old_b,
        }
    } else {
        new_b == old_b
    }
}

/// Does index `i` count as successfully updated?
pub open spec fn is_success(b: Bookmark, oc: Option<AiResponse>) -> bool {
    spec_url_valid(b.url@) && oc is Some
}

/// How many of the first `n` bookmarks are successfully updated.
pub open spec fn count_updated(bs: Seq<Bookmark>, ocs: Seq<Option<AiResponse>>, n: int) -> int
    decreases n,
{
    if n <= 0 {
        0
    } else {
        count_updated(bs, ocs, n - 1) + if is_success(bs[n - 1], ocs[n - 1]) {
            1int
        } else {
            0int
        }
    }
}

proof fn lemma_count_updated_bounds(bs: Seq<Bookmark>, ocs: Seq<Option<AiResponse>>, n: int)
    requires
        n >= 0,
    ensures
        0 <= count_updated(bs, ocs, n) <= n,
    decreases n,
{
    if n > 0 {
        lemma_count_updated_bounds(bs, ocs, n - 1);
    }
}

/// The indices before which a checkpoint is written, for a run over `n`
/// bookmarks: the positive multiples of the batch size below `n`, in order.
pub open spec fn checkpoint_indices(n: int) -> Seq<int>
    decreases n,
{
    if n <= 0 {
        Seq::<int>::empty()
    } else {
        checkpoint_indices(n - 1) + (if n - 1 > 0 && (n - 1) % (BATCH_SIZE as int) == 0 {
            seq![n - 1]
        } else {
            Seq::<int>::empty()
        })
    }
}

/// The whole batch loop, with the enrichment outcomes given: walk the
/// collection in order, count every bookmark exactly once, leave invalid
/// URLs and failed enrichments untouched, replace title and tags together on
/// success, and report the checkpoint boundaries that were crossed.
pub fn process_with_outcomes(bookmarks: Vec<Bookmark>, outcomes: Vec<Option<AiResponse>>) -> (r: (
    Vec<Bookmark>,
    Stats,
    Vec<usize>,
))
    requires
        bookmarks@.len() == outcomes@.len(),
    ensures
        r.0@.len() == bookmarks@.len(),
        forall|i: int|
            0 <= i < bookmarks@.len() ==> outcome_applied(
                bookmarks@[i]@,
                #[trigger] r.0@[i]@,
                oc_view(outcomes@[i]),
            ),
        r.1.total == bookmarks@.len(),
        r.1.updated == count_updated(bookmarks@, outcomes@, bookmarks@.len() as int),
        r.1.failed == bookmarks@.len() - count_updated(
            bookmarks@,
            outcomes@,
            bookmarks@.len() as int,
        ),
        r.2@.map_values(|u: usize| u as int) == checkpoint_indices(bookmarks@.len() as int),
{
    let ghost obs = bookmarks@;
    let ghost oov = outcomes@;
    let mut bmks = bookmarks;
    let mut ocs = outcomes;
    let n = bmks.len();
    let mut out: Vec<Bookmark> = Vec::new();
    let mut cks: Vec<usize> = Vec::new();
    let mut stats = Stats::new();
    let mut idx: usize = 0;
    proof {
        assert(obs.skip(0) =~= obs);
        assert(oov.skip(0) =~= oov);
        assert(cks@.map_values(|u: usize| u as int) =~= checkpoint_indices(0));
    }
    while idx < n
        invariant
            idx <= n,
            n == obs.len(),
            oov.len() == n,
            bmks@ == obs.skip(idx as int),
            ocs@ == oov.skip(idx as int),
            out@.len() == idx,
            forall|j: int|
                0 <= j < idx ==> outcome_applied(obs[j]@, #[trigger] out@[j]@, oc_view(oov[j])),
            stats.total == idx,
            stats.updated == count_updated(obs, oov, idx as int),
            stats.updated <= idx,
            stats.failed == idx - count_updated(obs, oov, idx as int),
            cks@.map_values(|u: usize| u as int) == checkpoint_indices(idx as int),
        decreases n - idx,
    {
        stats.note_attempt();
        if checkpoint_due(idx) {
            cks.push(idx);
            proof {
                assert(cks@.map_values(|u: usize| u as int) =~= checkpoint_indices(idx + 1));
            }
        } else {
            proof {
                assert(cks@.map_values(|u: usize| u as int) =~= checkpoint_indices(idx + 1));
            }
        }
        let mut b = bmks.remove(0);
        let oc = ocs.remove(0);
        proof {
            assert(obs.skip(idx as int)[0] == obs[idx as int]);
            assert(oov.skip(idx as int)[0] == oov[idx as int]);
            assert(obs.skip(idx as int).remove(0) =~= obs.skip(idx + 1));
            assert(oov.skip(idx as int).remove(0) =~= oov.skip(idx + 1));
            lemma_count_updated_bounds(obs, oov, idx as int);
        }
        let valid = validate_url(b.url.as_str());
        if valid {
            match oc {
                Some(resp) => {
                    apply_enrichment(&mut b, resp);
                    stats.note_updated();
                },
                None => {
                    stats.note_failed();
                },
            }
        } else {
            stats.note_failed();
        }
        out.push(b);
        idx = idx + 1;
    }
    proof {
        lemma_count_updated_bounds(obs, oov, n as int);
    }
    (out, stats, cks)
}

} // verus!
