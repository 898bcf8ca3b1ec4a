//! The data model: bookmarks, the parsed language-model reply, and the
//! run-level counters.

use vstd::prelude::*;

verus! {

/// One saved link.  `tags` stays absent until enrichment succeeds;
/// `date_added` is the creation time in seconds since the epoch, absent when
/// the source markup had none.
pub struct Bookmark {
    pub url: String,
    pub title: String,
    pub tags: Option<Vec<String>>,
    pub date_added: Option<i64>,
}

/// The mathematical value of a `Bookmark`.
pub struct BookmarkV {
    pub url: Seq<char>,
    pub title: Seq<char>,
    pub tags: Option<Seq<Seq<char>>>,
    pub date_added: Option<int>,
}

impl View for Bookmark {
    type V = BookmarkV;

    open spec fn view(&self) -> BookmarkV {
        BookmarkV {
            url: self.url@,
            title: self.title@,
            tags: match self.tags {
                Some(v) => Some(v.deep_view()),
                None => None,
            },
            date_added: match self.date_added {
                Some(d) => Some(d as int),
                None => None,
            },
        }
    }
}

/// The parsed result of one successful language-model call: a title and one
/// to five tags.
pub struct AiResponse {
    pub title: String,
    pub tags: Vec<String>,
}

/// The mathematical value of an `AiResponse`.
pub struct AiResponseV {
    pub title: Seq<char>,
    pub tags: Seq<Seq<char>>,
}

impl View for AiResponse {
    type V = AiResponseV;

    open spec fn view(&self) -> AiResponseV {
        AiResponseV { title: self.title@, tags: self.tags.deep_view() }
    }
}

/// Run-level counters: bookmarks attempted, successfully enriched, and
/// failed (invalid URL or enrichment exhausted its retries).
#[derive(Debug, PartialEq, Eq, Structural)]
pub struct Stats {
    pub total: usize,
    pub updated: usize,
    pub failed: usize,
}

impl Stats {
    pub fn new() -> (s: Stats)
        ensures
            s.total == 0,
            s.updated == 0,
            s.failed == 0,
    {
        Stats { total: 0, updated: 0, failed: 0 }
    }

    /// Count one bookmark as attempted.
    pub fn note_attempt(&mut self)
        requires
            old(self).total < usize::MAX,
        ensures
            final(self).total == old(self).total + 1,
            final(self).updated == old(self).updated,
            final(self).failed == old(self).failed,
    {
        self.total = self.total + 1;
    }

    /// Count one bookmark as successfully enriched.
    pub fn note_updated(&mut self)
        requires
            old(self).updated < usize::MAX,
        ensures
            final(self).updated == old(self).updated + 1,
            final(self).total == old(self).total,
            final(self).failed == old(self).failed,
    {
        self.updated = self.updated + 1;
    }

    /// Count one bookmark as failed.
    pub fn note_failed(&mut self)
        requires
            old(self).failed < usize::MAX,
        ensures
            final(self).failed == old(self).failed + 1,
            final(self).total == old(self).total,
            final(self).updated == old(self).updated,
    {
        self.failed = self.failed + 1;
    }
}

} // verus!
