//! Parsing the bookmark export markup into the bookmark collection.
//!
//! The scraper crate reads the document and hands over, for every anchor
//! element, the three pieces the library uses: the link target, the visible
//! text and the add-date attribute.  Everything decided about those values
//! is verified code.

use crate::model::{Bookmark, BookmarkV};
use crate::numbers::{is_i64_literal, i64_literal_val, parse_i64};
use crate::text::{clean_title, clean_title_spec, collapse_ws, collapse_ws_spec};
use crate::weburl::{spec_title_from_url, title_from_url};
use vstd::prelude::*;

verus! {

/// One anchor element as the markup reader hands it over: the href
/// attribute, the visible text, and the add-date attribute.
pub struct RawAnchor {
    pub href: Option<String>,
    pub text: String,
    pub add_date: Option<String>,
}

/// The mathematical value of a `RawAnchor`.
pub type AnchorV = (Option<Seq<char>>, Seq<char>, Option<Seq<char>>);

impl View for RawAnchor {
    type V = AnchorV;

    open spec fn view(&self) -> AnchorV {
        (
            match self.href {
                Some(ref h) => Some(h@),
                None => None,
            },
            self.text@,
            match self.add_date {
                Some(ref d) => Some(d@),
                None => None,
            },
        )
    }
}

/// What the outside call computes: the anchors of a markup document, in
/// document order, each as (href, visible text, add-date attribute).
pub uninterp spec fn anchors_of(html: Seq<char>) -> Seq<AnchorV>;

/// Relies on the scraper crate: Html::parse_document, Selector::parse with
/// the fixed selector "a" (which always parses), ElementRef::text and
/// Element::attr; the extraction is a function of the document text alone.
#[verifier::external_body]
fn extract_anchors(html: &str) -> (r: Vec<RawAnchor>)
    ensures
        r@.len() == anchors_of(html@).len(),
        forall|i: int| 0 <= i < r@.len() ==> r@[i]@ == anchors_of(html@)[i],
{
    let document = scraper::Html::parse_document(html);
    let selector = scraper::Selector::parse("a").unwrap();
    document
        .select(&selector)
        .map(|element| RawAnchor {
            href: element.value().attr("href").map(|s| s.to_string()),
            text: element.text().collect::<String>(),
            add_date: element.value().attr("add_date").map(|s| s.to_string()),
        })
        .collect()
}

/// What the outside call computes: whether a seconds-since-epoch value is
/// inside the range the chrono crate can represent as a timestamp.
pub uninterp spec fn ts_valid(ts: int) -> bool;

/// Relies on chrono::DateTime::<Utc>::from_timestamp: it returns Some
/// exactly when the number of seconds is in chrono's representable range,
/// a function of the value alone.
#[verifier::external_body]
fn timestamp_in_range(ts: i64) -> (r: bool)
    ensures
        r == ts_valid(ts as int),
{
    chrono::DateTime::<chrono::Utc>::from_timestamp(ts, 0).is_some()
}

/// Relies on chrono::Utc::now for the current wall-clock time; nothing is
/// promised of the value.
#[verifier::external_body]
fn current_timestamp() -> i64 {
    chrono::Utc::now().timestamp()
}

/// The literal fallback title, in the tool's working language.
pub open spec fn untitled() -> Seq<char> {
    "无标题"@
}

/// The title a parsed anchor gets: the cleaned visible text when there is
/// any, else a title derived from the URL, else the literal fallback.
pub open spec fn anchor_title(text: Seq<char>, href: Seq<char>) -> Seq<char> {
    if collapse_ws_spec(text).len() > 0 {
        clean_title_spec(text)
    } else {
        match spec_title_from_url(href) {
            Some(t) => t,
            None => untitled(),
        }
    }
}

/// How a parsed bookmark relates to the anchor it came from.  The date is
/// pinned except when the attribute holds a parseable but out-of-range
/// timestamp, where the parser substitutes the current time.
pub open spec fn bookmark_matches_anchor(bv: BookmarkV, av: AnchorV) -> bool {
    &&& av.0 is Some
    &&& bv.url == av.0->0
    &&& bv.title == anchor_title(av.1, av.0->0)
    &&& bv.tags is None
    &&& match av.2 {
        None => bv.date_added is None,
        Some(ds) => if is_i64_literal(ds) {
            if ts_valid(i64_literal_val(ds)) {
                bv.date_added == Some(i64_literal_val(ds))
            } else {
                bv.date_added is Some
            }
        } else {
            bv.date_added is None
        },
    }
}

/// The anchors that become bookmarks: those with an href attribute, in
/// order.
pub open spec fn with_href(avs: Seq<AnchorV>) -> Seq<AnchorV>
    decreases avs.len(),
{
    if avs.len() == 0 {
        avs
    } else {
        let rest = with_href(avs.drop_last());
        if avs.last().0 is Some {
            rest.push(avs.last())
        } else {
            rest
        }
    }
}

/// Turn one anchor into a bookmark; an anchor without an href attribute is
/// skipped entirely.
pub fn bookmark_from_anchor(a: &RawAnchor) -> (r: Option<Bookmark>)
    ensures
        match r {
            Some(b) => bookmark_matches_anchor(b@, a@),
            None => a@.0 is None,
        },
{
    let url: &String = match &a.href {
        Some(u) => u,
        None => { return None; },
    };
    let collapsed = collapse_ws(a.text.as_str());
    let title = if collapsed.as_str().is_empty() {
        match title_from_url(url.as_str()) {
            Some(t) => t,
            None => "无标题".to_owned(),
        }
    } else {
        clean_title(a.text.as_str())
    };
    let date_added = match &a.add_date {
        None => None,
        Some(ds) => match parse_i64(ds.as_str()) {
            None => None,
            Some(ts) => if timestamp_in_range(ts) {
                Some(ts)
            } else {
                Some(current_timestamp())
            },
        },
    };
    Some(Bookmark { url: url.clone(), title, tags: None, date_added })
}

/// Parse the bookmark export markup: every anchor with an href becomes a
/// bookmark, in document order; missing text and malformed dates degrade to
/// the documented fallbacks instead of failing.
pub fn parse_bookmarks_html(html: &str) -> (r: Vec<Bookmark>)
    ensures
        r@.len() == with_href(anchors_of(html@)).len(),
        forall|i: int|
            0 <= i < r@.len() ==> bookmark_matches_anchor(
                #[trigger] r@[i]@,
                with_href(anchors_of(html@))[i],
            ),
{
    let anchors = extract_anchors(html);
    let ghost avs = anchors_of(html@);
    let n = anchors.len();
    let mut out: Vec<Bookmark> = Vec::new();
    let mut i: usize = 0;
    proof {
        assert(avs.take(0) =~= Seq::<AnchorV>::empty());
    }
    while i < n
        invariant
            i <= n,
            n == anchors@.len(),
            avs == anchors_of(html@),
            avs.len() == n,
            forall|k: int| 0 <= k < n ==> anchors@[k]@ == avs[k],
            out@.len() == with_href(avs.take(i as int)).len(),
            forall|j: int|
                0 <= j < out@.len() ==> bookmark_matches_anchor(
                    #[trigger] out@[j]@,
                    with_href(avs.take(i as int))[j],
                ),
        decreases n - i,
    {
        proof {
            assert(avs.take(i + 1).drop_last() =~= avs.take(i as int));
            assert(avs.take(i + 1).last() == avs[i as int]);
        }
        match bookmark_from_anchor(&anchors[i]) {
            Some(b) => {
                out.push(b);
            },
            None => {},
        }
        i = i + 1;
    }
    proof {
        assert(avs.take(n as int) =~= avs);
    }
    out
}

} // verus!
