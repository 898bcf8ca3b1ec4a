//! Generating the bookmark export markup from the bookmark collection, and
//! the law that parsing what was generated gives the collection back.

use crate::markup::{anchor_title, with_href, AnchorV};
use crate::model::{Bookmark, BookmarkV};
use crate::numbers::{i64_rep, i64_to_string};
use crate::text::{collapse_ws_spec, nfkc_of};
use vstd::prelude::*;

verus! {

/// The tag list joined with ", ".
pub open spec fn join_tags(tags: Seq<Seq<char>>) -> Seq<char>
    decreases tags.len(),
{
    if tags.len() == 0 {
        Seq::<char>::empty()
    } else if tags.len() == 1 {
        tags[0]
    } else {
        join_tags(tags.drop_last()) + ", "@ + tags.last()
    }
}

/// The TAGS attribute value: the joined tags, or empty when absent.
pub open spec fn tags_attr(tags: Option<Seq<Seq<char>>>) -> Seq<char> {
    match tags {
        Some(ts) => join_tags(ts),
        None => Seq::<char>::empty(),
    }
}

/// The ADD_DATE attribute value: the timestamp in decimal, or empty when
/// absent.
pub open spec fn date_attr(d: Option<int>) -> Seq<char> {
    match d {
        Some(ts) => i64_rep(ts),
        None => Seq::<char>::empty(),
    }
}

/// One generated list entry.
pub open spec fn entry_line(b: BookmarkV) -> Seq<char> {
    "    <DT><A HREF=\""@ + b.url + "\" ADD_DATE=\""@ + date_attr(b.date_added) + "\" TAGS=\""@
        + tags_attr(b.tags) + "\" TITLE=\""@ + b.title + "\" SEARCH_TERMS=\""@ + b.title + ", "@
        + tags_attr(b.tags) + "\">"@ + b.title + "</A>\n"@
}

/// The fixed document preamble.
pub open spec fn preamble() -> Seq<char> {
    "<!DOCTYPE NETSCAPE-Bookmark-file-1>\n"@
        + "<META HTTP-EQUIV=\"Content-Type\" CONTENT=\"text/html; charset=UTF-8\">\n"@
        + "<META NAME=\"viewport\" content=\"width=device-width, initial-scale=1\">\n"@
        + "<TITLE>Bookmarks</TITLE>\n"@ + "<H1>Bookmarks</H1>\n"@ + "<DL><p>\n"@
}

/// All entry lines, in collection order.
pub open spec fn entry_lines(bs: Seq<BookmarkV>) -> Seq<char>
    decreases bs.len(),
{
    if bs.len() == 0 {
        Seq::<char>::empty()
    } else {
        entry_lines(bs.drop_last()) + entry_line(bs.last())
    }
}

/// The whole generated document.
pub open spec fn gen_doc(bs: Seq<BookmarkV>) -> Seq<char> {
    preamble() + entry_lines(bs) + "</DL><p>"@
}

pub open spec fn bviews(bs: Seq<Bookmark>) -> Seq<BookmarkV> {
    bs.map_values(|b: Bookmark| b@)
}

fn join_tag_vec(tags: &Vec<String>) -> (r: String)
    ensures
        r@ == join_tags(tags.deep_view()),
{
    let ghost tv = tags.deep_view();
    let mut out = String::new();
    let n = tags.len();
    let mut i: usize = 0;
    proof {
        assert(tv.take(0) =~= Seq::<Seq<char>>::empty());
    }
    while i < n
        invariant
            i <= n,
            n == tags@.len(),
            tv == tags.deep_view(),
            tv.len() == n,
            forall|k: int| 0 <= k < n ==> tags@[k]@ == tv[k],
            out@ == join_tags(tv.take(i as int)),
        decreases n - i,
    {
        proof {
            assert(tv.take(i + 1).drop_last() =~= tv.take(i as int));
            assert(tv.take(i + 1).last() == tv[i as int]);
        }
        if i > 0 {
            out.append(", ");
        }
        out.append(tags[i].as_str());
        proof {
            if i == 0 {
                assert(tv.take(1)[0] == tv[0]);
                assert(out@ =~= join_tags(tv.take(1)));
            } else {
                assert(out@ =~= join_tags(tv.take(i + 1)));
            }
        }
        i = i + 1;
    }
    proof {
        assert(tv.take(n as int) =~= tv);
    }
    out
}

/// Serialize the bookmark collection back into the export markup: the fixed
/// preamble, one entry per bookmark in order, and the closing list marker.
/// Absent dates and tag lists render as empty attribute values.
pub fn generate_bookmarks_html(bookmarks: &Vec<Bookmark>) -> (r: String)
    ensures
        r@ == gen_doc(bviews(bookmarks@)),
{
    let ghost bv = bviews(bookmarks@);
    let mut out = String::new();
    out.append("<!DOCTYPE NETSCAPE-Bookmark-file-1>\n");
    out.append("<META HTTP-EQUIV=\"Content-Type\" CONTENT=\"text/html; charset=UTF-8\">\n");
    out.append("<META NAME=\"viewport\" content=\"width=device-width, initial-scale=1\">\n");
    out.append("<TITLE>Bookmarks</TITLE>\n");
    out.append("<H1>Bookmarks</H1>\n");
    out.append("<DL><p>\n");
    proof {
        assert(bv.take(0) =~= Seq::<BookmarkV>::empty());
        assert(out@ =~= preamble() + entry_lines(bv.take(0)));
    }
    let n = bookmarks.len();
    let mut i: usize = 0;
    while i < n
        invariant
            i <= n,
            n == bookmarks@.len(),
            bv == bviews(bookmarks@),
            bv.len() == n,
            forall|k: int| 0 <= k < n ==> bookmarks@[k]@ == bv[k],
            out@ == preamble() + entry_lines(bv.take(i as int)),
        decreases n - i,
    {
        proof {
            assert(bv.take(i + 1).drop_last() =~= bv.take(i as int));
            assert(bv.take(i + 1).last() == bv[i as int]);
        }
        let b = &bookmarks[i];
        out.append("    <DT><A HREF=\"");
        out.append(b.url.as_str());
        out.append("\" ADD_DATE=\"");
        let date_str = match b.date_added {
            Some(ts) => i64_to_string(ts),
            None => String::new(),
        };
        out.append(date_str.as_str());
        out.append("\" TAGS=\"");
        let tags_str = match &b.tags {
            Some(ts) => join_tag_vec(ts),
            None => String::new(),
        };
        out.append(tags_str.as_str());
        out.append("\" TITLE=\"");
        out.append(b.title.as_str());
        out.append("\" SEARCH_TERMS=\"");
        out.append(b.title.as_str());
        out.append(", ");
        out.append(tags_str.as_str());
        out.append("\">");
        out.append(b.title.as_str());
        out.append("</A>\n");
        proof {
            assert(date_str@ == date_attr(bv[i as int].date_added));
            assert(tags_str@ == tags_attr(bv[i as int].tags));
            assert(out@ =~= preamble() + entry_lines(bv.take(i + 1)));
        }
        i = i + 1;
    }
    out.append("</DL><p>");
    proof {
        assert(bv.take(n as int) =~= bv);
        assert(out@ =~= gen_doc(bv));
    }
    out
}

/// The anchor triple that the generated entry for a bookmark encodes: its
/// URL as the href, its title as the visible text, and the date attribute's
/// text.
pub open spec fn written_anchor(b: BookmarkV) -> AnchorV {
    (Some(b.url), b.title, Some(date_attr(b.date_added)))
}

/// The deterministic part of what the parser makes of a sequence of anchors:
/// for each anchor with an href, its URL, its title, and its (always absent)
/// tag list.
pub open spec fn reparsed_core(avs: Seq<AnchorV>) -> Seq<
    (Seq<char>, Seq<char>, Option<Seq<Seq<char>>>),
> {
    with_href(avs).map_values(
        |a: AnchorV| (a.0->0, anchor_title(a.1, a.0->0), Option::<Seq<Seq<char>>>::None),
    )
}

/// A title that survives the generate-then-parse round trip unchanged: it is
/// non-empty, already whitespace-collapsed, and NFKC-fixed.
pub open spec fn round_trippable_title(t: Seq<char>) -> bool {
    t.len() > 0 && collapse_ws_spec(t) == t && nfkc_of(t) == t
}

proof fn lemma_with_href_all_some(avs: Seq<AnchorV>)
    requires
        forall|i: int| 0 <= i < avs.len() ==> (#[trigger] avs[i]).0 is Some,
    ensures
        with_href(avs) == avs,
    decreases avs.len(),
{
    if avs.len() > 0 {
        let rest = avs.drop_last();
        assert(forall|i: int| 0 <= i < rest.len() ==> rest[i] == avs[i]);
        lemma_with_href_all_some(rest);
        assert(with_href(avs) =~= avs);
    }
}

/// Law: generating markup from a collection and re-reading the anchors it
/// writes yields, entry for entry, the same URL and the same title, with the
/// tags dropped — for every collection whose titles are round-trippable
/// (non-empty, collapsed, NFKC-fixed).  The markup reader itself is outside
/// the library; this law covers every decision the library makes on the way
/// out and back in.
pub proof fn lemma_generate_reparse_round_trip(bs: Seq<BookmarkV>)
    ensures
        (forall|i: int| 0 <= i < bs.len() ==> round_trippable_title(#[trigger] bs[i].title))
            ==> reparsed_core(bs.map_values(|b: BookmarkV| written_anchor(b)))
            == bs.map_values(
            |b: BookmarkV| (b.url, b.title, Option::<Seq<Seq<char>>>::None),
        ),
{
    if forall|i: int| 0 <= i < bs.len() ==> round_trippable_title(#[trigger] bs[i].title) {
        let avs = bs.map_values(|b: BookmarkV| written_anchor(b));
        assert(forall|i: int| 0 <= i < avs.len() ==> (#[trigger] avs[i]).0 is Some);
        lemma_with_href_all_some(avs);
        let lhs = reparsed_core(avs);
        let rhs = bs.map_values(|b: BookmarkV| (b.url, b.title, Option::<Seq<Seq<char>>>::None));
        assert forall|i: int| 0 <= i < bs.len() implies lhs[i] == rhs[i] by {
            let b = bs[i];
            assert(avs[i] == written_anchor(b));
            assert(round_trippable_title(b.title));
            assert(collapse_ws_spec(b.title).len() > 0);
            assert(anchor_title(b.title, b.url) == b.title);
        }
        assert(lhs =~= rhs);
    }
}

} // verus!
