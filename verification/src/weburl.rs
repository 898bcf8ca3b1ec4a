//! URL validation and URL-derived fallback titles.
//!
//! The url crate does the parsing; the library reads the parsed components
//! as plain values and makes every decision about them in verified code.

use crate::text::str_eq;
use vstd::prelude::*;

verus! {

/// The components of a parsed absolute URL that the library reads: the
/// scheme, the host (empty when the URL has none) and the path segments
/// (absent for URLs that cannot be a base).
pub struct UrlParts {
    pub scheme: String,
    pub host: String,
    pub segments: Option<Vec<String>>,
}

impl View for UrlParts {
    type V = (Seq<char>, Seq<char>, Option<Seq<Seq<char>>>);

    open spec fn view(&self) -> (Seq<char>, Seq<char>, Option<Seq<Seq<char>>>) {
        (
            self.scheme@,
            self.host@,
            match self.segments {
                Some(v) => Some(v.deep_view()),
                None => None,
            },
        )
    }
}

/// What the outside call computes: the scheme, host and path segments that
/// the url crate's parser derives from a candidate URL string, or nothing
/// when the string is not a well-formed absolute URL.
pub uninterp spec fn url_parts_of(s: Seq<char>) -> Option<
    (Seq<char>, Seq<char>, Option<Seq<Seq<char>>>),
>;

/// Relies on url::Url::parse and the accessors Url::scheme (always
/// lower-cased by the parser), Url::host_str and Url::path_segments; the
/// parse is a function of the input string alone.
#[verifier::external_body]
fn parse_url_parts(s: &str) -> (r: Option<UrlParts>)
    ensures
        match r {
            Some(p) => url_parts_of(s@) == Some(p@),
            None => url_parts_of(s@) is None,
        },
{
    match url::Url::parse(s) {
        Ok(u) => Some(
            UrlParts {
                scheme: u.scheme().to_string(),
                host: u.host_str().unwrap_or("").to_string(),
                segments: u.path_segments().map(|it| it.map(|seg| seg.to_string()).collect()),
            },
        ),
        Err(_) => None,
    }
}

/// A fetchable web address: it parses as an absolute URL, its scheme is
/// `http` or `https`, and its host is non-empty.
pub open spec fn spec_url_valid(s: Seq<char>) -> bool {
    match url_parts_of(s) {
        Some(p) => (p.0 == "http"@ || p.0 == "https"@) && p.1.len() > 0,
        None => false,
    }
}

/// Decide whether a bookmark URL is worth sending to the enrichment service.
pub fn validate_url(u: &str) -> (r: bool)
    ensures
        r == spec_url_valid(u@),
{
    match parse_url_parts(u) {
        Some(p) => {
            let scheme_ok = str_eq(p.scheme.as_str(), "http") || str_eq(p.scheme.as_str(), "https");
            scheme_ok && !p.host.as_str().is_empty()
        },
        None => false,
    }
}

/// The last non-empty path segment, scanning from the end.
pub open spec fn last_nonempty_segment(segs: Seq<Seq<char>>) -> Option<Seq<char>>
    decreases segs.len(),
{
    if segs.len() == 0 {
        None
    } else if segs.last().len() > 0 {
        Some(segs.last())
    } else {
        last_nonempty_segment(segs.drop_last())
    }
}

pub open spec fn hyphens_to_spaces(t: Seq<char>) -> Seq<char> {
    t.map_values(|c: char| if c == '-' { ' ' } else { c })
}

/// The title derived from a URL: the last non-empty path segment with
/// hyphens replaced by spaces, when the URL parses and has one.
pub open spec fn spec_title_from_url(s: Seq<char>) -> Option<Seq<char>> {
    match url_parts_of(s) {
        Some(p) => match p.2 {
            Some(segs) => match last_nonempty_segment(segs) {
                Some(seg) => Some(hyphens_to_spaces(seg)),
                None => None,
            },
            None => None,
        },
        None => None,
    }
}

fn replace_hyphens(t: &str) -> (r: String)
    ensures
        r@ == hyphens_to_spaces(t@),
{
    let n = t.unicode_len();
    let mut out = String::new();
    let mut i: usize = 0;
    while i < n
        invariant
            i <= n,
            n == t@.len(),
            out@ == hyphens_to_spaces(t@.take(i as int)),
        decreases n - i,
    {
        let c = t.get_char(i);
        if c == '-' {
            out.append(" ");
            proof {
                reveal_strlit(" ");
            }
        } else {
            out.append(t.substring_char(i, i + 1));
        }
        proof {
            assert(out@ =~= hyphens_to_spaces(t@.take(i + 1)));
        }
        i = i + 1;
    }
    proof {
        assert(t@.take(n as int) =~= t@);
    }
    out
}

/// Derive a fallback title from a bookmark URL when the source markup has no
/// visible link text.
pub fn title_from_url(u: &str) -> (r: Option<String>)
    ensures
        match r {
            Some(t) => spec_title_from_url(u@) == Some(t@),
            None => spec_title_from_url(u@) is None,
        },
{
    match parse_url_parts(u) {
        Some(p) => {
            let ghost pv = p@;
            proof {
                assert(url_parts_of(u@) == Some(pv));
            }
            match p.segments {
                Some(segs) => {
                let ghost segv = segs.deep_view();
                proof {
                    assert(pv.2 == Some(segv));
                }
                let mut j: usize = segs.len();
                proof {
                    assert(segv.take(j as int) =~= segv);
                }
                while j > 0
                    invariant
                        j <= segs.len(),
                        url_parts_of(u@) == Some(pv),
                        pv.2 == Some(segv),
                        segv == segs.deep_view(),
                        segv.len() == segs.len(),
                        forall|k: int| 0 <= k < segs.len() ==> segv[k] == segs[k]@,
                        last_nonempty_segment(segv) == last_nonempty_segment(
                            segv.take(j as int),
                        ),
                    decreases j,
                {
                    let seg = &segs[j - 1];
                    proof {
                        assert(segv.take(j as int).last() == segv[j - 1]);
                        assert(segv.take(j as int).drop_last() =~= segv.take(j - 1));
                    }
                    if !seg.as_str().is_empty() {
                        proof {
                            assert(seg@ == segv[j - 1]);
                            assert(last_nonempty_segment(segv.take(j as int)) == Some(
                                segv[j - 1],
                            ));
                            assert(last_nonempty_segment(segv) == Some(seg@));
                        }
                        let replaced = replace_hyphens(seg.as_str());
                        return Some(replaced);
                    }
                    j = j - 1;
                }
                proof {
                    assert(segv.take(0) =~= Seq::<Seq<char>>::empty());
                }
                None
                },
                None => None,
            }
        },
        None => None,
    }
}

} // verus!
