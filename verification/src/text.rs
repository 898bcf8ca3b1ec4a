//! Title normalization: whitespace collapsing and Unicode compatibility
//! normalization, plus small string utilities shared by the other modules.

use unicode_normalization::UnicodeNormalization;
use vstd::prelude::*;

verus! {

/// The characters Rust's `char::is_whitespace` recognizes: the Unicode
/// `White_Space` property.
pub open spec fn is_ws_char(c: char) -> bool {
    let u = c as u32;
    u == 0x09 || u == 0x0A || u == 0x0B || u == 0x0C || u == 0x0D || u == 0x20 || u == 0x85
        || u == 0xA0 || u == 0x1680 || (0x2000 <= u && u <= 0x200A) || u == 0x2028 || u == 0x2029
        || u == 0x202F || u == 0x205F || u == 0x3000
}

pub fn ws_char(c: char) -> (r: bool)
    ensures
        r == is_ws_char(c),
{
    let u = c as u32;
    u == 0x09 || u == 0x0A || u == 0x0B || u == 0x0C || u == 0x0D || u == 0x20 || u == 0x85
        || u == 0xA0 || u == 0x1680 || (0x2000 <= u && u <= 0x200A) || u == 0x2028 || u == 0x2029
        || u == 0x202F || u == 0x205F || u == 0x3000
}

/// One step of whitespace collapsing: a whitespace character becomes a single
/// space, but only when the output so far is non-empty and does not already
/// end with one; every other character is kept as it is.
pub open spec fn collapse_step(acc: Seq<char>, c: char) -> Seq<char> {
    if is_ws_char(c) {
        if acc.len() > 0 && acc.last() != ' ' {
            acc.push(' ')
        } else {
            acc
        }
    } else {
        acc.push(c)
    }
}

pub open spec fn collapse_loop(s: Seq<char>) -> Seq<char>
    decreases s.len(),
{
    if s.len() == 0 {
        Seq::<char>::empty()
    } else {
        collapse_step(collapse_loop(s.drop_last()), s.last())
    }
}

/// Whitespace collapsing: trim leading and trailing whitespace and replace
/// every internal run of whitespace by one ordinary space.
pub open spec fn collapse_ws_spec(s: Seq<char>) -> Seq<char> {
    let t = collapse_loop(s);
    if t.len() > 0 && t.last() == ' ' {
        t.drop_last()
    } else {
        t
    }
}

pub fn collapse_ws(s: &str) -> (r: String)
    ensures
        r@ == collapse_ws_spec(s@),
{
    let n = s.unicode_len();
    let mut out = String::new();
    let mut out_len: usize = 0;
    let mut last_space = false;
    let mut i: usize = 0;
    while i < n
        invariant
            i <= n,
            n == s@.len(),
            out@ == collapse_loop(s@.subrange(0, i as int)),
            out_len == out@.len(),
            out_len <= i,
            last_space == (out@.len() > 0 && out@.last() == ' '),
        decreases n - i,
    {
        let c = s.get_char(i);
        proof {
            assert(s@.subrange(0, i + 1).drop_last() =~= s@.subrange(0, i as int));
            assert(s@.subrange(0, i + 1).last() == s@[i as int]);
        }
        if ws_char(c) {
            if out_len > 0 && !last_space {
                out.append(" ");
                proof {
                    reveal_strlit(" ");
                    assert(out@ =~= collapse_loop(s@.subrange(0, i as int)).push(' '));
                }
                out_len = out_len + 1;
                last_space = true;
            }
        } else {
            let piece = s.substring_char(i, i + 1);
            out.append(piece);
            proof {
                assert(piece@ =~= seq![c]);
                assert(out@ =~= collapse_loop(s@.subrange(0, i as int)).push(c));
            }
            out_len = out_len + 1;
            last_space = false;
        }
        i = i + 1;
    }
    proof {
        assert(s@.subrange(0, n as int) =~= s@);
    }
    if last_space {
        let trimmed = out.as_str().substring_char(0, out_len - 1);
        proof {
            assert(trimmed@ =~= collapse_loop(s@).drop_last());
        }
        trimmed.to_owned()
    } else {
        out
    }
}

/// A string whose whitespace is collapsed, except that one trailing space is
/// still allowed: only the space character appears as whitespace, no two
/// spaces are adjacent, and the string does not start with a space.
pub open spec fn is_semi_collapsed(t: Seq<char>) -> bool {
    &&& forall|i: int|
        0 <= i < t.len() ==> (is_ws_char(#[trigger] t[i]) ==> t[i] == ' ')
    &&& t.len() > 0 ==> t[0] != ' '
    &&& forall|i: int| 0 <= i && i + 1 < t.len() ==> !(#[trigger] t[i] == ' ' && t[i + 1] == ' ')
}

/// A fully collapsed string: semi-collapsed and without a trailing space.
pub open spec fn is_collapsed(t: Seq<char>) -> bool {
    is_semi_collapsed(t) && (t.len() > 0 ==> t.last() != ' ')
}

proof fn lemma_collapse_loop_shape(s: Seq<char>)
    ensures
        is_semi_collapsed(collapse_loop(s)),
    decreases s.len(),
{
    if s.len() > 0 {
        lemma_collapse_loop_shape(s.drop_last());
    }
}

proof fn lemma_collapse_loop_fixed(t: Seq<char>)
    requires
        is_semi_collapsed(t),
    ensures
        collapse_loop(t) == t,
    decreases t.len(),
{
    if t.len() > 0 {
        let rest = t.drop_last();
        assert(is_semi_collapsed(rest)) by {
            assert(forall|i: int| 0 <= i < rest.len() ==> rest[i] == t[i]);
        }
        lemma_collapse_loop_fixed(rest);
        let c = t.last();
        if is_ws_char(c) {
            assert(c == ' ');
            assert(rest.len() > 0);
            assert(rest.last() == t[t.len() - 2]);
            assert(rest.last() != ' ');
            assert(collapse_loop(t) =~= t);
        } else {
            assert(collapse_loop(t) =~= t);
        }
    } else {
        assert(collapse_loop(t) =~= t);
    }
}

/// Law: collapsing whitespace is idempotent.  This is the whitespace half of
/// the idempotence of title cleaning; see `lemma_clean_title_idempotent` for
/// the composition with Unicode normalization.
pub proof fn lemma_collapse_ws_idempotent(s: Seq<char>)
    ensures
        collapse_ws_spec(collapse_ws_spec(s)) == collapse_ws_spec(s),
{
    let u = collapse_loop(s);
    lemma_collapse_loop_shape(s);
    let t = collapse_ws_spec(s);
    assert(is_collapsed(t)) by {
        if u.len() > 0 && u.last() == ' ' {
            let w = u.drop_last();
            assert(forall|i: int| 0 <= i < w.len() ==> w[i] == u[i]);
            if w.len() > 0 {
                assert(w.last() == u[u.len() - 2]);
                assert(!(u[u.len() - 2] == ' ' && u[u.len() - 1] == ' '));
            }
        }
    }
    lemma_collapse_loop_fixed(t);
}

/// What the outside call computes: the Unicode compatibility-composition
/// (NFKC) normalization of a character sequence.
pub uninterp spec fn nfkc_of(s: Seq<char>) -> Seq<char>;

/// Relies on the `nfkc` iterator of the unicode-normalization crate: it
/// yields the NFKC normalization of the input, a function of the input
/// characters alone; Unicode normalization forms are idempotent.
#[verifier::external_body]
fn nfkc(s: &str) -> (r: String)
    ensures
        r@ == nfkc_of(s@),
        nfkc_of(r@) == r@,
{
    s.nfkc().collect()
}

/// A cleaned title: whitespace collapsed, then NFKC-normalized.
pub open spec fn clean_title_spec(s: Seq<char>) -> Seq<char> {
    nfkc_of(collapse_ws_spec(s))
}

/// Clean raw link text into a title: trim, collapse internal whitespace runs
/// to single spaces, and apply Unicode compatibility normalization.
pub fn clean_title(title: &str) -> (r: String)
    ensures
        r@ == clean_title_spec(title@),
        nfkc_of(r@) == r@,
{
    let collapsed = collapse_ws(title);
    nfkc(collapsed.as_str())
}

/// Law: cleaning a title twice gives the same result as cleaning it once,
/// for every input whose NFKC-normalized collapsed form is itself collapsed
/// and NFKC-fixed.  (NFKC can map a character to a sequence that begins with
/// a space, so the hypothesis does not hold of every string.)
pub proof fn lemma_clean_title_idempotent(s: Seq<char>)
    ensures
        (nfkc_of(nfkc_of(collapse_ws_spec(s))) == nfkc_of(collapse_ws_spec(s))
            && collapse_ws_spec(nfkc_of(collapse_ws_spec(s))) == nfkc_of(collapse_ws_spec(s)))
            ==> clean_title_spec(clean_title_spec(s)) == clean_title_spec(s),
{
}

/// Character-by-character string equality.
pub fn str_eq(a: &str, b: &str) -> (r: bool)
    ensures
        r == (a@ == b@),
{
    let n = a.unicode_len();
    let m = b.unicode_len();
    if n != m {
        return false;
    }
    let mut i: usize = 0;
    while i < n
        invariant
            i <= n,
            n == a@.len(),
            n == b@.len(),
            forall|j: int| 0 <= j < i ==> a@[j] == b@[j],
        decreases n - i,
    {
        if a.get_char(i) != b.get_char(i) {
            return false;
        }
        i = i + 1;
    }
    proof {
        assert(a@ =~= b@);
    }
    true
}

/// Strip leading whitespace.
pub open spec fn trim_start_spec(s: Seq<char>) -> Seq<char>
    decreases s.len(),
{
    if s.len() > 0 && is_ws_char(s[0]) {
        trim_start_spec(s.drop_first())
    } else {
        s
    }
}

/// Strip trailing whitespace.
pub open spec fn trim_end_spec(s: Seq<char>) -> Seq<char>
    decreases s.len(),
{
    if s.len() > 0 && is_ws_char(s.last()) {
        trim_end_spec(s.drop_last())
    } else {
        s
    }
}

/// Strip leading and trailing whitespace, as `str::trim` does.
pub open spec fn trim_spec(s: Seq<char>) -> Seq<char> {
    trim_end_spec(trim_start_spec(s))
}

pub fn trim(s: &str) -> (r: String)
    ensures
        r@ == trim_spec(s@),
{
    let n = s.unicode_len();
    proof {
        assert(s@.subrange(0, n as int) =~= s@);
    }
    let mut a: usize = 0;
    while a < n && ws_char(s.get_char(a))
        invariant
            a <= n,
            n == s@.len(),
            trim_start_spec(s@) == trim_start_spec(s@.subrange(a as int, n as int)),
        decreases n - a,
    {
        proof {
            assert(s@.subrange(a as int, n as int)[0] == s@[a as int]);
            assert(s@.subrange(a as int, n as int).drop_first() =~= s@.subrange(
                a + 1,
                n as int,
            ));
        }
        a = a + 1;
    }
    proof {
        if a < n {
            assert(s@.subrange(a as int, n as int)[0] == s@[a as int]);
        }
        assert(trim_start_spec(s@) == s@.subrange(a as int, n as int));
    }
    let mut b: usize = n;
    while b > a && ws_char(s.get_char(b - 1))
        invariant
            a <= b <= n,
            n == s@.len(),
            trim_end_spec(trim_start_spec(s@)) == trim_end_spec(s@.subrange(a as int, b as int)),
        decreases b,
    {
        proof {
            assert(s@.subrange(a as int, b as int).last() == s@[b - 1]);
            assert(s@.subrange(a as int, b as int).drop_last() =~= s@.subrange(
                a as int,
                b - 1,
            ));
        }
        b = b - 1;
    }
    proof {
        if b > a {
            assert(s@.subrange(a as int, b as int).last() == s@[b - 1]);
        }
        assert(trim_spec(s@) == s@.subrange(a as int, b as int));
    }
    let r = s.substring_char(a, b);
    r.to_owned()
}

/// Does `s` begin with `p`?
pub open spec fn starts_with_spec(s: Seq<char>, p: Seq<char>) -> bool {
    s.len() >= p.len() && s.take(p.len() as int) == p
}

} // verus!
