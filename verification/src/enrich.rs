//! The language-model enrichment protocol: prompt and request construction,
//! reply parsing with tag filtering, and the retry/backoff policy.
//!
//! The HTTP call itself is I/O and lives outside the library; the caller
//! performs one attempt at a time and feeds the outcome to `retry_step`,
//! which decides everything.

use crate::model::{AiResponse, AiResponseV};
use crate::text::{str_eq, trim, trim_spec};
use vstd::prelude::*;

verus! {

/// Attempts allowed per URL.
pub const MAX_RETRIES: usize = 3;

/// Seconds to wait when the service reports that the quota is exceeded.
pub const QUOTA_RESET_WAIT_SECS: u64 = 5;

/// Pacing delay in seconds after an attempt that did not return early.
pub const REQUEST_INTERVAL_SECS: u64 = 3;

// ---------------------------------------------------------------------------
// Prompt and request body
// ---------------------------------------------------------------------------

/// The fixed instruction text that precedes the URL in the prompt.
pub open spec fn prompt_prefix() -> Seq<char> {
    "请根据以下网址内容生成标题和标签：\n1. 生成一个简洁准确的中文标题（15-30字）\n2. 生成5个精准标签，使用逗号分隔\n3. 标签要求：中文名词短语，最长15字，排除通用词汇\n4. 返回格式：\n标题：网页标题\n标签：标签1,标签2,标签3\n\n当前网址："@
}

pub open spec fn prompt_spec(url: Seq<char>) -> Seq<char> {
    prompt_prefix() + url
}

/// Build the natural-language instruction handed to the model, with the
/// target URL as the subject.
pub fn build_prompt(url: &str) -> (r: String)
    ensures
        r@ == prompt_spec(url@),
{
    let mut out =
        "请根据以下网址内容生成标题和标签：\n1. 生成一个简洁准确的中文标题（15-30字）\n2. 生成5个精准标签，使用逗号分隔\n3. 标签要求：中文名词短语，最长15字，排除通用词汇\n4. 返回格式：\n标题：网页标题\n标签：标签1,标签2,标签3\n\n当前网址：".to_owned();
    out.append(url);
    out
}

pub open spec fn hex_digit(d: int) -> char {
    if d < 10 {
        crate::numbers::digit_char(d)
    } else if d == 10 {
        'a'
    } else if d == 11 {
        'b'
    } else if d == 12 {
        'c'
    } else if d == 13 {
        'd'
    } else if d == 14 {
        'e'
    } else {
        'f'
    }
}

/// How one character is written inside a JSON string.
pub open spec fn esc_char(c: char) -> Seq<char> {
    if c == '"' {
        "\\\""@
    } else if c == '\\' {
        "\\\\"@
    } else if c == '\n' {
        "\\n"@
    } else if c == '\r' {
        "\\r"@
    } else if c == '\t' {
        "\\t"@
    } else if (c as u32) < 32 {
        "\\u00"@ + seq![hex_digit((c as u32 / 16) as int), hex_digit((c as u32 % 16) as int)]
    } else {
        seq![c]
    }
}

pub open spec fn esc_str(s: Seq<char>) -> Seq<char>
    decreases s.len(),
{
    if s.len() == 0 {
        Seq::<char>::empty()
    } else {
        esc_str(s.drop_last()) + esc_char(s.last())
    }
}

fn hex_digit_str(d: u32) -> (r: &'static str)
    requires
        d < 16,
    ensures
        r@ == seq![hex_digit(d as int)],
{
    proof {
        reveal_strlit("0");
        reveal_strlit("1");
        reveal_strlit("2");
        reveal_strlit("3");
        reveal_strlit("4");
        reveal_strlit("5");
        reveal_strlit("6");
        reveal_strlit("7");
        reveal_strlit("8");
        reveal_strlit("9");
        reveal_strlit("a");
        reveal_strlit("b");
        reveal_strlit("c");
        reveal_strlit("d");
        reveal_strlit("e");
        reveal_strlit("f");
    }
    let r = if d == 0 {
        "0"
    } else if d == 1 {
        "1"
    } else if d == 2 {
        "2"
    } else if d == 3 {
        "3"
    } else if d == 4 {
        "4"
    } else if d == 5 {
        "5"
    } else if d == 6 {
        "6"
    } else if d == 7 {
        "7"
    } else if d == 8 {
        "8"
    } else if d == 9 {
        "9"
    } else if d == 10 {
        "a"
    } else if d == 11 {
        "b"
    } else if d == 12 {
        "c"
    } else if d == 13 {
        "d"
    } else if d == 14 {
        "e"
    } else {
        "f"
    };
    proof {
        assert(r@ =~= seq![hex_digit(d as int)]);
    }
    r
}

/// Escape a string for inclusion inside a JSON string literal.
pub fn escape_json(s: &str) -> (r: String)
    ensures
        r@ == esc_str(s@),
{
    let n = s.unicode_len();
    let mut out = String::new();
    let mut i: usize = 0;
    proof {
        assert(esc_str(s@.take(0)) =~= Seq::<char>::empty());
    }
    while i < n
        invariant
            i <= n,
            n == s@.len(),
            out@ == esc_str(s@.take(i as int)),
        decreases n - i,
    {
        let c = s.get_char(i);
        proof {
            assert(s@.take(i + 1).drop_last() =~= s@.take(i as int));
            assert(s@.take(i + 1).last() == s@[i as int]);
        }
        if c == '"' {
            out.append("\\\"");
            proof {
                reveal_strlit("\\\"");
            }
        } else if c == '\\' {
            out.append("\\\\");
            proof {
                reveal_strlit("\\\\");
            }
        } else if c == '\n' {
            out.append("\\n");
            proof {
                reveal_strlit("\\n");
            }
        } else if c == '\r' {
            out.append("\\r");
            proof {
                reveal_strlit("\\r");
            }
        } else if c == '\t' {
            out.append("\\t");
            proof {
                reveal_strlit("\\t");
            }
        } else if (c as u32) < 32 {
            out.append("\\u00");
            proof {
                reveal_strlit("\\u00");
            }
            out.append(hex_digit_str((c as u32) / 16));
            out.append(hex_digit_str((c as u32) % 16));
        } else {
            out.append(s.substring_char(i, i + 1));
        }
        proof {
            assert(out@ =~= esc_str(s@.take(i + 1)));
        }
        i = i + 1;
    }
    proof {
        assert(s@.take(n as int) =~= s@);
    }
    out
}

/// The JSON request body sent to the generative-language endpoint: the
/// escaped prompt and the fixed generation parameters.
pub open spec fn request_body_spec(url: Seq<char>) -> Seq<char> {
    "{\"contents\":[{\"parts\":[{\"text\":\""@ + esc_str(prompt_spec(url))
        + "\"}]}],\"generationConfig\":{\"temperature\":0.7,\"topK\":40,\"topP\":0.95,\"maxOutputTokens\":1024}}"@
}

pub fn build_request_body(url: &str) -> (r: String)
    ensures
        r@ == request_body_spec(url@),
{
    let prompt = build_prompt(url);
    let escaped = escape_json(prompt.as_str());
    let mut out = "{\"contents\":[{\"parts\":[{\"text\":\"".to_owned();
    out.append(escaped.as_str());
    out.append(
        "\"}]}],\"generationConfig\":{\"temperature\":0.7,\"topK\":40,\"topP\":0.95,\"maxOutputTokens\":1024}}",
    );
    out
}

// ---------------------------------------------------------------------------
// Reply extraction and parsing
// ---------------------------------------------------------------------------

/// What the outside call computes: the first candidate's first content
/// part's text in the service's JSON reply, when the reply has that shape.
pub uninterp spec fn reply_text_of(body: Seq<char>) -> Option<Seq<char>>;

/// Relies on serde_json::from_str and the Value accessors get and as_str:
/// the text at candidates[0].content.parts[0].text, a function of the reply
/// body alone.
#[verifier::external_body]
fn extract_reply_text(body: &str) -> (r: Option<String>)
    ensures
        match r {
            Some(t) => reply_text_of(body@) == Some(t@),
            None => reply_text_of(body@) is None,
        },
{
    let v: serde_json::Value = match serde_json::from_str(body) {
        Ok(v) => v,
        Err(_) => { return None; },
    };
    let text = v
        .get("candidates")
        .and_then(|c| c.get(0))
        .and_then(|c| c.get("content"))
        .and_then(|c| c.get("parts"))
        .and_then(|p| p.get(0))
        .and_then(|p| p.get("text"))
        .and_then(|t| t.as_str());
    text.map(|t| t.to_string())
}

pub open spec fn find_first_nl(s: Seq<char>) -> int
    decreases s.len(),
{
    if s.len() == 0 {
        0
    } else if s[0] == '\n' {
        0
    } else {
        1 + find_first_nl(s.drop_first())
    }
}

proof fn lemma_find_first_nl_at(s: Seq<char>, i: int)
    requires
        0 <= i <= s.len(),
        forall|j: int| 0 <= j < i ==> s[j] != '\n',
        i < s.len() ==> s[i] == '\n',
    ensures
        find_first_nl(s) == i,
    decreases i,
{
    if i == 0 {
    } else {
        let rest = s.drop_first();
        assert(forall|j: int| 0 <= j < rest.len() ==> rest[j] == s[j + 1]);
        lemma_find_first_nl_at(rest, i - 1);
    }
}

/// Strip one trailing carriage return, as `str::lines` does for lines ended
/// by "\r\n".
pub open spec fn strip_cr(l: Seq<char>) -> Seq<char> {
    if l.len() > 0 && l.last() == '\r' {
        l.drop_last()
    } else {
        l
    }
}

/// The lines of a string, as `str::lines` yields them.
pub open spec fn lines_spec(s: Seq<char>) -> Seq<Seq<char>>
    decreases s.len(),
{
    if s.len() == 0 {
        Seq::<Seq<char>>::empty()
    } else {
        let i = find_first_nl(s);
        if 0 <= i && i < s.len() {
            seq![strip_cr(s.take(i))] + lines_spec(s.skip(i + 1))
        } else {
            seq![s]
        }
    }
}

/// Split a string into its lines.
pub fn split_lines(s: &str) -> (r: Vec<String>)
    ensures
        r@.len() == lines_spec(s@).len(),
        forall|i: int| 0 <= i < r@.len() ==> r@[i]@ == lines_spec(s@)[i],
{
    let n = s.unicode_len();
    let mut out: Vec<String> = Vec::new();
    let ghost whole = lines_spec(s@);
    let ghost done = Seq::<Seq<char>>::empty();
    let mut pos: usize = 0;
    proof {
        assert(s@.skip(0) =~= s@);
    }
    while pos < n
        invariant
            pos <= n,
            n == s@.len(),
            whole == lines_spec(s@),
            out@.len() == done.len(),
            forall|k: int| 0 <= k < done.len() ==> out@[k]@ == done[k],
            whole == done + lines_spec(s@.skip(pos as int)),
        decreases n - pos,
    {
        let ghost rest = s@.skip(pos as int);
        let mut j: usize = pos;
        while j < n && s.get_char(j) != '\n'
            invariant
                pos <= j <= n,
                n == s@.len(),
                forall|k: int| pos <= k < j ==> s@[k] != '\n',
            decreases n - j,
        {
            j = j + 1;
        }
        proof {
            assert(forall|k: int| 0 <= k < j - pos ==> rest[k] == s@[k + pos]);
            if j < n {
                assert(rest[j - pos] == s@[j as int]);
                lemma_find_first_nl_at(rest, j - pos);
            } else {
                lemma_find_first_nl_at(rest, j - pos);
            }
        }
        if j == n {
            let piece = s.substring_char(pos, n);
            proof {
                assert(piece@ =~= rest);
                assert(lines_spec(rest) == seq![rest]);
            }
            out.push(piece.to_owned());
            proof {
                done = done + seq![rest];
                assert(whole =~= done + lines_spec(s@.skip(n as int)));
            }
            pos = n;
        } else {
            let end = if j > pos && s.get_char(j - 1) == '\r' {
                j - 1
            } else {
                j
            };
            let piece = s.substring_char(pos, end);
            proof {
                assert(rest.take(j - pos) =~= s@.subrange(pos as int, j as int));
                if j > pos && s@[j - 1] == '\r' {
                    assert(strip_cr(rest.take(j - pos)) =~= s@.subrange(pos as int, end as int));
                } else {
                    assert(strip_cr(rest.take(j - pos)) =~= s@.subrange(pos as int, end as int));
                }
                assert(piece@ == strip_cr(rest.take(j - pos)));
                assert(rest.skip(j - pos + 1) =~= s@.skip(j + 1));
                assert(lines_spec(rest) == seq![strip_cr(rest.take(j - pos))] + lines_spec(
                    s@.skip(j + 1),
                ));
            }
            out.push(piece.to_owned());
            proof {
                done = done + seq![piece@];
                assert(whole =~= done + lines_spec(s@.skip(j + 1)));
            }
            pos = j + 1;
        }
    }
    proof {
        assert(lines_spec(s@.skip(pos as int)) =~= Seq::<Seq<char>>::empty());
        assert(whole =~= done);
    }
    out
}

pub open spec fn title_label() -> Seq<char> {
    "标题："@
}

pub open spec fn tags_label() -> Seq<char> {
    "标签："@
}

pub open spec fn starts_with_label(l: Seq<char>, label: Seq<char>) -> bool {
    l.len() >= label.len() && l.take(label.len() as int) == label
}

/// The title the reply yields: the text after the title label of the last
/// line carrying one, trimmed; empty when no line does.
pub open spec fn scan_title(ls: Seq<Seq<char>>) -> Seq<char>
    decreases ls.len(),
{
    if ls.len() == 0 {
        Seq::<char>::empty()
    } else if starts_with_label(ls.last(), title_label()) {
        trim_spec(ls.last().skip(3))
    } else {
        scan_title(ls.drop_last())
    }
}

/// The raw tag text the reply yields: the text after the tags label of the
/// last line carrying one, trimmed; absent when no line does.
pub open spec fn scan_tags_raw(ls: Seq<Seq<char>>) -> Option<Seq<char>>
    decreases ls.len(),
{
    if ls.len() == 0 {
        None
    } else if starts_with_label(ls.last(), tags_label()) {
        Some(trim_spec(ls.last().skip(3)))
    } else {
        scan_tags_raw(ls.drop_last())
    }
}

pub open spec fn is_tag_delim(c: char) -> bool {
    c == ',' || c == '，' || c == '、'
}

pub open spec fn find_first_delim(s: Seq<char>) -> int
    decreases s.len(),
{
    if s.len() == 0 {
        0
    } else if is_tag_delim(s[0]) {
        0
    } else {
        1 + find_first_delim(s.drop_first())
    }
}

proof fn lemma_find_first_delim_at(s: Seq<char>, i: int)
    requires
        0 <= i <= s.len(),
        forall|j: int| 0 <= j < i ==> !is_tag_delim(#[trigger] s[j]),
        i < s.len() ==> is_tag_delim(s[i]),
    ensures
        find_first_delim(s) == i,
    decreases i,
{
    if i > 0 {
        let rest = s.drop_first();
        assert(forall|j: int| 0 <= j < rest.len() ==> rest[j] == s[j + 1]);
        lemma_find_first_delim_at(rest, i - 1);
    }
}

/// Split raw tag text on the delimiter characters `,`, `，` and `、`.
pub open spec fn split_tags_spec(s: Seq<char>) -> Seq<Seq<char>>
    decreases s.len(),
{
    let i = find_first_delim(s);
    if 0 <= i && i < s.len() {
        seq![s.take(i)] + split_tags_spec(s.skip(i + 1))
    } else {
        seq![s]
    }
}

pub open spec fn is_banned_punct(c: char) -> bool {
    c == '!' || c == '?' || c == '。' || c == '；'
}

pub open spec fn is_blacklisted(t: Seq<char>) -> bool {
    t == "其他"@ || t == "未知"@ || t == "未分类"@
}

/// A candidate tag survives when its character count is between 2 and 15,
/// it is not one of the blacklisted generic labels, and it carries none of
/// the banned punctuation characters.
pub open spec fn tag_ok(t: Seq<char>) -> bool {
    &&& 2 <= t.len() <= 15
    &&& !is_blacklisted(t)
    &&& forall|i: int| 0 <= i < t.len() ==> !is_banned_punct(#[trigger] t[i])
}

/// Trim every piece and keep the surviving tags, in order.
pub open spec fn filter_tags_spec(parts: Seq<Seq<char>>) -> Seq<Seq<char>>
    decreases parts.len(),
{
    if parts.len() == 0 {
        Seq::<Seq<char>>::empty()
    } else {
        let t = trim_spec(parts.first());
        let rest = filter_tags_spec(parts.drop_first());
        if tag_ok(t) {
            seq![t] + rest
        } else {
            rest
        }
    }
}

/// The tags a raw tag line yields, before the cap of five.
pub open spec fn tags_of_raw(raw: Seq<char>) -> Seq<Seq<char>> {
    filter_tags_spec(split_tags_spec(raw))
}

/// What a reply text yields: a response when a non-empty title and at least
/// one surviving tag were extracted (keeping at most the first five tags),
/// nothing otherwise.
pub open spec fn reply_spec(text: Seq<char>) -> Option<AiResponseV> {
    let ls = lines_spec(text);
    let title = scan_title(ls);
    let tags = match scan_tags_raw(ls) {
        Some(raw) => tags_of_raw(raw),
        None => Seq::<Seq<char>>::empty(),
    };
    if title.len() > 0 && tags.len() > 0 {
        Some(
            AiResponseV {
                title,
                tags: if tags.len() > 5 {
                    tags.take(5)
                } else {
                    tags
                },
            },
        )
    } else {
        None
    }
}

fn tag_ok_exec(t: &str) -> (r: bool)
    ensures
        r == tag_ok(t@),
{
    let n = t.unicode_len();
    if n < 2 || n > 15 {
        return false;
    }
    if str_eq(t, "其他") || str_eq(t, "未知") || str_eq(t, "未分类") {
        return false;
    }
    let mut i: usize = 0;
    while i < n
        invariant
            i <= n,
            n == t@.len(),
            forall|j: int| 0 <= j < i ==> !is_banned_punct(#[trigger] t@[j]),
        decreases n - i,
    {
        let c = t.get_char(i);
        if c == '!' || c == '?' || c == '。' || c == '；' {
            return false;
        }
        i = i + 1;
    }
    true
}

fn delim_exec(c: char) -> (r: bool)
    ensures
        r == is_tag_delim(c),
{
    c == ',' || c == '，' || c == '、'
}

/// Split raw tag text and keep the surviving tags, in order.
fn filter_raw_tags(raw: &str) -> (r: Vec<String>)
    ensures
        r@.len() == tags_of_raw(raw@).len(),
        forall|i: int| 0 <= i < r@.len() ==> r@[i]@ == tags_of_raw(raw@)[i],
{
    let n = raw.unicode_len();
    let mut out: Vec<String> = Vec::new();
    let ghost whole = tags_of_raw(raw@);
    let ghost done = Seq::<Seq<char>>::empty();
    let mut start: usize = 0;
    let mut i: usize = 0;
    proof {
        assert(raw@.skip(0) =~= raw@);
    }
    while i < n
        invariant
            start <= i <= n,
            n == raw@.len(),
            whole == tags_of_raw(raw@),
            out@.len() == done.len(),
            forall|k: int| 0 <= k < done.len() ==> out@[k]@ == done[k],
            whole == done + filter_tags_spec(split_tags_spec(raw@.skip(start as int))),
            forall|k: int| start <= k < i ==> !is_tag_delim(#[trigger] raw@[k]),
        decreases n - i,
    {
        if delim_exec(raw.get_char(i)) {
            let ghost rest = raw@.skip(start as int);
            proof {
                assert(forall|k: int| 0 <= k < i - start ==> rest[k] == raw@[k + start]);
                assert(rest[i - start] == raw@[i as int]);
                lemma_find_first_delim_at(rest, i - start);
                assert(split_tags_spec(rest) == seq![rest.take(i - start)] + split_tags_spec(
                    rest.skip(i - start + 1),
                ));
                let parts = split_tags_spec(rest);
                assert(parts.first() == rest.take(i - start));
                assert(parts.drop_first() =~= split_tags_spec(rest.skip(i - start + 1)));
                assert(rest.skip(i - start + 1) =~= raw@.skip(i + 1));
            }
            let piece = raw.substring_char(start, i);
            let tag = trim(piece);
            proof {
                assert(piece@ =~= rest.take(i - start));
            }
            if tag_ok_exec(tag.as_str()) {
                out.push(tag);
                proof {
                    done = done + seq![trim_spec(rest.take(i - start))];
                }
            }
            proof {
                assert(whole =~= done + filter_tags_spec(split_tags_spec(raw@.skip(i + 1))));
            }
            start = i + 1;
        }
        i = i + 1;
    }
    // the final piece, after the last delimiter
    let ghost rest = raw@.skip(start as int);
    proof {
        assert(forall|k: int| 0 <= k < n - start ==> rest[k] == raw@[k + start]);
        lemma_find_first_delim_at(rest, n - start);
        assert(split_tags_spec(rest) == seq![rest]);
        assert(seq![rest].first() == rest);
        assert(seq![rest].drop_first() =~= Seq::<Seq<char>>::empty());
        assert(filter_tags_spec(Seq::<Seq<char>>::empty()) =~= Seq::<Seq<char>>::empty());
    }
    let piece = raw.substring_char(start, n);
    let tag = trim(piece);
    proof {
        assert(piece@ =~= rest);
    }
    if tag_ok_exec(tag.as_str()) {
        out.push(tag);
        proof {
            done = done + seq![trim_spec(rest)];
        }
    }
    proof {
        assert(whole =~= done);
    }
    out
}

fn line_label_kind(l: &str) -> (r: u8)
    ensures
        r == 0 || r == 1 || r == 2,
        r == 1 ==> (starts_with_label(l@, title_label()) && !starts_with_label(
            l@,
            tags_label(),
        )),
        r == 2 ==> (!starts_with_label(l@, title_label()) && starts_with_label(
            l@,
            tags_label(),
        )),
        r == 0 ==> (!starts_with_label(l@, title_label()) && !starts_with_label(
            l@,
            tags_label(),
        )),
{
    proof {
        reveal_strlit("标题：");
        reveal_strlit("标签：");
    }
    let n = l.unicode_len();
    if n < 3 {
        proof {
            assert(title_label().len() == 3);
            assert(tags_label().len() == 3);
        }
        return 0;
    }
    let c0 = l.get_char(0);
    let c1 = l.get_char(1);
    let c2 = l.get_char(2);
    let title_match = c0 == '标' && c1 == '题' && c2 == '：';
    let tags_match = c0 == '标' && c1 == '签' && c2 == '：';
    proof {
        assert(title_label() =~= seq!['标', '题', '：']);
        assert(tags_label() =~= seq!['标', '签', '：']);
        assert(l@.take(3)[0] == l@[0] && l@.take(3)[1] == l@[1] && l@.take(3)[2] == l@[2]);
        if title_match {
            assert(l@.take(3) =~= title_label());
            assert(l@.take(3) != tags_label());
        }
        if tags_match {
            assert(l@.take(3) =~= tags_label());
            assert(l@.take(3) != title_label());
        }
    }
    if title_match {
        1
    } else if tags_match {
        2
    } else {
        0
    }
}

/// Parse the reply text: scan its lines for the title and tags labels, split
/// and filter the tags, and succeed only when a non-empty title and at least
/// one tag survive.
pub fn parse_ai_reply(text: &str) -> (r: Option<AiResponse>)
    ensures
        match r {
            Some(resp) => reply_spec(text@) == Some(resp@),
            None => reply_spec(text@) is None,
        },
{
    let lines = split_lines(text);
    let ghost ls = lines_spec(text@);
    let mut title = String::new();
    let mut tags: Vec<String> = Vec::new();
    let mut have_tags_line = false;
    let n = lines.len();
    let mut i: usize = 0;
    proof {
        assert(ls.take(0) =~= Seq::<Seq<char>>::empty());
    }
    while i < n
        invariant
            i <= n,
            n == lines@.len(),
            ls == lines_spec(text@),
            ls.len() == n,
            forall|k: int| 0 <= k < n ==> lines@[k]@ == ls[k],
            title@ == scan_title(ls.take(i as int)),
            have_tags_line == (scan_tags_raw(ls.take(i as int)) is Some),
            have_tags_line ==> {
                let spec_tags = tags_of_raw(scan_tags_raw(ls.take(i as int))->0);
                tags@.len() == spec_tags.len() && forall|k: int|
                    0 <= k < tags@.len() ==> tags@[k]@ == spec_tags[k]
            },
            !have_tags_line ==> tags@.len() == 0,
        decreases n - i,
    {
        proof {
            reveal_strlit("标题：");
            reveal_strlit("标签：");
            assert(title_label().len() == 3);
            assert(tags_label().len() == 3);
            assert(ls.take(i + 1).drop_last() =~= ls.take(i as int));
            assert(ls.take(i + 1).last() == ls[i as int]);
        }
        let line = &lines[i];
        proof {
            assert(lines@[i as int]@ == ls[i as int]);
            assert(line@ == ls[i as int]);
        }
        let kind = line_label_kind(line.as_str());
        if kind == 1 {
            let rem = line.as_str().substring_char(3, line.as_str().unicode_len());
            title = trim(rem);
            proof {
                assert(rem@ =~= ls[i as int].skip(3));
            }
        } else if kind == 2 {
            let rem = line.as_str().substring_char(3, line.as_str().unicode_len());
            let raw = trim(rem);
            proof {
                assert(rem@ =~= ls[i as int].skip(3));
            }
            tags = filter_raw_tags(raw.as_str());
            have_tags_line = true;
        }
        i = i + 1;
    }
    proof {
        assert(ls.take(n as int) =~= ls);
    }
    if title.as_str().is_empty() || tags.len() == 0 {
        return None;
    }
    if tags.len() > 5 {
        tags.truncate(5);
    }
    let resp = AiResponse { title, tags };
    proof {
        let spec_tags = tags_of_raw(scan_tags_raw(ls)->0);
        let capped = if spec_tags.len() > 5 {
            spec_tags.take(5)
        } else {
            spec_tags
        };
        assert(resp.tags.deep_view() =~= capped);
        assert(reply_spec(text@) == Some(resp@));
    }
    Some(resp)
}

// ---------------------------------------------------------------------------
// Retry policy
// ---------------------------------------------------------------------------

/// The outcome of one HTTP attempt, as the caller observed it.
pub enum HttpEvent {
    /// The service answered "too many requests": the quota is exhausted.
    Quota,
    /// The service answered with any other non-success status.
    HttpFailure,
    /// The request failed at the transport level.
    TransportFailure,
    /// The service answered successfully with this reply body.
    Reply(String),
}

/// What the caller must do after one attempt: wait and try again, give up
/// after the given wait, or stop with the parsed response.
pub enum RetryStep {
    Retry { wait_secs: u64 },
    GiveUp { wait_secs: u64 },
    Done(AiResponse),
}

/// The wait before retrying after a plain failure on the given zero-based
/// attempt: a fixed linear backoff of 5, 10, 15 seconds.
pub open spec fn backoff_secs(attempt: int) -> int {
    5 * (attempt + 1)
}

/// Decide what follows one enrichment attempt.  Quota exhaustion waits the
/// quota delay and consumes the attempt; a non-success status backs off
/// linearly, except on the last attempt, which gives up at once; a transport
/// failure backs off the same way plus the pacing delay; a reply either
/// parses — returning immediately, with no trailing wait — or consumes the
/// attempt after the pacing delay.
pub fn retry_step(attempt: usize, event: HttpEvent) -> (r: RetryStep)
    requires
        attempt < MAX_RETRIES,
    ensures
        match event {
            HttpEvent::Quota => r == (if attempt + 1 < MAX_RETRIES {
                RetryStep::Retry { wait_secs: QUOTA_RESET_WAIT_SECS }
            } else {
                RetryStep::GiveUp { wait_secs: QUOTA_RESET_WAIT_SECS }
            }),
            HttpEvent::HttpFailure => r == (if attempt + 1 < MAX_RETRIES {
                RetryStep::Retry { wait_secs: backoff_secs(attempt as int) as u64 }
            } else {
                RetryStep::GiveUp { wait_secs: 0u64 }
            }),
            HttpEvent::TransportFailure => r == (if attempt + 1 < MAX_RETRIES {
                RetryStep::Retry {
                    wait_secs: (backoff_secs(attempt as int) + REQUEST_INTERVAL_SECS) as u64,
                }
            } else {
                RetryStep::GiveUp { wait_secs: REQUEST_INTERVAL_SECS }
            }),
            HttpEvent::Reply(body) => match reply_text_of(body@) {
                Some(text) => match reply_spec(text) {
                    Some(resp) => match r {
                        RetryStep::Done(a) => a@ == resp,
                        _ => false,
                    },
                    None => r == (if attempt + 1 < MAX_RETRIES {
                        RetryStep::Retry { wait_secs: REQUEST_INTERVAL_SECS }
                    } else {
                        RetryStep::GiveUp { wait_secs: REQUEST_INTERVAL_SECS }
                    }),
                },
                None => r == (if attempt + 1 < MAX_RETRIES {
                    RetryStep::Retry { wait_secs: REQUEST_INTERVAL_SECS }
                } else {
                    RetryStep::GiveUp { wait_secs: REQUEST_INTERVAL_SECS }
                }),
            },
        },
{
    match event {
        HttpEvent::Quota => {
            if attempt + 1 < MAX_RETRIES {
                RetryStep::Retry { wait_secs: QUOTA_RESET_WAIT_SECS }
            } else {
                RetryStep::GiveUp { wait_secs: QUOTA_RESET_WAIT_SECS }
            }
        },
        HttpEvent::HttpFailure => {
            if attempt + 1 < MAX_RETRIES {
                RetryStep::Retry { wait_secs: 5 * (attempt as u64 + 1) }
            } else {
                RetryStep::GiveUp { wait_secs: 0 }
            }
        },
        HttpEvent::TransportFailure => {
            if attempt + 1 < MAX_RETRIES {
                RetryStep::Retry { wait_secs: 5 * (attempt as u64 + 1) + REQUEST_INTERVAL_SECS }
            } else {
                RetryStep::GiveUp { wait_secs: REQUEST_INTERVAL_SECS }
            }
        },
        HttpEvent::Reply(body) => {
            match extract_reply_text(body.as_str()) {
                Some(text) => match parse_ai_reply(text.as_str()) {
                    Some(resp) => RetryStep::Done(resp),
                    None => if attempt + 1 < MAX_RETRIES {
                        RetryStep::Retry { wait_secs: REQUEST_INTERVAL_SECS }
                    } else {
                        RetryStep::GiveUp { wait_secs: REQUEST_INTERVAL_SECS }
                    },
                },
                None => if attempt + 1 < MAX_RETRIES {
                    RetryStep::Retry { wait_secs: REQUEST_INTERVAL_SECS }
                } else {
                    RetryStep::GiveUp { wait_secs: REQUEST_INTERVAL_SECS }
                },
            }
        },
    }
}

} // verus!
