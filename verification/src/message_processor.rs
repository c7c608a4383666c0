//! Message-format translation: turning a chat transcript into the upstream
//! prompt, and cleaning the upstream's streamed output.

use vstd::prelude::*;

use crate::models::{ChatMessage, ChatMessageContent, ContentPart};
use crate::text::{
    chars_string, contains_seq, is_digit, is_match_at, match_at, push_char, remove_occ,
    remove_occurrences, str_chars, str_contains,
};
use crate::utils::{is_fold_model, is_search_model, is_silent_model, is_thinking_model};

verus! {

/// One transcript entry reduced to its role and plain text.
#[derive(Debug)]
pub struct ProcessedMessage {
    pub role: String,
    pub text: String,
}

impl Clone for ProcessedMessage {
    fn clone(&self) -> (r: Self)
        ensures
            r == *self,
    {
        ProcessedMessage { role: self.role.clone(), text: self.text.clone() }
    }
}

/// The (role, text) views of a row of processed messages.
pub open spec fn pm_views(v: Seq<ProcessedMessage>) -> Seq<(Seq<char>, Seq<char>)> {
    v.map_values(|p: ProcessedMessage| (p.role@, p.text@))
}

/// The texts of the parts typed `text`, in order.
pub open spec fn part_texts(parts: Seq<ContentPart>) -> Seq<Seq<char>>
    decreases parts.len(),
{
    if parts.len() == 0 {
        Seq::empty()
    } else {
        (if parts[0].content_type@ == "text"@ && parts[0].text is Some {
            seq![parts[0].text->0@]
        } else {
            Seq::empty()
        }) + part_texts(parts.skip(1))
    }
}

/// The pieces joined with one newline between them.
pub open spec fn join_nl(ts: Seq<Seq<char>>) -> Seq<char>
    decreases ts.len(),
{
    if ts.len() == 0 {
        Seq::empty()
    } else {
        ts[0] + join_rest(ts.skip(1))
    }
}

/// The tail of a newline join: each piece preceded by one newline.
pub open spec fn join_rest(ts: Seq<Seq<char>>) -> Seq<char>
    decreases ts.len(),
{
    if ts.len() == 0 {
        Seq::empty()
    } else {
        seq!['\n'] + ts[0] + join_rest(ts.skip(1))
    }
}

/// What `extract_text_content` yields: the text itself, or the `text` parts
/// joined with newlines.
pub open spec fn extract_text_spec(content: ChatMessageContent) -> Seq<char> {
    match content {
        ChatMessageContent::Text(t) => t@,
        ChatMessageContent::Array(parts) => join_nl(part_texts(parts@)),
    }
}

/// Consecutive messages of one role fold into one block, the texts joined
/// with a blank line; `cur` is the block being grown.
pub open spec fn merge_acc(
    ms: Seq<(Seq<char>, Seq<char>)>,
    cur: (Seq<char>, Seq<char>),
) -> Seq<(Seq<char>, Seq<char>)>
    decreases ms.len(),
{
    if ms.len() == 0 {
        seq![cur]
    } else if ms[0].0 == cur.0 {
        merge_acc(ms.skip(1), (cur.0, cur.1 + "\n\n"@ + ms[0].1))
    } else {
        seq![cur] + merge_acc(ms.skip(1), ms[0])
    }
}

/// What `merge_same_role_messages` yields.
pub open spec fn merge_spec(ms: Seq<(Seq<char>, Seq<char>)>) -> Seq<(Seq<char>, Seq<char>)> {
    if ms.len() == 0 {
        Seq::empty()
    } else {
        merge_acc(ms.skip(1), ms[0])
    }
}

/// One block under its role tag: the assistant in its own brackets, a later
/// user or system block under the user tag, anything else bare.
pub open spec fn format_block(role: Seq<char>, text: Seq<char>, idx: int) -> Seq<char> {
    if role == "assistant"@ {
        "<｜Assistant｜>"@ + text + "<｜end▁of▁sentence｜>"@
    } else if role == "user"@ || role == "system"@ {
        if idx > 0 {
            "<｜User｜>"@ + text
        } else {
            text
        }
    } else {
        text
    }
}

/// All blocks tagged and concatenated, the first at position `idx`.
pub open spec fn format_all(ms: Seq<(Seq<char>, Seq<char>)>, idx: int) -> Seq<char>
    decreases ms.len(),
{
    if ms.len() == 0 {
        Seq::empty()
    } else {
        format_block(ms[0].0, ms[0].1, idx) + format_all(ms.skip(1), idx + 1)
    }
}

/// What `format_messages_with_tags` yields: the tagged concatenation with
/// the image-link pattern removed.
pub open spec fn format_tags_spec(ms: Seq<(Seq<char>, Seq<char>)>) -> Seq<char> {
    remove_occ(format_all(ms, 0), "![.*]\\(.*\\)"@)
}

/// What `prepare_messages` yields for a whole transcript.
pub open spec fn prepare_spec(ms: Seq<ChatMessage>) -> Seq<char> {
    if ms.len() == 0 {
        Seq::empty()
    } else {
        format_tags_spec(
            merge_spec(ms.map_values(|m: ChatMessage| (m.role@, extract_text_spec(m.content)))),
        )
    }
}

/// A citation marker `[citation:<digits>]` with `k` digits starts `s`.
pub open spec fn is_citation_from(s: Seq<char>, k: int) -> bool {
    &&& k >= 1
    &&& 11 + k <= s.len()
    &&& s.subrange(0, 10) == "[citation:"@
    &&& (forall|d: int| 10 <= d < 10 + k ==> is_digit(#[trigger] s[d]))
    &&& s[10 + k] == ']'
}

/// What `remove_citations` yields: the text with every citation marker
/// dropped, scanning left to right.
pub open spec fn remove_citations_spec(s: Seq<char>) -> Seq<char>
    decreases s.len(),
{
    if s.len() == 0 {
        s
    } else if exists|k: int| is_citation_from(s, k) {
        remove_citations_spec(s.skip(11 + choose|k: int| is_citation_from(s, k)))
    } else {
        s.subrange(0, 1) + remove_citations_spec(s.skip(1))
    }
}

/// Only one digit-run length can match at one position.
proof fn lemma_citation_unique(s: Seq<char>, k1: int, k2: int)
    requires
        is_citation_from(s, k1),
        is_citation_from(s, k2),
    ensures
        k1 == k2,
{
    if k1 < k2 {
        assert(is_digit(s[10 + k1]));
    } else if k2 < k1 {
        assert(is_digit(s[10 + k2]));
    }
}

/// What one streamed piece becomes: the text passed on (if any), the new
/// thinking flag, and the new collected search references.
pub open spec fn stream_step(
    content: Seq<char>,
    model: Seq<char>,
    thinking0: bool,
    ref0: Seq<char>,
) -> (Option<Seq<char>>, bool, Seq<char>) {
    let is_thinking = contains_seq(model, "think"@) || contains_seq(model, "r1"@);
    let is_search = contains_seq(model, "search"@);
    let is_silent = contains_seq(model, "silent"@);
    let is_fold = contains_seq(model, "fold"@);
    if is_search && !is_silent && contains_seq(content, "检索"@) {
        (Some(content), thinking0, ref0 + content + seq!['\n'])
    } else if is_thinking && is_fold && !thinking0 && contains_seq(content, "[思考"@) {
        (Some("<details><summary>思考过程</summary><pre>"@), true, ref0)
    } else if is_thinking && is_fold && thinking0 && contains_seq(content, "[思考结束]"@) {
        (Some("</pre></details>"@), false, ref0)
    } else if is_thinking && is_fold {
        (Some(remove_citations_spec(content)), thinking0, ref0)
    } else if is_thinking && is_silent && (contains_seq(content, "[思考"@) || contains_seq(
        content,
        "思考过程"@,
    )) {
        (None::<Seq<char>>, thinking0, ref0)
    } else if is_thinking && !is_silent && !thinking0 && contains_seq(content, "[思考"@) {
        (Some("[思考开始]\n"@), true, ref0)
    } else if is_thinking && !is_silent && thinking0 && contains_seq(content, "[思考结束]"@) {
        (Some("\n\n[思考结束]\n"@), false, ref0)
    } else {
        (Some(remove_citations_spec(content)), thinking0, ref0)
    }
}

/// What `add_search_references` yields: the content (leading newlines
/// dropped) with the cleaned references appended under a heading, or the
/// content alone when there are none.
pub open spec fn search_refs_spec(content: Seq<char>, refs: Seq<char>) -> Seq<char> {
    if refs.len() == 0 {
        content
    } else {
        trim_leading_nl(content) + "\n\n搜索结果来自：\n"@ + remove_citations_spec(refs)
    }
}

/// `s` without its leading newlines.
pub open spec fn trim_leading_nl(s: Seq<char>) -> Seq<char>
    decreases s.len(),
{
    if s.len() > 0 && s[0] == '\n' {
        trim_leading_nl(s.skip(1))
    } else {
        s
    }
}

/// Turns transcripts into prompts and cleans streamed output.
pub struct MessageProcessor;

impl MessageProcessor {
    /// The plain text of one message: the text itself, or the `text` parts
    /// joined with newlines.
    pub fn extract_text_content(content: &ChatMessageContent) -> (r: String)
        ensures
            r@ == extract_text_spec(*content),
    {
        match content {
            ChatMessageContent::Text(t) => t.clone(),
            ChatMessageContent::Array(parts) => {
                let n = parts.len();
                let mut texts: Vec<String> = Vec::new();
                let mut i: usize = 0;
                proof {
                    assert(parts@.skip(0) =~= parts@);
                    assert(texts@.map_values(|t: String| t@) =~= Seq::<Seq<char>>::empty());
                }
                while i < n
                    invariant
                        n == parts@.len(),
                        i <= n,
                        part_texts(parts@) == texts@.map_values(|t: String| t@) + part_texts(
                            parts@.skip(i as int),
                        ),
                    decreases n - i,
                {
                    let ghost pre = texts@;
                    let p = &parts[i];
                    let is_text = crate::strmap::str_eq(p.content_type.as_str(), "text");
                    if is_text {
                        match &p.text {
                            Some(t) => {
                                texts.push(t.clone());
                            },
                            None => {},
                        }
                    }
                    proof {
                        assert(parts@.skip(i as int)[0] == parts@[i as int]);
                        assert(parts@.skip(i as int).skip(1) =~= parts@.skip(i + 1));
                        if is_text && parts@[i as int].text is Some {
                            assert(texts@.map_values(|t: String| t@) =~= pre.map_values(
                                |t: String| t@,
                            ) + seq![parts@[i as int].text->0@]);
                            assert((pre.map_values(|t: String| t@) + seq![
                                parts@[i as int].text->0@,
                            ]) + part_texts(parts@.skip(i + 1)) =~= pre.map_values(|t: String| t@)
                                + (seq![parts@[i as int].text->0@] + part_texts(
                                parts@.skip(i + 1),
                            )));
                        } else {
                            assert(Seq::<Seq<char>>::empty() + part_texts(parts@.skip(i + 1))
                                =~= part_texts(parts@.skip(i + 1)));
                        }
                    }
                    i = i + 1;
                }
                proof {
                    assert(parts@.skip(n as int) =~= Seq::<ContentPart>::empty());
                    assert(texts@.map_values(|t: String| t@) + part_texts(parts@.skip(n as int))
                        =~= texts@.map_values(|t: String| t@));
                }
                Self::join_with_newlines(&texts)
            },
        }
    }

    /// The pieces joined with one newline between them.
    fn join_with_newlines(texts: &Vec<String>) -> (r: String)
        ensures
            r@ == join_nl(texts@.map_values(|t: String| t@)),
    {
        let ghost ts = texts@.map_values(|t: String| t@);
        let n = texts.len();
        if n == 0 {
            return String::new();
        }
        let mut out = texts[0].clone();
        let mut i: usize = 1;
        proof {
            assert(out@ + join_rest(ts.skip(1)) == join_nl(ts));
        }
        while i < n
            invariant
                n == ts.len(),
                ts == texts@.map_values(|t: String| t@),
                1 <= i <= n,
                out@ + join_rest(ts.skip(i as int)) == join_nl(ts),
            decreases n - i,
        {
            let ghost pre = out@;
            push_char(&mut out, '\n');
            out.append(texts[i].as_str());
            proof {
                assert(ts.skip(i as int)[0] == ts[i as int]);
                assert(ts.skip(i as int).skip(1) =~= ts.skip(i + 1));
                assert(out@ =~= pre + (seq!['\n'] + ts[i as int]));
                assert(out@ + join_rest(ts.skip(i + 1)) =~= pre + (seq!['\n'] + ts[i as int]
                    + join_rest(ts.skip(i + 1))));
                assert(seq!['\n'] + ts[i as int] + join_rest(ts.skip(i + 1)) =~= join_rest(
                    ts.skip(i as int),
                ));
            }
            i = i + 1;
        }
        proof {
            assert(ts.skip(n as int) =~= Seq::<Seq<char>>::empty());
            assert(out@ + join_rest(ts.skip(n as int)) =~= out@);
        }
        out
    }

    /// Fold runs of one role into single blocks, texts joined with a blank
    /// line.
    pub fn merge_same_role_messages(messages: Vec<ProcessedMessage>) -> (r: Vec<ProcessedMessage>)
        ensures
            pm_views(r@) == merge_spec(pm_views(messages@)),
    {
        let ghost vs = pm_views(messages@);
        let n = messages.len();
        if n == 0 {
            let r: Vec<ProcessedMessage> = Vec::new();
            proof {
                assert(pm_views(r@) =~= Seq::<(Seq<char>, Seq<char>)>::empty());
            }
            return r;
        }
        let mut blocks: Vec<ProcessedMessage> = Vec::new();
        let mut cur = messages[0].clone();
        let mut i: usize = 1;
        proof {
            assert(vs.skip(1) =~= pm_views(messages@).skip(1));
            assert(pm_views(blocks@) =~= Seq::<(Seq<char>, Seq<char>)>::empty());
            assert(pm_views(blocks@) + merge_acc(vs.skip(1), (cur.role@, cur.text@)) =~= merge_acc(
                vs.skip(1),
                vs[0],
            ));
        }
        while i < n
            invariant
                n == vs.len(),
                vs == pm_views(messages@),
                1 <= i <= n,
                pm_views(blocks@) + merge_acc(vs.skip(i as int), (cur.role@, cur.text@))
                    == merge_spec(vs),
            decreases n - i,
        {
            let ghost pre_blocks = pm_views(blocks@);
            let ghost pre_cur = (cur.role@, cur.text@);
            let m = &messages[i];
            proof {
                assert(vs.skip(i as int)[0] == vs[i as int]);
                assert(vs.skip(i as int).skip(1) =~= vs.skip(i + 1));
            }
            if crate::strmap::str_eq(m.role.as_str(), cur.role.as_str()) {
                let joined = cur.text.concat("\n\n").concat(m.text.as_str());
                cur = ProcessedMessage { role: cur.role, text: joined };
                proof {
                    assert((cur.role@, cur.text@) == (pre_cur.0, pre_cur.1 + "\n\n"@
                        + vs[i as int].1));
                }
            } else {
                blocks.push(cur);
                cur = m.clone();
                proof {
                    assert(pm_views(blocks@) =~= pre_blocks + seq![pre_cur]);
                    assert((pre_blocks + seq![pre_cur]) + merge_acc(vs.skip(i + 1), vs[i as int])
                        =~= pre_blocks + (seq![pre_cur] + merge_acc(vs.skip(i + 1), vs[i as int])));
                }
            }
            i = i + 1;
        }
        blocks.push(cur);
        proof {
            assert(vs.skip(n as int) =~= Seq::<(Seq<char>, Seq<char>)>::empty());
            assert(pm_views(blocks@) =~= pm_views(blocks@.drop_last()) + seq![
                (blocks@.last().role@, blocks@.last().text@),
            ]);
        }
        blocks
    }

    /// Tag each block by role, concatenate, and drop the image-link pattern.
    pub fn format_messages_with_tags(blocks: &Vec<ProcessedMessage>) -> (r: String)
        ensures
            r@ == format_tags_spec(pm_views(blocks@)),
    {
        let ghost vs = pm_views(blocks@);
        let n = blocks.len();
        let mut out = String::new();
        let mut i: usize = 0;
        proof {
            assert(vs.skip(0) =~= vs);
            assert(out@ + format_all(vs, 0) =~= format_all(vs, 0));
        }
        while i < n
            invariant
                n == vs.len(),
                vs == pm_views(blocks@),
                i <= n,
                out@ + format_all(vs.skip(i as int), i as int) == format_all(vs, 0),
            decreases n - i,
        {
            let ghost pre = out@;
            let b = &blocks[i];
            proof {
                assert(vs.skip(i as int)[0] == vs[i as int]);
                assert(vs.skip(i as int).skip(1) =~= vs.skip(i + 1));
            }
            if crate::strmap::str_eq(b.role.as_str(), "assistant") {
                out.append("<｜Assistant｜>");
                out.append(b.text.as_str());
                out.append("<｜end▁of▁sentence｜>");
                proof {
                    assert(out@ =~= pre + ("<｜Assistant｜>"@ + vs[i as int].1
                        + "<｜end▁of▁sentence｜>"@));
                }
            } else if crate::strmap::str_eq(b.role.as_str(), "user") || crate::strmap::str_eq(
                b.role.as_str(),
                "system",
            ) {
                if i > 0 {
                    out.append("<｜User｜>");
                    out.append(b.text.as_str());
                    proof {
                        assert(out@ =~= pre + ("<｜User｜>"@ + vs[i as int].1));
                    }
                } else {
                    out.append(b.text.as_str());
                }
            } else {
                out.append(b.text.as_str());
            }
            proof {
                assert(out@ + format_all(vs.skip(i + 1), i + 1) =~= pre + (format_block(
                    vs[i as int].0,
                    vs[i as int].1,
                    i as int,
                ) + format_all(vs.skip(i + 1), i + 1)));
            }
            i = i + 1;
        }
        proof {
            assert(vs.skip(n as int) =~= Seq::<(Seq<char>, Seq<char>)>::empty());
            assert(out@ + format_all(vs.skip(n as int), n as int) =~= out@);
        }
        let chars = str_chars(out.as_str());
        let pat = str_chars("![.*]\\(.*\\)");
        proof {
            reveal_strlit("![.*]\\(.*\\)");
        }
        let cleaned = remove_occurrences(&chars, &pat);
        chars_string(&cleaned)
    }

    /// The whole transcript as one upstream prompt: texts extracted, runs of
    /// one role merged, blocks tagged.
    pub fn prepare_messages(messages: &Vec<ChatMessage>) -> (r: String)
        ensures
            r@ == prepare_spec(messages@),
    {
        let n = messages.len();
        if n == 0 {
            return String::new();
        }
        let ghost exd = messages@.map_values(
            |m: ChatMessage| (m.role@, extract_text_spec(m.content)),
        );
        let mut processed: Vec<ProcessedMessage> = Vec::new();
        let mut i: usize = 0;
        while i < n
            invariant
                n == messages@.len(),
                exd == messages@.map_values(
                    |m: ChatMessage| (m.role@, extract_text_spec(m.content)),
                ),
                i <= n,
                pm_views(processed@) =~= exd.subrange(0, i as int),
            decreases n - i,
        {
            let m = &messages[i];
            let text = Self::extract_text_content(&m.content);
            let pm = ProcessedMessage { role: m.role.clone(), text };
            let ghost pmg = pm;
            let ghost prev = processed@;
            processed.push(pm);
            proof {
                assert(exd[i as int] == (messages@[i as int].role@, extract_text_spec(
                    messages@[i as int].content,
                )));
                assert(pmg.role@ == messages@[i as int].role@);
                assert(pm_views(prev).len() == i as int);
                assert(prev.len() == i as int);
                assert(processed@ == prev.push(pmg));
                assert forall|j: int|
                    0 <= j < i + 1 implies #[trigger] pm_views(processed@)[j] == exd[j] by {
                    if j < i {
                        assert(processed@[j] == prev[j]);
                        assert(pm_views(prev)[j] == exd.subrange(0, i as int)[j]);
                    } else {
                        assert(processed@[j] == pmg);
                    }
                }
                assert(pm_views(processed@) =~= exd.subrange(0, i + 1));
            }
            i = i + 1;
        }
        proof {
            assert(exd.subrange(0, n as int) =~= exd);
        }
        let merged = Self::merge_same_role_messages(processed);
        Self::format_messages_with_tags(&merged)
    }

    /// The text with every `[citation:<digits>]` marker removed.
    pub fn remove_citations(content: &str) -> (r: String)
        ensures
            r@ == remove_citations_spec(content@),
    {
        let s = str_chars(content);
        let marker = str_chars("[citation:");
        proof {
            reveal_strlit("[citation:");
        }
        let n = s.len();
        let mut out: Vec<char> = Vec::new();
        let mut i: usize = 0;
        proof {
            assert(s@.skip(0) =~= s@);
            assert(out@ + remove_citations_spec(s@) =~= remove_citations_spec(s@));
        }
        while i < n
            invariant
                n == s@.len(),
                s@ == content@,
                marker@ == "[citation:"@,
                marker@.len() == 10,
                i <= n,
                remove_citations_spec(content@) == out@ + remove_citations_spec(
                    s@.skip(i as int),
                ),
            decreases n - i,
        {
            let ghost rest = s@.skip(i as int);
            let ghost pre = out@;
            let mut matched_len: usize = 0;
            if match_at(&s, &marker, i) {
                // count the digit run, then demand the closing bracket
                let mut j: usize = i + 10;
                while j < n && '0' <= s[j] && s[j] <= '9'
                    invariant
                        n == s@.len(),
                        i + 10 <= j <= n,
                        forall|d: int| i + 10 <= d < j ==> is_digit(#[trigger] s@[d]),
                    decreases n - j,
                {
                    j = j + 1;
                }
                let k = j - (i + 10);
                if k >= 1 && j < n && s[j] == ']' {
                    matched_len = 11 + k;
                    proof {
                        assert(is_citation_from(rest, k as int)) by {
                            assert(rest.subrange(0, 10) =~= s@.subrange(i as int, i + 10));
                            assert(forall|d: int|
                                10 <= d < 10 + k ==> is_digit(#[trigger] rest[d]));
                            assert(rest[10 + k] == s@[j as int]);
                        }
                    }
                } else {
                    proof {
                        assert forall|k2: int| !is_citation_from(rest, k2) by {
                            if is_citation_from(rest, k2) {
                                // the digit run ends exactly where the scan stopped
                                assert(forall|d: int|
                                    10 <= d < 10 + k2 ==> is_digit(#[trigger] rest[d]));
                                if k2 > k as int {
                                    // position j is inside the claimed run but not a digit
                                    if j < n {
                                        assert(is_digit(rest[10 + k]));
                                        assert(rest[10 + k] == s@[j as int]);
                                        assert(false);
                                    } else {
                                        assert(11 + k2 > rest.len());
                                        assert(false);
                                    }
                                } else {
                                    // the claimed closer sits inside the digit run or at the scan stop
                                    assert(rest[10 + k2] == ']');
                                    if k2 < k as int {
                                        assert(is_digit(s@[i + 10 + k2]));
                                        assert(rest[10 + k2] == s@[i + 10 + k2]);
                                        assert(false);
                                    } else {
                                        // k2 == k: the scan stop was not a closing bracket
                                        assert(rest[10 + k] == s@[j as int] && j < n);
                                        assert(false);
                                    }
                                }
                            }
                        }
                    }
                }
            } else {
                proof {
                    assert forall|k2: int| !is_citation_from(rest, k2) by {
                        if is_citation_from(rest, k2) {
                            assert(rest.subrange(0, 10) =~= s@.subrange(i as int, i + 10));
                            assert(is_match_at(s@, marker@, i as int));
                        }
                    }
                }
            }
            if matched_len > 0 {
                let ghost k = matched_len - 11;
                proof {
                    let kc = choose|k2: int| is_citation_from(rest, k2);
                    lemma_citation_unique(rest, kc, k);
                    assert(rest.skip(11 + k) =~= s@.skip(i + matched_len));
                }
                i = i + matched_len;
            } else {
                out.push(s[i]);
                proof {
                    assert(rest.subrange(0, 1) =~= seq![s@[i as int]]);
                    assert(rest.skip(1) =~= s@.skip(i + 1));
                    assert(out@ =~= pre + seq![s@[i as int]]);
                    assert(out@ + remove_citations_spec(s@.skip(i + 1)) =~= pre + (rest.subrange(
                        0,
                        1,
                    ) + remove_citations_spec(rest.skip(1))));
                }
                i = i + 1;
            }
        }
        proof {
            assert(s@.skip(n as int) =~= Seq::<char>::empty());
            assert(out@ + remove_citations_spec(s@.skip(n as int)) =~= out@);
        }
        chars_string(&out)
    }

    /// Route one streamed piece: pass search results through while
    /// collecting them, open and close the thinking markers per the model's
    /// mode, drop thinking in silent mode, and strip citation markers from
    /// ordinary text.
    pub fn process_stream_content(
        content: &str,
        model: &str,
        thinking_active: &mut bool,
        ref_content: &mut String,
    ) -> (r: Option<String>)
        ensures
            ({
                let step = stream_step(content@, model@, *old(thinking_active), old(ref_content)@);
                &&& (match r {
                    Some(s) => step.0 == Some(s@),
                    None => step.0 is None,
                })
                &&& *final(thinking_active) == step.1
                &&& final(ref_content)@ == step.2
            }),
    {
        let is_thinking = is_thinking_model(model);
        let is_search = is_search_model(model);
        let is_silent = is_silent_model(model);
        let is_fold = is_fold_model(model);
        if is_search && is_silent == false && str_contains(content, "检索") {
            ref_content.append(content);
            push_char(ref_content, '\n');
            return Some(String::from_str(content));
        }
        if is_thinking {
            if is_fold {
                if *thinking_active == false && str_contains(content, "[思考") {
                    *thinking_active = true;
                    return Some(String::from_str("<details><summary>思考过程</summary><pre>"));
                } else if *thinking_active && str_contains(content, "[思考结束]") {
                    *thinking_active = false;
                    return Some(String::from_str("</pre></details>"));
                }
            } else if is_silent {
                if str_contains(content, "[思考") || str_contains(content, "思考过程") {
                    return None;
                }
            } else {
                if *thinking_active == false && str_contains(content, "[思考") {
                    *thinking_active = true;
                    return Some(String::from_str("[思考开始]\n"));
                } else if *thinking_active && str_contains(content, "[思考结束]") {
                    *thinking_active = false;
                    return Some(String::from_str("\n\n[思考结束]\n"));
                }
            }
        }
        Some(Self::remove_citations(content))
    }

    /// Append the collected search references, cleaned of citation markers,
    /// under a heading; with none collected the content passes through.
    pub fn add_search_references(content: &str, ref_content: &str) -> (r: String)
        ensures
            r@ == search_refs_spec(content@, ref_content@),
    {
        if ref_content.is_empty() {
            return String::from_str(content);
        }
        let chars = str_chars(content);
        let n = chars.len();
        let mut start: usize = 0;
        proof {
            assert(chars@.skip(0) =~= chars@);
        }
        while start < n && chars[start] == '\n'
            invariant
                n == chars@.len(),
                chars@ == content@,
                start <= n,
                trim_leading_nl(content@) == trim_leading_nl(chars@.skip(start as int)),
            decreases n - start,
        {
            proof {
                assert(chars@.skip(start as int).skip(1) =~= chars@.skip(start + 1));
            }
            start = start + 1;
        }
        proof {
            assert(trim_leading_nl(chars@.skip(start as int)) == chars@.skip(start as int));
        }
        let mut kept: Vec<char> = Vec::new();
        let mut i: usize = start;
        while i < n
            invariant
                n == chars@.len(),
                start <= i <= n,
                kept@ =~= chars@.subrange(start as int, i as int),
            decreases n - i,
        {
            kept.push(chars[i]);
            proof {
                assert(kept@ =~= chars@.subrange(start as int, i + 1));
            }
            i = i + 1;
        }
        proof {
            assert(chars@.subrange(start as int, n as int) =~= chars@.skip(start as int));
        }
        let trimmed = chars_string(&kept);
        let cleaned = Self::remove_citations(ref_content);
        let out = trimmed.concat("\n\n搜索结果来自：\n").concat(cleaned.as_str());
        out
    }
}

} // verus!
