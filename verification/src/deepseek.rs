//! The compute side of talking to the upstream chat service: request
//! assembly, stream framing, and response shaping. The HTTP itself happens
//! outside the library.

use vstd::prelude::*;

use crate::models::{
    ChatChoice, ChatCompletionResponse, ChatMessage, ChatMessageContent, ChatMessageDelta,
    ChatUsage, CompletionRequest, FeatureQuota, StreamChoice, StreamChunk,
};
use crate::text::{contains_seq, is_match_at, match_at, push_char, str_chars};

verus! {

/// How much of the thinking quota is left.
pub fn remaining_quota(quota: &FeatureQuota) -> (r: u32)
    ensures
        r == if quota.thinking.used <= quota.thinking.quota {
            (quota.thinking.quota - quota.thinking.used) as u32
        } else {
            0u32
        },
{
    if quota.thinking.used <= quota.thinking.quota {
        quota.thinking.quota - quota.thinking.used
    } else {
        0
    }
}

/// The upstream completion request for one prompt on one session.
pub fn build_completion_request(
    chat_session_id: String,
    parent_message_id: Option<String>,
    prompt: String,
    search_enabled: bool,
    thinking_enabled: bool,
) -> (r: CompletionRequest)
    ensures
        r.chat_session_id == chat_session_id,
        r.parent_message_id == parent_message_id,
        r.prompt == prompt,
        r.ref_file_ids@.len() == 0,
        r.search_enabled == search_enabled,
        r.thinking_enabled == thinking_enabled,
{
    CompletionRequest {
        chat_session_id,
        parent_message_id,
        prompt,
        ref_file_ids: Vec::new(),
        search_enabled,
        thinking_enabled,
    }
}

/// The composite conversation id: the session, an `@`, the message.
pub fn format_conversation_id(session_id: &str, message_id: &str) -> (r: String)
    ensures
        r@ == session_id@ + seq!['@'] + message_id@,
{
    let mut out = String::from_str(session_id);
    push_char(&mut out, '@');
    out.append(message_id);
    proof {
        assert(out@ =~= session_id@ + seq!['@'] + message_id@);
    }
    out
}

/// The one-shot response around the accumulated assistant text.
pub fn build_completion_response(
    session_id: &str,
    message_id: &str,
    model: &str,
    content: String,
    created: u64,
) -> (r: ChatCompletionResponse)
    ensures
        r.id@ == session_id@ + seq!['@'] + message_id@,
        r.object@ == "chat.completion"@,
        r.created == created,
        r.model@ == model@,
        r.choices@.len() == 1,
        r.choices@[0].index == 0,
        (r.choices@[0].message matches Some(m) && m.role@ == "assistant"@ && (
        m.content matches ChatMessageContent::Text(t) && t == content)),
        r.choices@[0].delta is None,
        (r.choices@[0].finish_reason matches Some(f) && f@ == "stop"@),
        (r.usage matches Some(u) && u == (ChatUsage {
            prompt_tokens: 1,
            completion_tokens: 1,
            total_tokens: 2,
        })),
{
    let id = format_conversation_id(session_id, message_id);
    let mut choices: Vec<ChatChoice> = Vec::new();
    choices.push(
        ChatChoice {
            index: 0,
            message: Some(
                ChatMessage {
                    role: String::from_str("assistant"),
                    content: ChatMessageContent::Text(content),
                },
            ),
            delta: None,
            finish_reason: Some(String::from_str("stop")),
        },
    );
    ChatCompletionResponse {
        id,
        object: String::from_str("chat.completion"),
        created,
        model: String::from_str(model),
        choices,
        usage: Some(ChatUsage { prompt_tokens: 1, completion_tokens: 1, total_tokens: 2 }),
    }
}

/// One streamed chunk: the delta under the assistant role, with the given
/// id, content and finish marker.
pub fn build_stream_chunk(
    id: String,
    model: &str,
    created: u64,
    content: String,
    finish_reason: Option<String>,
) -> (r: StreamChunk)
    ensures
        r.id == id,
        r.object@ == "chat.completion.chunk"@,
        r.created == created,
        r.model@ == model@,
        r.choices@.len() == 1,
        r.choices@[0].index == 0,
        (r.choices@[0].delta.role matches Some(a) && a@ == "assistant"@),
        r.choices@[0].delta.content == Some(content),
        r.choices@[0].delta.reasoning_content is None,
        r.choices@[0].finish_reason == finish_reason,
{
    let mut choices: Vec<StreamChoice> = Vec::new();
    choices.push(
        StreamChoice {
            index: 0,
            delta: ChatMessageDelta {
                role: Some(String::from_str("assistant")),
                content: Some(content),
                reasoning_content: None,
            },
            finish_reason,
        },
    );
    StreamChunk {
        id,
        object: String::from_str("chat.completion.chunk"),
        created,
        model: String::from_str(model),
        choices,
    }
}

/// A line with its one trailing carriage return dropped, as line splitting
/// does.
pub open spec fn strip_cr(l: Seq<char>) -> Seq<char> {
    if l.len() > 0 && l[l.len() - 1] == '\r' {
        l.drop_last()
    } else {
        l
    }
}

/// The lines of `s`: split at newlines, each line's trailing carriage
/// return dropped, no empty line after a final newline.
pub open spec fn lines_spec(s: Seq<char>, cur: Seq<char>) -> Seq<Seq<char>>
    decreases s.len(),
{
    if s.len() == 0 {
        if cur.len() == 0 {
            Seq::empty()
        } else {
            seq![strip_cr(cur)]
        }
    } else if s[0] == '\n' {
        seq![strip_cr(cur)] + lines_spec(s.skip(1), Seq::empty())
    } else {
        lines_spec(s.skip(1), cur.push(s[0]))
    }
}

/// A server-sent-events payload line: tagged `data: ` and not the end
/// marker.
pub open spec fn is_data_line(l: Seq<char>) -> bool {
    l.len() >= 6 && l.subrange(0, 6) == "data: "@ && !contains_seq(l, "[DONE]"@)
}

/// The payloads of the data lines, tags stripped.
pub open spec fn sse_payloads_of(lines: Seq<Seq<char>>) -> Seq<Seq<char>>
    decreases lines.len(),
{
    if lines.len() == 0 {
        Seq::empty()
    } else {
        (if is_data_line(lines[0]) {
            seq![lines[0].skip(6)]
        } else {
            Seq::<Seq<char>>::empty()
        }) + sse_payloads_of(lines.skip(1))
    }
}

/// The event-stream body's payloads: every `data: ` line except the end
/// marker, in order, tags stripped.
pub fn extract_sse_payloads(text: &str) -> (r: Vec<String>)
    ensures
        r@.map_values(|t: String| t@) == sse_payloads_of(lines_spec(text@, Seq::empty())),
{
    let lines = split_lines(text);
    let ghost ls = lines@.map_values(|t: String| t@);
    let marker = str_chars("data: ");
    let done = str_chars("[DONE]");
    proof {
        reveal_strlit("data: ");
        reveal_strlit("[DONE]");
    }
    let n = lines.len();
    let mut out: Vec<String> = Vec::new();
    let mut i: usize = 0;
    proof {
        assert(ls.skip(0) =~= ls);
        assert(out@.map_values(|t: String| t@) + sse_payloads_of(ls) =~= sse_payloads_of(ls));
    }
    while i < n
        invariant
            n == ls.len(),
            ls == lines@.map_values(|t: String| t@),
            marker@ == "data: "@,
            marker@.len() == 6,
            done@ == "[DONE]"@,
            i <= n,
            out@.map_values(|t: String| t@) + sse_payloads_of(ls.skip(i as int))
                == sse_payloads_of(ls),
        decreases n - i,
    {
        let ghost pre = out@.map_values(|t: String| t@);
        proof {
            assert(ls.skip(i as int)[0] == ls[i as int]);
            assert(ls.skip(i as int).skip(1) =~= ls.skip(i + 1));
        }
        let line = str_chars(lines[i].as_str());
        let tagged = match_at(&line, &marker, 0) && crate::text::contains_chars(&line, &done)
            == false;
        if tagged {
            let m = line.len();
            let mut payload: Vec<char> = Vec::new();
            let mut j: usize = 6;
            while j < m
                invariant
                    m == line@.len(),
                    6 <= j <= m,
                    payload@ =~= line@.subrange(6, j as int),
                decreases m - j,
            {
                payload.push(line[j]);
                proof {
                    assert(payload@ =~= line@.subrange(6, j + 1));
                }
                j = j + 1;
            }
            proof {
                assert(line@.subrange(6, m as int) =~= line@.skip(6));
                assert(is_data_line(ls[i as int])) by {
                    assert(line@.subrange(0, 6) =~= "data: "@);
                }
            }
            out.push(crate::text::chars_string(&payload));
            proof {
                assert(out@.map_values(|t: String| t@) =~= pre + seq![ls[i as int].skip(6)]);
                assert((pre + seq![ls[i as int].skip(6)]) + sse_payloads_of(ls.skip(i + 1)) =~= pre
                    + (seq![ls[i as int].skip(6)] + sse_payloads_of(ls.skip(i + 1))));
            }
        } else {
            proof {
                assert(!is_data_line(ls[i as int])) by {
                    if is_data_line(ls[i as int]) {
                        assert(is_match_at(line@, "data: "@, 0)) by {
                            assert(line@.subrange(0, 6) =~= ls[i as int].subrange(0, 6));
                        }
                    }
                }
                assert(Seq::<Seq<char>>::empty() + sse_payloads_of(ls.skip(i + 1))
                    =~= sse_payloads_of(ls.skip(i + 1)));
            }
        }
        i = i + 1;
    }
    proof {
        assert(ls.skip(n as int) =~= Seq::<Seq<char>>::empty());
        assert(out@.map_values(|t: String| t@) + sse_payloads_of(ls.skip(n as int))
            =~= out@.map_values(|t: String| t@));
    }
    out
}

/// Split `text` into its lines: at newlines, trailing carriage returns
/// dropped, no empty line after a final newline.
pub fn split_lines(text: &str) -> (r: Vec<String>)
    ensures
        r@.map_values(|t: String| t@) == lines_spec(text@, Seq::empty()),
{
    let chars = str_chars(text);
    let ghost body = chars@;
    let n = chars.len();
    let mut out: Vec<String> = Vec::new();
    let mut cur: Vec<char> = Vec::new();
    let mut i: usize = 0;
    proof {
        assert(body.skip(0) =~= body);
        assert(cur@ =~= Seq::<char>::empty());
        assert(out@.map_values(|t: String| t@) + lines_spec(body, Seq::empty()) =~= lines_spec(
            body,
            Seq::empty(),
        ));
    }
    while i < n
        invariant
            n == body.len(),
            body == chars@,
            i <= n,
            out@.map_values(|t: String| t@) + lines_spec(body.skip(i as int), cur@) == lines_spec(
                body,
                Seq::empty(),
            ),
        decreases n - i,
    {
        let ghost pre_out = out@.map_values(|t: String| t@);
        let ghost pre_cur = cur@;
        proof {
            assert(body.skip(i as int)[0] == body[i as int]);
            assert(body.skip(i as int).skip(1) =~= body.skip(i + 1));
        }
        if chars[i] == '\n' {
            let line = strip_cr_exec(cur);
            out.push(crate::text::chars_string(&line));
            cur = Vec::new();
            proof {
                assert(cur@ =~= Seq::<char>::empty());
                assert(out@.map_values(|t: String| t@) =~= pre_out + seq![strip_cr(pre_cur)]);
                assert((pre_out + seq![strip_cr(pre_cur)]) + lines_spec(
                    body.skip(i + 1),
                    Seq::empty(),
                ) =~= pre_out + (seq![strip_cr(pre_cur)] + lines_spec(
                    body.skip(i + 1),
                    Seq::empty(),
                )));
            }
        } else {
            cur.push(chars[i]);
            proof {
                assert(cur@ =~= pre_cur.push(body[i as int]));
            }
        }
        i = i + 1;
    }
    let ghost pre_out = out@.map_values(|t: String| t@);
    let ghost pre_cur = cur@;
    proof {
        assert(body.skip(n as int) =~= Seq::<char>::empty());
    }
    if cur.len() > 0 {
        let line = strip_cr_exec(cur);
        out.push(crate::text::chars_string(&line));
        proof {
            assert(out@.map_values(|t: String| t@) =~= pre_out + seq![strip_cr(pre_cur)]);
        }
    } else {
        proof {
            assert(pre_out + Seq::<Seq<char>>::empty() =~= pre_out);
        }
    }
    out
}

/// `cur` with one trailing carriage return dropped.
fn strip_cr_exec(cur: Vec<char>) -> (r: Vec<char>)
    ensures
        r@ == strip_cr(cur@),
{
    let mut cur = cur;
    let ghost pre = cur@;
    let n = cur.len();
    if n > 0 && cur[n - 1] == '\r' {
        let _ = cur.pop();
        proof {
            assert(cur@ =~= strip_cr(pre));
        }
    }
    cur
}

} // verus!
