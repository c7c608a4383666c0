//! Clock, randomness and identifier helpers.
//!
//! Everything nondeterministic lives here, behind small trusted wrappers;
//! the rest of the library takes their results as plain values.

use vstd::prelude::*;

use crate::text::{
    chars_string, contains_seq, is_digit, remove_occ, remove_occurrences, str_chars, str_contains,
    trim_chars, trim_spec,
};

verus! {

/// Relies on `std::time::SystemTime::now` measured against `UNIX_EPOCH`:
/// the current time in whole seconds. The value depends on the clock, so
/// nothing is promised of it.
#[verifier::external_body]
pub fn unix_timestamp() -> u64 {
    std::time::SystemTime::now()
        .duration_since(std::time::UNIX_EPOCH)
        .unwrap_or_default()
        .as_secs()
}

/// Relies on `std::time::SystemTime::now` measured against `UNIX_EPOCH`:
/// the current time in whole milliseconds, truncated to 64 bits.
#[verifier::external_body]
pub fn unix_timestamp_ms() -> u64 {
    std::time::SystemTime::now()
        .duration_since(std::time::UNIX_EPOCH)
        .unwrap_or_default()
        .as_millis() as u64
}

/// Relies on `uuid::Uuid::new_v4` and its hyphenated `to_string`: 36
/// characters, lowercase hexadecimal with four hyphens. The value is random.
#[verifier::external_body]
pub fn generate_uuid() -> (r: String)
    ensures
        r@.len() == 36,
{
    uuid::Uuid::new_v4().to_string()
}

/// Relies on `uuid::Uuid::new_v4` and its `simple` formatter: 32 lowercase
/// hexadecimal characters, no hyphens. The value is random.
#[verifier::external_body]
pub fn generate_uuid_simple() -> (r: String)
    ensures
        r@.len() == 32,
{
    uuid::Uuid::new_v4().simple().to_string()
}

/// Relies on `rand::random_range`: a uniformly drawn index below `n`.
/// The call panics on an empty range, so `n` must be positive.
#[verifier::external_body]
pub(crate) fn random_index(n: usize) -> (r: usize)
    requires
        0 < n,
    ensures
        r < n,
{
    rand::random_range(0..n)
}

/// Pick one token at random, as the simple load-spreading strategy.
pub fn select_random_token(tokens: &[String]) -> (r: Option<&String>)
    ensures
        match r {
            Some(t) => exists|i: int| 0 <= i < tokens@.len() && *t == tokens@[i],
            None => tokens@.len() == 0,
        },
{
    if tokens.len() == 0 {
        return None;
    }
    let i = random_index(tokens.len());
    Some(&tokens[i])
}

/// The tokens of a bearer header: the `Bearer ` marker dropped, the rest
/// split on commas, each piece trimmed, empty pieces gone.
pub open spec fn split_tokens_spec(s: Seq<char>, cur: Seq<char>) -> Seq<Seq<char>>
    decreases s.len(),
{
    if s.len() == 0 {
        if trim_spec(cur).len() > 0 {
            seq![trim_spec(cur)]
        } else {
            Seq::empty()
        }
    } else if s[0] == ',' {
        (if trim_spec(cur).len() > 0 {
            seq![trim_spec(cur)]
        } else {
            Seq::<Seq<char>>::empty()
        }) + split_tokens_spec(s.skip(1), Seq::empty())
    } else {
        split_tokens_spec(s.skip(1), cur.push(s[0]))
    }
}

/// Split a bearer header into its comma-separated tokens.
pub fn split_tokens(authorization: &str) -> (r: Vec<String>)
    ensures
        r@.map_values(|t: String| t@) == split_tokens_spec(
            remove_occ(authorization@, "Bearer "@),
            Seq::empty(),
        ),
{
    let chars = str_chars(authorization);
    let marker = str_chars("Bearer ");
    proof {
        reveal_strlit("Bearer ");
    }
    let stripped = remove_occurrences(&chars, &marker);
    let ghost body = stripped@;
    let n = stripped.len();
    let mut out: Vec<String> = Vec::new();
    let mut cur: Vec<char> = Vec::new();
    let mut i: usize = 0;
    proof {
        assert(body.skip(0) =~= body);
        assert(cur@ =~= Seq::<char>::empty());
        assert(out@.map_values(|t: String| t@) =~= Seq::<Seq<char>>::empty());
        assert(out@.map_values(|t: String| t@) + split_tokens_spec(body, Seq::empty())
            =~= split_tokens_spec(body, Seq::empty()));
    }
    while i < n
        invariant
            n == body.len(),
            body == stripped@,
            i <= n,
            out@.map_values(|t: String| t@) + split_tokens_spec(body.skip(i as int), cur@)
                == split_tokens_spec(body, Seq::empty()),
        decreases n - i,
    {
        let ghost pre_out = out@.map_values(|t: String| t@);
        let ghost pre_cur = cur@;
        proof {
            assert(body.skip(i as int)[0] == body[i as int]);
            assert(body.skip(i as int).skip(1) =~= body.skip(i + 1));
        }
        if stripped[i] == ',' {
            let piece = trim_chars(&cur);
            if piece.len() > 0 {
                out.push(chars_string(&piece));
                proof {
                    assert(out@.map_values(|t: String| t@) =~= pre_out + seq![trim_spec(pre_cur)]);
                    assert((pre_out + seq![trim_spec(pre_cur)]) + split_tokens_spec(
                        body.skip(i + 1),
                        Seq::empty(),
                    ) =~= pre_out + (seq![trim_spec(pre_cur)] + split_tokens_spec(
                        body.skip(i + 1),
                        Seq::empty(),
                    )));
                }
            } else {
                proof {
                    assert(Seq::<Seq<char>>::empty() + split_tokens_spec(
                        body.skip(i + 1),
                        Seq::empty(),
                    ) =~= split_tokens_spec(body.skip(i + 1), Seq::empty()));
                }
            }
            cur = Vec::new();
            proof {
                assert(cur@ =~= Seq::<char>::empty());
            }
        } else {
            cur.push(stripped[i]);
            proof {
                assert(cur@ =~= pre_cur.push(body[i as int]));
            }
        }
        i = i + 1;
    }
    let piece = trim_chars(&cur);
    if piece.len() > 0 {
        out.push(chars_string(&piece));
    }
    proof {
        assert(body.skip(n as int) =~= Seq::<char>::empty());
        if trim_spec(cur@).len() > 0 {
            assert(out@.map_values(|t: String| t@) =~= out@.map_values(
                |t: String| t@,
            ).drop_last().push(trim_spec(cur@)));
            assert(out@.map_values(|t: String| t@) =~= out@.map_values(
                |t: String| t@,
            ).drop_last() + seq![trim_spec(cur@)]);
        } else {
            assert(out@.map_values(|t: String| t@) + Seq::<Seq<char>>::empty() =~= out@.map_values(
                |t: String| t@,
            ));
        }
    }
    out
}

/// A character the conversation-id head may hold: a lowercase hex-style
/// identifier with hyphens.
pub open spec fn is_conv_char(c: char) -> bool {
    ('0' <= c && c <= '9') || ('a' <= c && c <= 'z') || c == '-'
}

/// A composite conversation id: 36 identifier characters, an `@`, then one
/// or more digits.
pub open spec fn valid_conv_id(s: Seq<char>) -> bool {
    &&& s.len() >= 38
    &&& (forall|i: int| 0 <= i < 36 ==> is_conv_char(#[trigger] s[i]))
    &&& s[36] == '@'
    &&& (forall|i: int| 37 <= i < s.len() ==> is_digit(#[trigger] s[i]))
}

/// Split a composite conversation id into its session id and parent message
/// id, or nothing when the shape is wrong.
pub fn parse_conversation_id(conv_id: &str) -> (r: Option<(String, String)>)
    ensures
        match r {
            Some((session_id, parent_msg_id)) => {
                &&& valid_conv_id(conv_id@)
                &&& session_id@ == conv_id@.subrange(0, 36)
                &&& parent_msg_id@ == conv_id@.skip(37)
            },
            None => !valid_conv_id(conv_id@),
        },
{
    let s = str_chars(conv_id);
    let n = s.len();
    if n < 38 {
        return None;
    }
    let mut i: usize = 0;
    while i < 36
        invariant
            n == s@.len(),
            s@ == conv_id@,
            n >= 38,
            i <= 36,
            forall|j: int| 0 <= j < i ==> is_conv_char(#[trigger] s@[j]),
        decreases 36 - i,
    {
        let c = s[i];
        let ok = ('0' <= c && c <= '9') || ('a' <= c && c <= 'z') || c == '-';
        if ok == false {
            return None;
        }
        i = i + 1;
    }
    if s[36] != '@' {
        return None;
    }
    let mut j: usize = 37;
    while j < n
        invariant
            n == s@.len(),
            s@ == conv_id@,
            37 <= j <= n,
            forall|d: int| 37 <= d < j ==> is_digit(#[trigger] s@[d]),
        decreases n - j,
    {
        let c = s[j];
        let ok = '0' <= c && c <= '9';
        if ok == false {
            return None;
        }
        j = j + 1;
    }
    let mut head: Vec<char> = Vec::new();
    let mut k: usize = 0;
    while k < 36
        invariant
            n == s@.len(),
            n >= 38,
            k <= 36,
            head@ =~= s@.subrange(0, k as int),
        decreases 36 - k,
    {
        head.push(s[k]);
        proof {
            assert(head@ =~= s@.subrange(0, k + 1));
        }
        k = k + 1;
    }
    let mut tail: Vec<char> = Vec::new();
    let mut t: usize = 37;
    while t < n
        invariant
            n == s@.len(),
            37 <= t <= n,
            tail@ =~= s@.subrange(37, t as int),
        decreases n - t,
    {
        tail.push(s[t]);
        proof {
            assert(tail@ =~= s@.subrange(37, t + 1));
        }
        t = t + 1;
    }
    proof {
        assert(s@.subrange(37, n as int) =~= s@.skip(37));
    }
    Some((chars_string(&head), chars_string(&tail)))
}

/// A composite id assembled from a well-shaped session id and a message id
/// parses back into exactly those parts: `format_conversation_id` and
/// `parse_conversation_id` are inverses on well-shaped input.
pub proof fn lemma_conversation_id_round_trip(sid: Seq<char>, pid: Seq<char>)
    requires
        sid.len() == 36,
        forall|i: int| 0 <= i < 36 ==> is_conv_char(#[trigger] sid[i]),
        pid.len() >= 1,
        forall|i: int| 0 <= i < pid.len() ==> is_digit(#[trigger] pid[i]),
    ensures
        valid_conv_id(sid + seq!['@'] + pid),
        (sid + seq!['@'] + pid).subrange(0, 36) == sid,
        (sid + seq!['@'] + pid).skip(37) == pid,
{
    let s = sid + seq!['@'] + pid;
    assert(s.len() == 37 + pid.len());
    assert forall|i: int| 0 <= i < 36 implies is_conv_char(#[trigger] s[i]) by {
        assert(s[i] == sid[i]);
    }
    assert(s[36] == '@');
    assert forall|i: int| 37 <= i < s.len() implies is_digit(#[trigger] s[i]) by {
        assert(s[i] == pid[i - 37]);
    }
    assert(s.subrange(0, 36) =~= sid);
    assert(s.skip(37) =~= pid);
}

/// The characters `generate_random_string` draws from for a charset name.
pub open spec fn charset_chars(charset: Seq<char>) -> Seq<char> {
    if charset == "hex"@ {
        "0123456789abcdef"@
    } else if charset == "alphanumeric"@ {
        "ABCDEFGHIJKLMNOPQRSTUVWXYZabcdefghijklmnopqrstuvwxyz0123456789"@
    } else {
        charset
    }
}

/// A random string of the given length over the named or given charset.
pub fn generate_random_string(length: usize, charset: &str) -> (r: String)
    requires
        charset@ == "hex"@ || charset@ == "alphanumeric"@ || charset@.len() > 0,
    ensures
        r@.len() == length,
        forall|i: int| 0 <= i < length ==> charset_chars(charset@).contains(#[trigger] r@[i]),
{
    let pool: Vec<char> = if crate::strmap::str_eq(charset, "hex") {
        str_chars("0123456789abcdef")
    } else if crate::strmap::str_eq(charset, "alphanumeric") {
        str_chars("ABCDEFGHIJKLMNOPQRSTUVWXYZabcdefghijklmnopqrstuvwxyz0123456789")
    } else {
        str_chars(charset)
    };
    proof {
        reveal_strlit("0123456789abcdef");
        reveal_strlit("ABCDEFGHIJKLMNOPQRSTUVWXYZabcdefghijklmnopqrstuvwxyz0123456789");
        assert(pool@.len() > 0);
    }
    let mut out: Vec<char> = Vec::new();
    let mut i: usize = 0;
    while i < length
        invariant
            pool@ == charset_chars(charset@),
            pool@.len() > 0,
            i <= length,
            out@.len() == i,
            forall|j: int| 0 <= j < i ==> charset_chars(charset@).contains(#[trigger] out@[j]),
        decreases length - i,
    {
        let d = random_index(pool.len());
        out.push(pool[d]);
        i = i + 1;
    }
    chars_string(&out)
}

/// The decimal digits of `n`, most significant first.
pub open spec fn dec_digits(n: int) -> Seq<char>
    decreases n,
{
    if n < 0 {
        Seq::empty()
    } else if n < 10 {
        seq![digit_char(n)]
    } else {
        dec_digits(n / 10).push(digit_char(n % 10))
    }
}

/// The character for one decimal digit.
pub open spec fn digit_char(d: int) -> char {
    if d == 0 {
        '0'
    } else if d == 1 {
        '1'
    } else if d == 2 {
        '2'
    } else if d == 3 {
        '3'
    } else if d == 4 {
        '4'
    } else if d == 5 {
        '5'
    } else if d == 6 {
        '6'
    } else if d == 7 {
        '7'
    } else if d == 8 {
        '8'
    } else {
        '9'
    }
}

fn digit_to_char(d: u64) -> (c: char)
    requires
        d < 10,
    ensures
        c == digit_char(d as int),
{
    if d == 0 {
        '0'
    } else if d == 1 {
        '1'
    } else if d == 2 {
        '2'
    } else if d == 3 {
        '3'
    } else if d == 4 {
        '4'
    } else if d == 5 {
        '5'
    } else if d == 6 {
        '6'
    } else if d == 7 {
        '7'
    } else if d == 8 {
        '8'
    } else {
        '9'
    }
}

/// `n` written in decimal.
pub fn u64_to_string(n: u64) -> (r: String)
    ensures
        r@ == dec_digits(n as int),
{
    let mut rev: Vec<char> = Vec::new();
    let mut rest: u64 = n;
    if rest < 10 {
        rev.push(digit_to_char(rest));
        proof {
            assert(rev@ =~= dec_digits(n as int));
        }
        return chars_string(&rev);
    }
    let ghost mut done: Seq<char> = Seq::empty();
    while rest >= 10
        invariant
            dec_digits(n as int) == dec_digits(rest as int) + done,
            done =~= rev@.reverse(),
        decreases rest,
    {
        let ghost pre = rev@;
        let d = rest % 10;
        rev.push(digit_to_char(d));
        proof {
            done = seq![digit_char(d as int)] + done;
            assert(rev@.reverse() =~= seq![digit_char(d as int)] + pre.reverse());
            assert(dec_digits(rest as int) =~= dec_digits(rest as int / 10) + seq![
                digit_char(rest as int % 10),
            ]);
            assert(dec_digits(rest as int / 10) + (seq![digit_char(rest as int % 10)] + (
            rev@.reverse().skip(1))) =~= (dec_digits(rest as int / 10) + seq![
                digit_char(rest as int % 10),
            ]) + rev@.reverse().skip(1));
            assert(rev@.reverse().skip(1) =~= pre.reverse());
        }
        rest = rest / 10;
    }
    rev.push(digit_to_char(rest));
    proof {
        assert(dec_digits(rest as int) =~= seq![digit_char(rest as int)]);
        assert(rev@.reverse() =~= seq![digit_char(rest as int)] + done);
    }
    let mut out: Vec<char> = Vec::new();
    let m = rev.len();
    let mut i: usize = m;
    while i > 0
        invariant
            m == rev@.len(),
            i <= m,
            out@ =~= rev@.reverse().subrange(0, (m - i) as int),
        decreases i,
    {
        i = i - 1;
        out.push(rev[i]);
        proof {
            assert(rev@.reverse()[m - i - 1] == rev@[i as int]);
            assert(out@ =~= rev@.reverse().subrange(0, m - i));
        }
    }
    proof {
        assert(rev@.reverse().subrange(0, m as int) =~= rev@.reverse());
    }
    chars_string(&out)
}

/// The browser-shaped cookie text for the given identifiers and clocks.
pub fn format_cookie(
    timestamp_ms: u64,
    session_id: &str,
    uuid1: &str,
    uuid2: &str,
    uuid3: &str,
    uuid4: &str,
    uuid5: &str,
    unix_ts: u64,
) -> (r: String)
    ensures
        r@ == "intercom-HWWAFSESTIME="@ + dec_digits(timestamp_ms as int) + "; HWWAFSESID="@
            + session_id@ + "; Hm_lvt_"@ + uuid1@ + "="@ + dec_digits(unix_ts as int) + ","@
            + dec_digits(unix_ts as int) + ","@ + dec_digits(unix_ts as int) + "; Hm_lpvt_"@
            + uuid2@ + "="@ + dec_digits(unix_ts as int) + "; _frid="@ + uuid3@ + "; _fr_ssid="@
            + uuid4@ + "; _fr_pvid="@ + uuid5@,
{
    let ts = u64_to_string(timestamp_ms);
    let unix = u64_to_string(unix_ts);
    let mut out = String::from_str("intercom-HWWAFSESTIME=");
    out.append(ts.as_str());
    out.append("; HWWAFSESID=");
    out.append(session_id);
    out.append("; Hm_lvt_");
    out.append(uuid1);
    out.append("=");
    out.append(unix.as_str());
    out.append(",");
    out.append(unix.as_str());
    out.append(",");
    out.append(unix.as_str());
    out.append("; Hm_lpvt_");
    out.append(uuid2);
    out.append("=");
    out.append(unix.as_str());
    out.append("; _frid=");
    out.append(uuid3);
    out.append("; _fr_ssid=");
    out.append(uuid4);
    out.append("; _fr_pvid=");
    out.append(uuid5);
    out
}

/// A fresh browser-shaped cookie from the clock and random identifiers.
pub fn generate_cookie() -> (r: String)
    ensures
        r@.len() > 22,
        r@.subrange(0, 22) == "intercom-HWWAFSESTIME="@,
{
    let timestamp = unix_timestamp_ms();
    let uuid1 = generate_uuid_simple();
    let uuid2 = generate_uuid_simple();
    let uuid3 = generate_uuid_simple();
    let uuid4 = generate_uuid_simple();
    let uuid5 = generate_uuid_simple();
    let session_id = generate_random_string(18, "hex");
    let unix_ts = unix_timestamp();
    let cookie = format_cookie(
        timestamp,
        session_id.as_str(),
        uuid1.as_str(),
        uuid2.as_str(),
        uuid3.as_str(),
        uuid4.as_str(),
        uuid5.as_str(),
        unix_ts,
    );
    proof {
        reveal_strlit("intercom-HWWAFSESTIME=");
        assert(dec_digits(timestamp as int).len() >= 1);
        assert(cookie@.subrange(0, 22) =~= "intercom-HWWAFSESTIME="@);
    }
    cookie
}

/// The model asks for web search.
pub fn is_search_model(model: &str) -> (r: bool)
    ensures
        r == contains_seq(model@, "search"@),
{
    str_contains(model, "search")
}

/// The model asks for the thinking mode.
pub fn is_thinking_model(model: &str) -> (r: bool)
    ensures
        r == (contains_seq(model@, "think"@) || contains_seq(model@, "r1"@)),
{
    str_contains(model, "think") || str_contains(model, "r1")
}

/// The model suppresses thinking output.
pub fn is_silent_model(model: &str) -> (r: bool)
    ensures
        r == contains_seq(model@, "silent"@),
{
    str_contains(model, "silent")
}

/// The model folds thinking output away.
pub fn is_fold_model(model: &str) -> (r: bool)
    ensures
        r == contains_seq(model@, "fold"@),
{
    str_contains(model, "fold")
}

/// The text of a timestamp rendered as a UTC calendar date and time.
pub uninterp spec fn utc_text_of(timestamp: u64) -> Seq<char>;

/// The last second the rendering is promised for: the end of year 9999,
/// well inside the range the date library accepts.
pub const MAX_RENDERED_TIMESTAMP: u64 = 253402300799;

/// Relies on chrono's `DateTime::from_timestamp` and `format`: the timestamp
/// written as `%Y-%m-%d %H:%M:%S UTC`. In range the result depends on the
/// timestamp alone; out of range the current time is written instead, of
/// which nothing is promised.
#[verifier::external_body]
pub fn format_timestamp(timestamp: u64) -> (r: String)
    ensures
        timestamp <= MAX_RENDERED_TIMESTAMP ==> r@ == utc_text_of(timestamp),
{
    let datetime = chrono::DateTime::from_timestamp(timestamp as i64, 0).unwrap_or_else(
        chrono::Utc::now,
    );
    datetime.format("%Y-%m-%d %H:%M:%S UTC").to_string()
}

} // verus!
