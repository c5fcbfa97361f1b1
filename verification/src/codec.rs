//! The wire codec: log entries as JSON objects with an RFC 3339 timestamp
//! and an escaped message, and the single JSON document a run's result is
//! reported as.

use vstd::prelude::*;
use vstd::string::StrSliceExecFns;
use vstd::string::StringExecFns;
use crate::digits::{dec_digits, hex_char, hex_val, hex_char_exec, hex_val_exec, push_char, push_dec};
use crate::ops::LogEntry;
use crate::rfc3339::{format_timestamp, parse_timestamp, parse_timestamp_str, TEXT_RANGE_END_MS};

verus! {

/// The result could not be encoded to the wire format; reported apart from
/// execution failures.
#[derive(Debug)]
pub enum SerializationError {
    /// An entry's timestamp lies beyond the four-digit-year text form.
    TimestampOutOfRange,
}

/// What one message character becomes inside a JSON string: quote and
/// backslash escaped, the common control characters by letter, the rest of
/// the control characters in hexadecimal, everything else itself.
pub open spec fn escape_char(c: char) -> Seq<char> {
    if c == '"' {
        seq!['\\', '"']
    } else if c == '\\' {
        seq!['\\', '\\']
    } else if c == '\n' {
        seq!['\\', 'n']
    } else if c == '\r' {
        seq!['\\', 'r']
    } else if c == '\t' {
        seq!['\\', 't']
    } else if (c as u32) < 32 {
        seq!['\\', 'u', '0', '0', hex_char((c as u32) as int / 16), hex_char((c as u32) as int % 16)]
    } else {
        seq![c]
    }
}

/// A message escaped for the inside of a JSON string.
pub open spec fn escape_string(s: Seq<char>) -> Seq<char>
    decreases s.len(),
{
    if s.len() == 0 {
        Seq::empty()
    } else {
        escape_char(s[0]) + escape_string(s.skip(1))
    }
}

/// The character a letter escape stands for.
pub open spec fn unescape_of(e: char) -> char {
    if e == 'n' {
        '\n'
    } else if e == 'r' {
        '\r'
    } else if e == 't' {
        '\t'
    } else {
        e
    }
}

/// Reads a JSON string body in `s` from position `i` up to its closing
/// quote: the decoded content and the position after the quote, or nothing
/// if the body is malformed or unterminated.
pub open spec fn scan_string(s: Seq<char>, i: int) -> Option<(Seq<char>, int)>
    decreases s.len() - i,
{
    if i < 0 || i >= s.len() {
        None
    } else if s[i] == '"' {
        Some((Seq::empty(), i + 1))
    } else if s[i] == '\\' {
        if i + 1 >= s.len() {
            None
        } else {
            let e = s[i + 1];
            if e == '"' || e == '\\' || e == 'n' || e == 'r' || e == 't' {
                match scan_string(s, i + 2) {
                    Some((t, j)) => Some((seq![unescape_of(e)] + t, j)),
                    None => None,
                }
            } else if e == 'u' {
                if i + 6 <= s.len() && s[i + 2] == '0' && s[i + 3] == '0' && hex_val(s[i + 4]) >= 0
                    && hex_val(s[i + 5]) >= 0 {
                    match scan_string(s, i + 6) {
                        Some((t, j)) => Some(
                            (seq![((16 * hex_val(s[i + 4]) + hex_val(s[i + 5])) as u8) as char] + t, j),
                        ),
                        None => None,
                    }
                } else {
                    None
                }
            } else {
                None
            }
        }
    } else if (s[i] as u32) < 32 {
        None
    } else {
        match scan_string(s, i + 1) {
            Some((t, j)) => Some((seq![s[i]] + t, j)),
            None => None,
        }
    }
}

/// Escaping distributes over appending one character.
proof fn lemma_escape_push(s: Seq<char>, c: char)
    ensures
        escape_string(s.push(c)) == escape_string(s) + escape_char(c),
    decreases s.len(),
{
    if s.len() == 0 {
        assert(s.push(c).skip(1) =~= Seq::<char>::empty());
        assert(s.push(c)[0] == c);
        assert(escape_string(s.push(c)) == escape_char(c) + escape_string(s.push(c).skip(1)));
        assert(escape_char(c) + Seq::<char>::empty() =~= escape_char(c));
        assert(escape_string(s) + escape_char(c) =~= escape_char(c));
    } else {
        lemma_escape_push(s.skip(1), c);
        assert(s.push(c).skip(1) =~= s.skip(1).push(c));
        assert(s.push(c)[0] == s[0]);
        assert(escape_string(s.push(c)) == escape_char(s[0]) + (escape_string(s.skip(1))
            + escape_char(c)));
        assert(escape_char(s[0]) + (escape_string(s.skip(1)) + escape_char(c)) =~= (escape_char(
            s[0],
        ) + escape_string(s.skip(1))) + escape_char(c));
    }
}

/// Reading an escaped message back from inside its quotes gives the message:
/// a scan over the escaped text followed by a closing quote decodes to
/// exactly the original content and stops right after the quote.
proof fn lemma_scan_escaped(m: Seq<char>, s: Seq<char>, i: int)
    requires
        0 <= i,
        i + escape_string(m).len() + 1 <= s.len(),
        forall|k: int|
            0 <= k < escape_string(m).len() ==> s[i + k] == #[trigger] escape_string(m)[k],
        s[i + escape_string(m).len()] == '"',
    ensures
        scan_string(s, i) == Some((m, i + escape_string(m).len() + 1)),
    decreases m.len(),
{
    if m.len() == 0 {
        assert(s[i] == '"');
        assert(m =~= Seq::<char>::empty());
    } else {
        let c = m[0];
        let e = escape_char(c);
        let rest = escape_string(m.skip(1));
        assert(escape_string(m) == e + rest);
        assert(forall|k: int| 0 <= k < e.len() ==> s[i + k] == #[trigger] e[k]) by {
            assert forall|k: int| 0 <= k < e.len() implies s[i + k] == #[trigger] e[k] by {
                assert(escape_string(m)[k] == e[k]);
                assert(s[i + k] == escape_string(m)[k]);
            }
        }
        assert(forall|k: int|
            0 <= k < rest.len() ==> s[i + e.len() + k] == #[trigger] rest[k]) by {
            assert forall|k: int| 0 <= k < rest.len() implies s[i + e.len() + k] == #[trigger] rest[k] by {
                assert(escape_string(m)[e.len() + k] == rest[k]);
                assert(s[i + (e.len() + k)] == escape_string(m)[e.len() + k]);
            }
        }
        lemma_scan_escaped(m.skip(1), s, i + e.len() as int);
        if c == '"' || c == '\\' {
            assert(s[i] == '\\' && s[i + 1] == c);
            assert(unescape_of(c) == c);
            assert(seq![c] + m.skip(1) =~= m);
        } else if c == '\n' {
            assert(s[i] == '\\' && s[i + 1] == 'n');
            assert(seq![c] + m.skip(1) =~= m);
        } else if c == '\r' {
            assert(s[i] == '\\' && s[i + 1] == 'r');
            assert(seq![c] + m.skip(1) =~= m);
        } else if c == '\t' {
            assert(s[i] == '\\' && s[i + 1] == 't');
            assert(seq![c] + m.skip(1) =~= m);
        } else if (c as u32) < 32 {
            broadcast use vstd::utf8::char_u32_cast;

            let v = (c as u32) as int;
            assert(0 <= v < 32);
            assert(0 <= v / 16 < 2);
            assert(0 <= v % 16 < 16);
            assert(s[i] == '\\' && s[i + 1] == 'u' && s[i + 2] == '0' && s[i + 3] == '0');
            assert(s[i + 4] == hex_char(v / 16) && s[i + 5] == hex_char(v % 16));
            assert(hex_val(hex_char(v / 16)) == v / 16);
            assert(hex_val(hex_char(v % 16)) == v % 16);
            assert(16 * (v / 16) + v % 16 == v);
            vstd::utf8::char_u32_cast(c, c as u32);
            assert(((c as u32) as char) == c);
            assert((v as u8) as u32 == c as u32);
            assert(((v as u8) as char) == c);
            assert(seq![c] + m.skip(1) =~= m);
        } else {
            assert(e[0] == c);
            assert(s[i + 0] == e[0]);
            assert(seq![c] + m.skip(1) =~= m);
        }
    }
}

/// Append the escaped form of `m` to `out`.
fn escape_append(out: &mut String, m: &str)
    ensures
        final(out)@ == old(out)@ + escape_string(m@),
{
    let n = m.unicode_len();
    let mut i: usize = 0;
    while i < n
        invariant
            0 <= i <= n,
            n == m@.len(),
            out@ == old(out)@ + escape_string(m@.take(i as int)),
        decreases n - i,
    {
        let c = m.get_char(i);
        let code = c as u32;
        if c == '"' {
            out.append("\\\"");
        } else if c == '\\' {
            out.append("\\\\");
        } else if c == '\n' {
            out.append("\\n");
        } else if c == '\r' {
            out.append("\\r");
        } else if c == '\t' {
            out.append("\\t");
        } else if code < 32 {
            out.append("\\u00");
            push_char(out, hex_char_exec((code / 16) as u64));
            push_char(out, hex_char_exec((code % 16) as u64));
        } else {
            push_char(out, c);
        }
        proof {
            reveal_strlit("\\\"");
            reveal_strlit("\\\\");
            reveal_strlit("\\n");
            reveal_strlit("\\r");
            reveal_strlit("\\t");
            reveal_strlit("\\u00");
            lemma_escape_push(m@.take(i as int), c);
            assert(m@.take(i as int + 1) =~= m@.take(i as int).push(c));
            assert(out@ =~= old(out)@ + escape_string(m@.take(i as int + 1)));
        }
        i = i + 1;
    }
    proof {
        assert(m@.take(n as int) =~= m@);
    }
}

/// The opening of the entry object, up to the timestamp's opening quote.
pub open spec fn entry_prefix() -> Seq<char> {
    "{\"timestamp\":\""@
}

/// Between the timestamp's closing quote and the message's opening quote.
pub open spec fn entry_mid() -> Seq<char> {
    "\",\"message\":\""@
}

/// What an entry's wire text denotes: the timestamp and the message content,
/// if the text is exactly one well-formed entry object; nothing otherwise.
pub open spec fn parse_log_entry(s: Seq<char>) -> Option<(u64, Seq<char>)> {
    if s.len() >= 51 && s.subrange(0, 14) == entry_prefix() && s.subrange(38, 51) == entry_mid() {
        match parse_timestamp(s.subrange(14, 38)) {
            None => None,
            Some(t) => match scan_string(s, 51) {
                None => None,
                Some((m, j)) => if j + 1 == s.len() && s[j] == '}' {
                    Some((t, m))
                } else {
                    None
                },
            },
        }
    } else {
        None
    }
}

/// Serialize one entry for the wire. The text reads back as exactly the
/// entry's timestamp and message; an entry whose timestamp lies beyond the
/// four-digit-year form is the one thing refused.
pub fn encode_log_entry(e: &LogEntry) -> (r: Result<String, SerializationError>)
    ensures
        r matches Ok(s) ==> parse_log_entry(s@) == Some((e.timestamp_ms, e.message@)),
        r is Err <==> e.timestamp_ms >= TEXT_RANGE_END_MS,
{
    let ts = match format_timestamp(e.timestamp_ms) {
        Some(ts) => ts,
        None => {
            return Err(SerializationError::TimestampOutOfRange);
        },
    };
    let mut out = String::from_str("{\"timestamp\":\"");
    out.append(ts.as_str());
    out.append("\",\"message\":\"");
    escape_append(&mut out, e.message.as_str());
    out.append("\"}");
    proof {
        reveal_strlit("{\"timestamp\":\"");
        reveal_strlit("\",\"message\":\"");
        reveal_strlit("\"}");
        let s = out@;
        let esc = escape_string(e.message@);
        assert(parse_timestamp(ts@) == Some(e.timestamp_ms));
        assert(ts@.len() == 24);
        assert(entry_prefix().len() == 14);
        assert(entry_mid().len() == 13);
        assert(s =~= entry_prefix() + ts@ + entry_mid() + esc + "\"}"@);
        assert(s.len() == 53 + esc.len());
        assert(s.subrange(0, 14) =~= entry_prefix());
        assert(s.subrange(38, 51) =~= entry_mid());
        assert(s.subrange(14, 38) =~= ts@);
        assert(forall|k: int| 0 <= k < esc.len() ==> s[51 + k] == #[trigger] esc[k]);
        assert(s[51 + esc.len() as int] == '"');
        lemma_scan_escaped(e.message@, s, 51);
        assert(s[52 + esc.len() as int] == '}');
    }
    Ok(out)
}

/// Read one entry back from its wire text: exactly the texts the grammar
/// above accepts yield an entry.
pub fn parse_log_entry_str(s: &str) -> (r: Option<LogEntry>)
    ensures
        match parse_log_entry(s@) {
            Some((t, m)) => r matches Some(e) && e.timestamp_ms == t && e.message@ == m,
            None => r is None,
        },
{
    let n = s.unicode_len();
    if n < 51 {
        return None;
    }
    let prefix = "{\"timestamp\":\"";
    proof {
        reveal_strlit("{\"timestamp\":\"");
    }
    let mut k: usize = 0;
    while k < 14
        invariant
            0 <= k <= 14,
            n == s@.len(),
            51 <= n,
            prefix@ == entry_prefix(),
            forall|j: int| 0 <= j < k ==> s@[j] == entry_prefix()[j],
        decreases 14 - k,
    {
        proof {
            reveal_strlit("{\"timestamp\":\"");
        }
        if s.get_char(k) != prefix.get_char(k) {
            proof {
                assert(s@.subrange(0, 14)[k as int] != entry_prefix()[k as int]);
            }
            return None;
        }
        k = k + 1;
    }
    proof {
        assert(s@.subrange(0, 14) =~= entry_prefix());
    }
    let mid = "\",\"message\":\"";
    proof {
        reveal_strlit("\",\"message\":\"");
    }
    let mut k2: usize = 0;
    while k2 < 13
        invariant
            0 <= k2 <= 13,
            n == s@.len(),
            51 <= n,
            mid@ == entry_mid(),
            forall|j: int| 0 <= j < k2 ==> s@[38 + j] == entry_mid()[j],
        decreases 13 - k2,
    {
        proof {
            reveal_strlit("\",\"message\":\"");
        }
        if s.get_char(38 + k2) != mid.get_char(k2) {
            proof {
                assert(s@.subrange(38, 51)[k2 as int] != entry_mid()[k2 as int]);
            }
            return None;
        }
        k2 = k2 + 1;
    }
    proof {
        assert(s@.subrange(38, 51) =~= entry_mid());
    }
    let ts_text = s.substring_char(14, 38);
    let t = match parse_timestamp_str(ts_text) {
        Some(t) => t,
        None => {
            return None;
        },
    };
    let (message, j) = match scan_string_exec(s, 51) {
        Some(p) => p,
        None => {
            return None;
        },
    };
    if !(j < n && j + 1 == n) {
        return None;
    }
    if s.get_char(j) != '}' {
        return None;
    }
    Some(LogEntry { timestamp_ms: t, message })
}

/// Exec mirror of `scan_string`.
fn scan_string_exec(s: &str, i: usize) -> (r: Option<(String, usize)>)
    requires
        s@.len() <= usize::MAX,
    ensures
        match scan_string(s@, i as int) {
            Some((content, end)) => r matches Some(p) && p.0@ == content && p.1 == end,
            None => r is None,
        },
    decreases s@.len() - i,
{
    let n = s.unicode_len();
    if i >= n {
        return None;
    }
    let c = s.get_char(i);
    if c == '"' {
        return Some((String::new(), i + 1));
    }
    if c == '\\' {
        if i + 1 >= n {
            return None;
        }
        let e = s.get_char(i + 1);
        if e == '"' || e == '\\' || e == 'n' || e == 'r' || e == 't' {
            let decoded: char = if e == 'n' {
                '\n'
            } else if e == 'r' {
                '\r'
            } else if e == 't' {
                '\t'
            } else {
                e
            };
            match scan_string_exec(s, i + 2) {
                Some((t, j)) => {
                    let mut out = String::new();
                    push_char(&mut out, decoded);
                    out.append(t.as_str());
                    proof {
                        assert(out@ =~= seq![unescape_of(e)] + t@);
                    }
                    return Some((out, j));
                },
                None => {
                    return None;
                },
            }
        } else if e == 'u' {
            if !(n - i >= 6 && s.get_char(i + 2) == '0' && s.get_char(i + 3) == '0') {
                return None;
            }
            let h1 = match hex_val_exec(s.get_char(i + 4)) {
                Some(v) => v,
                None => {
                    return None;
                },
            };
            let h2 = match hex_val_exec(s.get_char(i + 5)) {
                Some(v) => v,
                None => {
                    return None;
                },
            };
            let decoded: char = ((16 * h1 + h2) as u8) as char;
            match scan_string_exec(s, i + 6) {
                Some((t, j)) => {
                    let mut out = String::new();
                    push_char(&mut out, decoded);
                    out.append(t.as_str());
                    proof {
                        let sv = s@;
                        assert(out@ =~= seq![
                            ((16 * hex_val(sv[i as int + 4]) + hex_val(sv[i as int + 5])) as u8) as char,
                        ] + t@);
                    }
                    return Some((out, j));
                },
                None => {
                    return None;
                },
            }
        } else {
            return None;
        }
    }
    if (c as u32) < 32 {
        return None;
    }
    match scan_string_exec(s, i + 1) {
        Some((t, j)) => {
            let mut out = String::new();
            push_char(&mut out, c);
            out.append(t.as_str());
            proof {
                assert(out@ =~= seq![s@[i as int]] + t@);
            }
            Some((out, j))
        },
        None => None,
    }
}

/// The entry texts of the document's log array, joined by commas.
pub open spec fn doc_entries(texts: Seq<Seq<char>>) -> Seq<char>
    decreases texts.len(),
{
    if texts.len() == 0 {
        Seq::empty()
    } else if texts.len() == 1 {
        texts[0]
    } else {
        doc_entries(texts.drop_last()) + ","@ + texts.last()
    }
}

/// The one JSON document a run's result is reported as, given the already
/// serialized output value (or nothing, reported as JSON null), the
/// serialized log entries in capture order, and the elapsed time.
pub open spec fn result_doc(
    output: Option<Seq<char>>,
    entry_texts: Seq<Seq<char>>,
    execution_time_ms: u64,
) -> Seq<char> {
    "{\"output\":"@ + (match output {
        None => "null"@,
        Some(o) => o,
    }) + ",\"logs\":["@ + doc_entries(entry_texts) + "],\"execution_time_ms\":"@ + dec_digits(
        execution_time_ms as int,
    ) + "}"@
}

proof fn lemma_doc_entries_push(texts: Seq<Seq<char>>, t: Seq<char>)
    ensures
        doc_entries(texts.push(t)) == if texts.len() == 0 {
            t
        } else {
            doc_entries(texts) + ","@ + t
        },
{
    let pushed = texts.push(t);
    assert(pushed.drop_last() =~= texts);
    assert(pushed.last() == t);
    if texts.len() == 0 {
        assert(doc_entries(pushed) == t);
    }
}

/// Serialize a run's result as the wire document: the output value's JSON
/// text (JSON null when there is none), every log entry in capture order,
/// each reading back as exactly its entry, and the elapsed milliseconds.
/// Refused exactly when some entry's timestamp has no text form.
pub fn encode_execution_result(
    output: &Option<String>,
    logs: &Vec<LogEntry>,
    execution_time_ms: u64,
) -> (r: Result<String, SerializationError>)
    ensures
        r matches Ok(s) ==> exists|texts: Seq<Seq<char>>|
            {
                &&& #[trigger] texts.len() == logs@.len()
                &&& forall|k: int|
                    0 <= k < logs@.len() ==> #[trigger] parse_log_entry(texts[k]) == Some(
                        (logs@[k].timestamp_ms, logs@[k].message@),
                    )
                &&& s@ == result_doc(
                    match output {
                        Some(o) => Some(o@),
                        None => None,
                    },
                    texts,
                    execution_time_ms,
                )
            },
        r is Err <==> exists|k: int|
            0 <= k < logs@.len() && logs@[k].timestamp_ms >= TEXT_RANGE_END_MS,
{
    let mut body = String::new();
    let ghost mut texts: Seq<Seq<char>> = Seq::empty();
    let mut i: usize = 0;
    while i < logs.len()
        invariant
            0 <= i <= logs@.len(),
            texts.len() == i,
            forall|k: int|
                0 <= k < i ==> #[trigger] parse_log_entry(texts[k]) == Some(
                    (logs@[k].timestamp_ms, logs@[k].message@),
                ),
            forall|k: int| 0 <= k < i ==> logs@[k].timestamp_ms < TEXT_RANGE_END_MS,
            body@ == doc_entries(texts),
        decreases logs@.len() - i,
    {
        let text = match encode_log_entry(&logs[i]) {
            Ok(t) => t,
            Err(e) => {
                return Err(e);
            },
        };
        if i > 0 {
            out_comma(&mut body);
        }
        body.append(text.as_str());
        proof {
            lemma_doc_entries_push(texts, text@);
            texts = texts.push(text@);
        }
        i = i + 1;
    }
    let mut out = String::from_str("{\"output\":");
    match output {
        Some(o) => out.append(o.as_str()),
        None => out.append("null"),
    }
    out.append(",\"logs\":[");
    out.append(body.as_str());
    out.append("],\"execution_time_ms\":");
    push_dec(&mut out, execution_time_ms);
    out.append("}");
    proof {
        assert(out@ =~= result_doc(
            match output {
                Some(o) => Some(o@),
                None => None,
            },
            texts,
            execution_time_ms,
        ));
    }
    Ok(out)
}

/// Append the separator between two serialized entries.
fn out_comma(out: &mut String)
    ensures
        final(out)@ == old(out)@ + ","@,
{
    out.append(",");
}

} // verus!
