//! The completion client's pure core: building the wire request, decoding
//! the completion envelope, and the retry policy. The network transport
//! itself lives outside the library and only moves the bytes built here.

use vstd::prelude::*;
use vstd::string::*;

use crate::errors::{status_error, SummaryError};
use crate::num::{char_digit, dec_chars, dec_digits, digit_char, digit_char_exec, digits_to_nat};
use crate::text::{chars_of, char_views, extend_chars, join_chars, join_with, string_of};

verus! {

broadcast use vstd::string::group_string_axioms;

/// One turn of the conversation sent to the completion service.
#[derive(Clone, Debug)]
pub struct ChatMessage {
    pub role: String,
    pub content: String,
}

/// The hexadecimal digit character for `d` (meaningful for `d < 16`).
pub open spec fn hex_char(d: nat) -> char {
    if d < 10 {
        digit_char(d)
    } else if d == 10 {
        'a'
    } else if d == 11 {
        'b'
    } else if d == 12 {
        'c'
    } else if d == 13 {
        'd'
    } else if d == 14 {
        'e'
    } else {
        'f'
    }
}

/// The JSON escape of one character: quote, backslash and the named control
/// characters get a two-character escape, other control characters a
/// `\u00..` escape, everything else stands for itself.
pub open spec fn json_escape_char(c: char) -> Seq<char> {
    if c == '"' {
        seq!['\\', '"']
    } else if c == '\\' {
        seq!['\\', '\\']
    } else if c == '\n' {
        seq!['\\', 'n']
    } else if c == '\r' {
        seq!['\\', 'r']
    } else if c == '\t' {
        seq!['\\', 't']
    } else if (c as u32) < 32 {
        seq!['\\', 'u', '0', '0', hex_char(((c as u32) / 16) as nat), hex_char(
            ((c as u32) % 16) as nat,
        )]
    } else {
        seq![c]
    }
}

/// The JSON escape of a whole string body.
pub open spec fn json_escape(s: Seq<char>) -> Seq<char>
    decreases s.len(),
{
    if s.len() == 0 {
        Seq::empty()
    } else {
        json_escape_char(s[0]) + json_escape(s.drop_first())
    }
}

/// Escaping grows character by character.
proof fn lemma_json_escape_push(s: Seq<char>, c: char)
    ensures
        json_escape(s.push(c)) == json_escape(s) + json_escape_char(c),
    decreases s.len(),
{
    if s.len() == 0 {
        assert(s.push(c)[0] == c);
        assert(s.push(c).drop_first() =~= Seq::<char>::empty());
        assert(json_escape(Seq::<char>::empty()) =~= Seq::<char>::empty());
        assert(json_escape(s.push(c)) == json_escape_char(c) + json_escape(
            Seq::<char>::empty(),
        ));
        assert(json_escape_char(c) + Seq::<char>::empty() =~= json_escape_char(c));
        assert(json_escape(s) =~= Seq::<char>::empty());
        assert(json_escape(s) + json_escape_char(c) =~= json_escape_char(c));
    } else {
        assert(s.push(c)[0] == s[0]);
        assert(s.push(c).drop_first() =~= s.drop_first().push(c));
        lemma_json_escape_push(s.drop_first(), c);
        assert(json_escape_char(s[0]) + (json_escape(s.drop_first()) + json_escape_char(c)) =~= (
        json_escape_char(s[0]) + json_escape(s.drop_first())) + json_escape_char(c));
    }
}

/// A quoted JSON string literal holding the escape of `s`.
pub open spec fn json_string(s: Seq<char>) -> Seq<char> {
    seq!['"'] + json_escape(s) + seq!['"']
}

/// One message object on the wire.
pub open spec fn message_json(role: Seq<char>, content: Seq<char>) -> Seq<char> {
    "{\"role\":"@ + json_string(role) + ",\"content\":"@ + json_string(content) + "}"@
}

/// The message array on the wire.
pub open spec fn messages_json(ms: Seq<ChatMessage>) -> Seq<char> {
    seq!['['] + join_with(
        ms.map_values(|m: ChatMessage| message_json(m.role@, m.content@)),
        seq![','],
    ) + seq![']']
}

/// The sampling temperature printed from hundredths, e.g. `70` as `0.70`.
pub open spec fn temperature_text(h: nat) -> Seq<char> {
    dec_digits(h / 100) + seq!['.', digit_char((h / 10) % 10), digit_char(h % 10)]
}

/// The complete request body of one completion call.
pub open spec fn chat_request_json(model: Seq<char>, ms: Seq<ChatMessage>, temp_h: nat) -> Seq<
    char,
> {
    "{\"model\":"@ + json_string(model) + ",\"messages\":"@ + messages_json(ms)
        + ",\"temperature\":"@ + temperature_text(temp_h) + "}"@
}

/// The JSON escape of `v`.
fn json_escape_chars(v: &Vec<char>) -> (r: Vec<char>)
    ensures
        r@ == json_escape(v@),
{
    let mut out: Vec<char> = Vec::new();
    let mut i: usize = 0;
    assert(v@.take(0) =~= Seq::<char>::empty());
    while i < v.len()
        invariant
            i <= v@.len(),
            out@ == json_escape(v@.take(i as int)),
        decreases v@.len() - i,
    {
        let c = v[i];
        proof {
            assert(v@.take(i + 1 as int) =~= v@.take(i as int).push(v@[i as int]));
            lemma_json_escape_push(v@.take(i as int), v@[i as int]);
        }
        if c == '"' {
            out.push('\\');
            out.push('"');
            assert(out@ =~= json_escape(v@.take(i + 1 as int)));
        } else if c == '\\' {
            out.push('\\');
            out.push('\\');
            assert(out@ =~= json_escape(v@.take(i + 1 as int)));
        } else if c == '\n' {
            out.push('\\');
            out.push('n');
            assert(out@ =~= json_escape(v@.take(i + 1 as int)));
        } else if c == '\r' {
            out.push('\\');
            out.push('r');
            assert(out@ =~= json_escape(v@.take(i + 1 as int)));
        } else if c == '\t' {
            out.push('\\');
            out.push('t');
            assert(out@ =~= json_escape(v@.take(i + 1 as int)));
        } else if (c as u32) < 32 {
            out.push('\\');
            out.push('u');
            out.push('0');
            out.push('0');
            let code = c as u32;
            let hi = code / 16;
            let lo = code % 16;
            out.push(digit_char_exec(hi as u64));
            if lo < 10 {
                out.push(digit_char_exec(lo as u64));
            } else if lo == 10 {
                out.push('a');
            } else if lo == 11 {
                out.push('b');
            } else if lo == 12 {
                out.push('c');
            } else if lo == 13 {
                out.push('d');
            } else if lo == 14 {
                out.push('e');
            } else {
                out.push('f');
            }
            assert(out@ =~= json_escape(v@.take(i + 1 as int)));
        } else {
            out.push(c);
            assert(out@ =~= json_escape(v@.take(i + 1 as int)));
        }
        i = i + 1;
    }
    assert(v@.take(v@.len() as int) =~= v@);
    out
}

/// The quoted JSON string literal for `v`.
fn json_string_chars(v: &Vec<char>) -> (r: Vec<char>)
    ensures
        r@ == json_string(v@),
{
    let mut out: Vec<char> = Vec::new();
    out.push('"');
    let escaped = json_escape_chars(v);
    extend_chars(&mut out, &escaped);
    out.push('"');
    assert(out@ =~= json_string(v@));
    out
}

/// One message object on the wire.
fn message_chars(m: &ChatMessage) -> (r: Vec<char>)
    ensures
        r@ == message_json(m.role@, m.content@),
{
    let mut out = chars_of("{\"role\":");
    let role_chars = chars_of(m.role.as_str());
    let role_lit = json_string_chars(&role_chars);
    extend_chars(&mut out, &role_lit);
    let mid = chars_of(",\"content\":");
    extend_chars(&mut out, &mid);
    let content_chars = chars_of(m.content.as_str());
    let content_lit = json_string_chars(&content_chars);
    extend_chars(&mut out, &content_lit);
    let close = chars_of("}");
    extend_chars(&mut out, &close);
    assert(out@ =~= message_json(m.role@, m.content@));
    out
}

/// The full request body of one completion call, as text. The temperature
/// is given in hundredths; `70` stands for `0.70`.
pub fn encode_chat_request(model: &str, messages: &Vec<ChatMessage>, temperature_hundredths: u32) -> (r:
    String)
    ensures
        r@ == chat_request_json(model@, messages@, temperature_hundredths as nat),
{
    let mut pieces: Vec<Vec<char>> = Vec::new();
    let mut i: usize = 0;
    while i < messages.len()
        invariant
            i <= messages@.len(),
            pieces@.len() == i,
            forall|j: int| 0 <= j < i ==> (#[trigger] pieces@[j])@ == message_json(
                messages@[j].role@,
                messages@[j].content@,
            ),
        decreases messages@.len() - i,
    {
        let piece = message_chars(&messages[i]);
        pieces.push(piece);
        i = i + 1;
    }
    assert(char_views(pieces@) =~~= messages@.map_values(
        |m: ChatMessage| message_json(m.role@, m.content@),
    ));
    let mut comma: Vec<char> = Vec::new();
    comma.push(',');
    assert(comma@ =~= seq![',']);
    let joined = join_chars(&pieces, &comma);

    let mut out = chars_of("{\"model\":");
    let model_chars = chars_of(model);
    let model_lit = json_string_chars(&model_chars);
    extend_chars(&mut out, &model_lit);
    let mid = chars_of(",\"messages\":");
    extend_chars(&mut out, &mid);
    out.push('[');
    extend_chars(&mut out, &joined);
    out.push(']');
    let ghost msgs_done = out@;
    proof {
        assert(msgs_done =~= "{\"model\":"@ + json_string(model@) + ",\"messages\":"@
            + messages_json(messages@));
    }
    let mid2 = chars_of(",\"temperature\":");
    extend_chars(&mut out, &mid2);
    let t = temperature_hundredths;
    let whole = dec_chars((t / 100) as u64);
    extend_chars(&mut out, &whole);
    out.push('.');
    out.push(digit_char_exec(((t / 10) % 10) as u64));
    out.push(digit_char_exec((t % 10) as u64));
    let close = chars_of("}");
    extend_chars(&mut out, &close);
    proof {
        assert(out@ =~= chat_request_json(model@, messages@, temperature_hundredths as nat));
    }
    string_of(&out)
}

/// The request body of the plain summarize endpoint: one chapter's text
/// and the output language.
pub open spec fn summarize_request_json(chapter: Seq<char>, language: Seq<char>) -> Seq<char> {
    "{\"chapter\":"@ + json_string(chapter) + ",\"language\":"@ + json_string(language) + "}"@
}

/// The request body of the plain summarize endpoint, as text.
pub fn encode_summarize_request(chapter: &str, language: &str) -> (r: String)
    ensures
        r@ == summarize_request_json(chapter@, language@),
{
    let mut out = chars_of("{\"chapter\":");
    let chapter_chars = chars_of(chapter);
    let chapter_lit = json_string_chars(&chapter_chars);
    extend_chars(&mut out, &chapter_lit);
    let mid = chars_of(",\"language\":");
    extend_chars(&mut out, &mid);
    let language_chars = chars_of(language);
    let language_lit = json_string_chars(&language_chars);
    extend_chars(&mut out, &language_lit);
    let close = chars_of("}");
    extend_chars(&mut out, &close);
    assert(out@ =~= summarize_request_json(chapter@, language@));
    string_of(&out)
}

/// The content string of the first choice of a completion envelope, or
/// `None` when the body is not that shape. The result depends on the body
/// alone.
pub uninterp spec fn first_choice_of(s: Seq<char>) -> Option<Seq<char>>;

/// Relies on `serde_json::from_str` and `serde_json::Value::{get, as_array,
/// as_str}`: reads `choices[0].message.content` from the completion
/// envelope; `None` when the body is not valid JSON or that path is absent
/// or not a string.
#[verifier::external_body]
fn envelope_content(body: &str) -> (r: Option<String>)
    ensures
        r is Some <==> first_choice_of(body@) is Some,
        r is Some ==> Some(r->0@) == first_choice_of(body@),
{
    let v: serde_json::Value = serde_json::from_str(body).ok()?;
    let content = v.get("choices")?.as_array()?.first()?.get("message")?.get("content")?.as_str()?;
    Some(content.to_string())
}

/// Decodes one transport outcome: a success status with a well-formed
/// completion envelope yields the first choice's content; a success status
/// with any other body is a malformed response; a failure status is
/// classified by the error taxonomy.
pub fn decode_chat_response(status: u16, body: &str) -> (r: Result<String, SummaryError>)
    ensures
        status_error(status) is Some ==> r == Result::<String, SummaryError>::Err(
            status_error(status)->0,
        ),
        status_error(status) is None && first_choice_of(body@) is Some ==> r is Ok && Some(
            r->Ok_0@,
        ) == first_choice_of(body@),
        status_error(status) is None && first_choice_of(body@) is None ==> r == Result::<
            String,
            SummaryError,
        >::Err(SummaryError::MalformedResponse),
{
    match crate::errors::classify_status(status) {
        Some(e) => Err(e),
        None => match envelope_content(body) {
            Some(content) => Ok(content),
            None => Err(SummaryError::MalformedResponse),
        },
    }
}

/// The log line for a failed transport outcome: the HTTP status and the
/// reply body verbatim. The driver writes this to its logs beside the
/// classified error, so no failure loses its context.
pub fn describe_failure(status: u16, body: &str) -> (r: String)
    ensures
        r@ == "Request error: "@ + dec_digits(status as nat) + " - "@ + body@,
{
    let mut out = chars_of("Request error: ");
    let digits = dec_chars(status as u64);
    extend_chars(&mut out, &digits);
    let mid = chars_of(" - ");
    extend_chars(&mut out, &mid);
    let body_chars = chars_of(body);
    extend_chars(&mut out, &body_chars);
    string_of(&out)
}

/// The "Bearer" authorization header value for an API key.
pub fn bearer_token(api_key: &str) -> (r: String)
    ensures
        r@ == "Bearer "@ + api_key@,
{
    let mut out = String::from_str("Bearer ");
    out.append(api_key);
    out
}

/// How often a request may be attempted and how much wall-clock time the
/// attempts may take together.
#[derive(Clone, Copy, Debug, PartialEq, Eq, Structural)]
pub struct RetryPolicy {
    pub max_attempts: u32,
    pub max_elapsed_secs: u32,
}

impl Default for RetryPolicy {
    /// Three attempts within five minutes.
    fn default() -> (r: Self)
        ensures
            r.max_attempts == crate::DEFAULT_MAX_ATTEMPTS,
            r.max_elapsed_secs == 300,
    {
        RetryPolicy { max_attempts: 3, max_elapsed_secs: 300 }
    }
}

/// The value of a digit-only string, or `d` when the string is empty, holds
/// a non-digit, or exceeds `u32::MAX`.
pub open spec fn parsed_u32_or(s: Seq<char>, d: u32) -> u32 {
    if s.len() > 0 && (forall|i: int| 0 <= i < s.len() ==> char_digit(#[trigger] s[i]) is Some)
        && digits_to_nat(s) <= u32::MAX as nat {
        digits_to_nat(s) as u32
    } else {
        d
    }
}

/// Reads a configuration number from `text`: a non-empty string of digits
/// within `u32` range gives its value, anything else the fallback.
pub fn parse_u32_or(text: &str, fallback: u32) -> (r: u32)
    ensures
        r == parsed_u32_or(text@, fallback),
{
    let cs = chars_of(text);
    if cs.len() == 0 {
        return fallback;
    }
    let mut acc: u64 = 0;
    let mut i: usize = 0;
    while i < cs.len()
        invariant
            cs@ == text@,
            i <= cs@.len(),
            cs@.len() > 0,
            forall|j: int| 0 <= j < i ==> char_digit(#[trigger] cs@[j]) is Some,
            acc <= u32::MAX as u64 + 1,
            acc <= u32::MAX as u64 ==> acc as nat == digits_to_nat(cs@.take(i as int)),
            acc > u32::MAX as u64 ==> digits_to_nat(cs@.take(i as int)) > u32::MAX as nat,
        decreases cs@.len() - i,
    {
        let d = match crate::num::char_digit_exec(cs[i]) {
            Some(d) => d,
            None => {
                assert(char_digit(text@[i as int]) is None);
                return fallback;
            },
        };
        let ghost prev = digits_to_nat(cs@.take(i as int));
        proof {
            assert(cs@.take(i + 1 as int).drop_last() =~= cs@.take(i as int));
            assert(cs@.take(i + 1 as int).last() == cs@[i as int]);
            assert(digits_to_nat(cs@.take(i + 1 as int)) == prev * 10 + d as nat);
        }
        if acc > u32::MAX as u64 {
            // The value already exceeds the range and only grows with more
            // digits; the accumulator stays saturated just above the range.
            proof {
                assert(prev * 10 + d as nat > u32::MAX as nat) by (nonlinear_arith)
                    requires
                        prev > u32::MAX as nat,
                        d as nat >= 0,
                ;
            }
        } else {
            acc = acc * 10 + d;
            if acc > u32::MAX as u64 {
                acc = u32::MAX as u64 + 1;
            }
        }
        i = i + 1;
    }
    assert(cs@.take(cs@.len() as int) =~= cs@);
    if acc <= u32::MAX as u64 {
        acc as u32
    } else {
        fallback
    }
}

} // verus!
