use vstd::prelude::*;
use vstd::utf8::valid_utf8;

use crate::bytes::append_range;

verus! {

/// Length of the directive that asks for usage statistics in a streamed response.
pub const DIRECTIVE_LEN: usize = 42;

/// `{"stream_options":{"include_usage": true},`: the opening brace of the request object, then
/// the member that asks the upstream service to report usage at the end of a stream.
pub open spec fn directive() -> Seq<u8> {
    seq![
        123u8, 34u8, 115u8, 116u8, 114u8, 101u8, 97u8, 109u8, 95u8, 111u8, 112u8, 116u8, 105u8,
        111u8, 110u8, 115u8, 34u8, 58u8, 123u8, 34u8, 105u8, 110u8, 99u8, 108u8, 117u8, 100u8,
        101u8, 95u8, 117u8, 115u8, 97u8, 103u8, 101u8, 34u8, 58u8, 32u8, 116u8, 114u8, 117u8,
        101u8, 125u8, 44u8,
    ]
}

/// `"stream_options"`: the key of the directive.
pub open spec fn directive_key() -> Seq<u8> {
    seq![
        34u8, 115u8, 116u8, 114u8, 101u8, 97u8, 109u8, 95u8, 111u8, 112u8, 116u8, 105u8, 111u8,
        110u8, 115u8, 34u8,
    ]
}

/// Space, tab, line feed or carriage return: the bytes that JSON allows around a value.
pub open spec fn is_json_space(b: u8) -> bool {
    b == 32 || b == 9 || b == 10 || b == 13
}

/// The first position at or after `i` that holds no JSON space, or the length of `s`.
pub open spec fn skip_space(s: Seq<u8>, i: int) -> int
    decreases s.len() - i,
{
    if 0 <= i < s.len() && is_json_space(s[i]) {
        skip_space(s, i + 1)
    } else {
        i
    }
}

/// The end of `s[..j]` once the JSON space at its end is taken off.
pub open spec fn trim_end(s: Seq<u8>, j: int) -> int
    decreases j,
{
    if 0 < j <= s.len() && is_json_space(s[j - 1]) {
        trim_end(s, j - 1)
    } else {
        j
    }
}

/// Where the text of `s` starts, past leading JSON space.
pub open spec fn text_start(s: Seq<u8>) -> int {
    skip_space(s, 0)
}

/// Where the text of `s` ends, before trailing JSON space.
pub open spec fn text_end(s: Seq<u8>) -> int {
    trim_end(s, s.len() as int)
}

/// The text of `s` starts with `{`.
pub open spec fn opens_object(s: Seq<u8>) -> bool {
    text_start(s) < s.len() && s[text_start(s)] == 123
}

/// What follows the opening brace of the object in `s`, up to the end of its text: the
/// original members and the closing brace.
pub open spec fn members(s: Seq<u8>) -> Seq<u8> {
    s.subrange(text_start(s) + 1, text_end(s))
}

/// The body sent upstream for a streaming request: the directive, then the original members.
pub open spec fn with_directive(s: Seq<u8>) -> Seq<u8> {
    directive() + members(s)
}

/// A body can be sent upstream: it is sent as it came where no stream is asked for, and
/// otherwise it is UTF-8 text that opens an object and becomes one JSON text with the directive.
pub open spec fn rewrite_ok(body: Seq<u8>, stream: bool) -> bool {
    !stream || (valid_utf8(body) && opens_object(body) && parses_as_json(with_directive(body)))
}

/// The body sent upstream.
pub open spec fn rewritten(body: Seq<u8>, stream: bool) -> Seq<u8> {
    if stream {
        with_directive(body)
    } else {
        body
    }
}

/// serde_json accepts the bytes as one JSON value: `serde_json::from_slice` into a
/// `serde_json::Value` succeeds.
pub uninterp spec fn parses_as_json(bytes: Seq<u8>) -> bool;

/// `p` occurs in `s` at position `i`.
pub open spec fn occurs_at(s: Seq<u8>, p: Seq<u8>, i: int) -> bool {
    0 <= i && i + p.len() <= s.len() && s.subrange(i, i + p.len()) == p
}

/// Why a streaming request body could not be rewritten.
#[derive(Debug, Clone, Copy, PartialEq, Eq)]
pub enum RewriteError {
    /// The body is not UTF-8 text.
    InvalidUtf8,
    /// The text of the body does not start with `{`.
    NotAnObject,
    /// The rewritten body is not one JSON text.
    InvalidJson,
}

/// Relies on serde_json::from_slice into a `serde_json::Value`: whether it succeeds depends on
/// the bytes alone.
#[verifier::external_body]
fn is_json(bytes: &[u8]) -> (r: bool)
    ensures
        r == parses_as_json(bytes@),
{
    serde_json::from_slice::<serde_json::Value>(bytes).is_ok()
}

/// Relies on std::str::from_utf8: it succeeds exactly when the bytes are valid UTF-8.
#[verifier::external_body]
fn is_utf8(bytes: &[u8]) -> (r: bool)
    ensures
        r == valid_utf8(bytes@),
{
    std::str::from_utf8(bytes).is_ok()
}

fn is_space_byte(b: u8) -> (r: bool)
    ensures
        r == is_json_space(b),
{
    b == 32 || b == 9 || b == 10 || b == 13
}

fn find_text_start(s: &[u8]) -> (r: usize)
    ensures
        r == text_start(s@),
        r <= s@.len(),
{
    let n = s.len();
    let mut i: usize = 0;
    while i < n && is_space_byte(s[i])
        invariant
            n == s@.len(),
            i <= n,
            skip_space(s@, i as int) == skip_space(s@, 0),
        decreases n - i,
    {
        i = i + 1;
    }
    i
}

fn find_text_end(s: &[u8]) -> (r: usize)
    ensures
        r == text_end(s@),
        r <= s@.len(),
{
    let mut j: usize = s.len();
    while j > 0 && is_space_byte(s[j - 1])
        invariant
            j <= s@.len(),
            trim_end(s@, j as int) == trim_end(s@, s@.len() as int),
        decreases j,
    {
        j = j - 1;
    }
    j
}

proof fn lemma_trim_end_keeps(s: Seq<u8>, j: int, k: int)
    requires
        0 <= k < j <= s.len(),
        !is_json_space(s[k]),
    ensures
        k < trim_end(s, j) <= j,
    decreases j,
{
    if is_json_space(s[j - 1]) {
        lemma_trim_end_keeps(s, j - 1, k);
    }
}

proof fn lemma_skip_space_bounds(s: Seq<u8>, i: int)
    requires
        0 <= i <= s.len(),
    ensures
        i <= skip_space(s, i) <= s.len(),
        skip_space(s, i) < s.len() ==> !is_json_space(s[skip_space(s, i)]),
    decreases s.len() - i,
{
    if i < s.len() && is_json_space(s[i]) {
        lemma_skip_space_bounds(s, i + 1);
    }
}

fn directive_bytes() -> (r: Vec<u8>)
    ensures
        r@ == directive(),
{
    let r: Vec<u8> = vec![
        123, 34, 115, 116, 114, 101, 97, 109, 95, 111, 112, 116, 105, 111, 110, 115, 34, 58, 123,
        34, 105, 110, 99, 108, 117, 100, 101, 95, 117, 115, 97, 103, 101, 34, 58, 32, 116, 114,
        117, 101, 125, 44,
    ];
    assert(r@ =~= directive());
    r
}

/// The body to send upstream. A request that does not ask for a stream is sent as it came. One
/// that does gets the usage directive in front of its members, and is sent only where the
/// body is UTF-8 text that opens an object and the result is one JSON text.
pub fn rewrite_payload(body: Vec<u8>, stream: bool) -> (r: Result<Vec<u8>, RewriteError>)
    ensures
        r is Ok <==> rewrite_ok(body@, stream),
        r matches Ok(v) ==> v@ == rewritten(body@, stream),
        !stream ==> (r matches Ok(v) && v@ == body@),
        stream ==> match r {
            Ok(v) => {
                &&& valid_utf8(body@)
                &&& opens_object(body@)
                &&& v@ == with_directive(body@)
                &&& parses_as_json(v@)
            },
            Err(RewriteError::InvalidUtf8) => !valid_utf8(body@),
            Err(RewriteError::NotAnObject) => valid_utf8(body@) && !opens_object(body@),
            Err(RewriteError::InvalidJson) => {
                &&& valid_utf8(body@)
                &&& opens_object(body@)
                &&& !parses_as_json(with_directive(body@))
            },
        },
{
    if !stream {
        return Ok(body);
    }
    if !is_utf8(body.as_slice()) {
        return Err(RewriteError::InvalidUtf8);
    }
    let start = find_text_start(body.as_slice());
    if start >= body.len() || body[start] != 123 {
        return Err(RewriteError::NotAnObject);
    }
    let end = find_text_end(body.as_slice());
    proof {
        lemma_trim_end_keeps(body@, body@.len() as int, start as int);
    }
    let mut out = directive_bytes();
    append_range(&mut out, body.as_slice(), start + 1, end);
    if !is_json(out.as_slice()) {
        return Err(RewriteError::InvalidJson);
    }
    Ok(out)
}

/// A rewritten body is the directive followed by every byte of the original object after its
/// opening brace, in order, so that no member of the original is lost. Where the original does
/// not hold the key `"stream_options"`, the rewritten body holds it exactly once, in the
/// directive.
pub proof fn lemma_directive_once(body: Seq<u8>)
    requires
        opens_object(body),
        forall|i: int| !#[trigger] occurs_at(members(body), directive_key(), i),
    ensures
        with_directive(body).subrange(0, DIRECTIVE_LEN as int) == directive(),
        with_directive(body).subrange(DIRECTIVE_LEN as int, with_directive(body).len() as int)
            == members(body),
        occurs_at(with_directive(body), directive_key(), 1),
        forall|i: int|
            #![trigger occurs_at(with_directive(body), directive_key(), i)]
            occurs_at(with_directive(body), directive_key(), i) ==> i == 1,
{
    let r = with_directive(body);
    let d = directive();
    let k = directive_key();
    let m = members(body);
    assert(r.subrange(0, DIRECTIVE_LEN as int) =~= d);
    assert(r.subrange(DIRECTIVE_LEN as int, r.len() as int) =~= m);
    assert(r.subrange(1, 17) =~= k);
    assert forall|i: int| 0 <= i < 41 && #[trigger] d[i] == 34u8 && d[i + 1] == 115u8 implies i == 1 by {
    }
    assert forall|i: int|
        #![trigger occurs_at(r, k, i)]
        occurs_at(r, k, i) implies i == 1 by {
        assert(r.subrange(i, i + 16)[0] == k[0]);
        assert(r.subrange(i, i + 16)[1] == k[1]);
        if i < 41 {
            assert(r[i] == d[i] && r[i + 1] == d[i + 1]);
        } else if i == 41 {
            assert(r[41] == 44u8);
        } else {
            assert(m.subrange(i - 42, i - 42 + 16) =~= r.subrange(i, i + 16));
            assert(occurs_at(m, k, i - 42));
        }
    }
}

} // verus!
