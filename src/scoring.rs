//! Reading a score out of the judge's reply, and the text the judge is given.
use vstd::prelude::*;
use crate::json::{json_text, push_quoted, quoted, Json};

verus! {

/// Whether `c` is an ASCII decimal digit.
pub open spec fn is_digit(c: char) -> bool {
    '0' <= c && c <= '9'
}

/// Whether `c` is white space (the Unicode `White_Space` characters).
pub open spec fn is_space(c: char) -> bool {
    let u = c as u32;
    (0x09 <= u && u <= 0x0D) || u == 0x20 || u == 0x85 || u == 0xA0 || u == 0x1680 || (0x2000
        <= u && u <= 0x200A) || u == 0x2028 || u == 0x2029 || u == 0x202F || u == 0x205F || u
        == 0x3000
}

/// `s` without its trailing white space.
pub open spec fn trim_end(s: Seq<char>) -> Seq<char>
    decreases s.len(),
{
    if s.len() > 0 && is_space(s.last()) {
        trim_end(s.drop_last())
    } else {
        s
    }
}

/// The longest run of digits at the end of `s`.
pub open spec fn trailing_digits(s: Seq<char>) -> Seq<char>
    decreases s.len(),
{
    if s.len() > 0 && is_digit(s.last()) {
        trailing_digits(s.drop_last()).push(s.last())
    } else {
        seq![]
    }
}

/// The number that the decimal digits `d` write.
pub open spec fn digits_value(d: Seq<char>) -> nat
    decreases d.len(),
{
    if d.len() == 0 {
        0
    } else {
        digits_value(d.drop_last()) * 10 + ((d.last() as u32) - 48) as nat
    }
}

/// The score in a judge's reply: the run of digits that ends the reply once trailing white
/// space is dropped, read as a number (held at `u64::MAX` if larger); none without such a run.
pub open spec fn score_of(reply: Seq<char>) -> Option<u64> {
    let d = trailing_digits(trim_end(reply));
    if d.len() == 0 {
        None
    } else if digits_value(d) > u64::MAX {
        Some(u64::MAX)
    } else {
        Some(digits_value(d) as u64)
    }
}

fn space(c: char) -> (r: bool)
    ensures
        r == is_space(c),
{
    let u = c as u32;
    (0x09 <= u && u <= 0x0D) || u == 0x20 || u == 0x85 || u == 0xA0 || u == 0x1680 || (0x2000
        <= u && u <= 0x200A) || u == 0x2028 || u == 0x2029 || u == 0x202F || u == 0x205F || u
        == 0x3000
}

fn digit_at(s: &str, i: usize) -> (r: bool)
    requires
        i < s@.len(),
    ensures
        r == is_digit(s@[i as int]),
{
    let c = s.get_char(i);
    '0' <= c && c <= '9'
}

proof fn lemma_trailing_split(t: Seq<char>, start: int)
    requires
        0 <= start <= t.len(),
        forall|k: int| start <= k < t.len() ==> is_digit(#[trigger] t[k]),
    ensures
        trailing_digits(t) == trailing_digits(t.subrange(0, start)) + t.subrange(start, t.len() as int),
    decreases t.len() - start,
{
    if start < t.len() {
        let u = t.drop_last();
        lemma_trailing_split(u, start);
        assert(u.subrange(0, start) =~= t.subrange(0, start));
        assert(u.subrange(start, u.len() as int).push(t.last()) =~= t.subrange(start, t.len() as int));
    } else {
        assert(t.subrange(0, start) =~= t);
        assert(t.subrange(start, t.len() as int) =~= Seq::<char>::empty());
        assert(trailing_digits(t) + Seq::<char>::empty() =~= trailing_digits(t));
    }
}

/// Reads the judge's score out of its reply.
pub fn extract_score(reply: &str) -> (r: Option<u64>)
    ensures
        r == score_of(reply@),
{
    let n = reply.unicode_len();
    let mut end: usize = n;
    assert(reply@.subrange(0, n as int) =~= reply@);
    while end > 0 && space(reply.get_char(end - 1))
        invariant
            n == reply@.len(),
            end <= n,
            trim_end(reply@.subrange(0, end as int)) == trim_end(reply@),
        decreases end,
    {
        assert(reply@.subrange(0, end as int).drop_last() =~= reply@.subrange(0, end - 1));
        end = end - 1;
    }
    let ghost t = reply@.subrange(0, end as int);
    assert(trim_end(t) == t);
    let mut start: usize = end;
    while start > 0 && digit_at(reply, start - 1)
        invariant
            n == reply@.len(),
            start <= end <= n,
            t == reply@.subrange(0, end as int),
            forall|k: int| start <= k < end ==> is_digit(#[trigger] t[k]),
        decreases start,
    {
        start = start - 1;
    }
    proof {
        lemma_trailing_split(t, start as int);
        let p = t.subrange(0, start as int);
        if start > 0 {
            assert(p.last() == t[start - 1]);
        }
        assert(trailing_digits(p) =~= Seq::<char>::empty());
    }
    let ghost d = t.subrange(start as int, end as int);
    assert(trailing_digits(t) =~= d);
    if start == end {
        return None;
    }
    let mut v: u64 = 0;
    let mut i: usize = start;
    assert(d.subrange(0, 0) =~= Seq::<char>::empty());
    while i < end
        invariant
            n == reply@.len(),
            start <= i <= end <= n,
            d == reply@.subrange(start as int, end as int),
            forall|k: int| 0 <= k < d.len() ==> is_digit(#[trigger] d[k]),
            v == (if digits_value(d.subrange(0, i - start)) > u64::MAX {
                u64::MAX as nat
            } else {
                digits_value(d.subrange(0, i - start))
            }),
        decreases end - i,
    {
        let c = reply.get_char(i);
        assert(d.subrange(0, i + 1 - start).drop_last() =~= d.subrange(0, i - start));
        assert(d[i - start] == c);
        let dv = (c as u32 - 48) as u64;
        assert(dv <= 9);
        if v == u64::MAX || v > 1844674407370955161 {
            v = u64::MAX;
        } else {
            let w = v * 10;
            if w > u64::MAX - dv {
                v = u64::MAX;
            } else {
                v = w + dv;
            }
        }
        i = i + 1;
    }
    assert(d.subrange(0, end - start) =~= d);
    Some(v)
}

/// The text the judge scores: a JSON object of the request as sent, the response received and
/// the response expected, with its keys in sorted order.
pub open spec fn payload_text(request: Json, response: Json, expected: Json) -> Seq<char> {
    seq!['{'] + quoted("expected_response"@) + seq![':'] + json_text(expected) + seq![','] + quoted(
        "request"@,
    ) + seq![':'] + json_text(request) + seq![','] + quoted("response"@) + seq![':'] + json_text(
        response,
    ) + seq!['}']
}

/// Builds the text the judge scores.
pub fn judge_payload(request: &Json, response: &Json, expected: &Json) -> (r: String)
    ensures
        r@ == payload_text(*request, *response, *expected),
{
    proof {
        reveal_strlit("{");
        reveal_strlit(":");
        reveal_strlit(",");
        reveal_strlit("}");
    }
    let mut out = String::new();
    out.append("{");
    push_quoted("expected_response", &mut out);
    out.append(":");
    expected.write_text(&mut out);
    out.append(",");
    push_quoted("request", &mut out);
    out.append(":");
    request.write_text(&mut out);
    out.append(",");
    push_quoted("response", &mut out);
    out.append(":");
    response.write_text(&mut out);
    out.append("}");
    assert(out@ =~= payload_text(*request, *response, *expected));
    out
}

} // verus!
