//! A tagged JSON value and its compact text form.
use vstd::prelude::*;
use crate::text::same_text;

verus! {

/// A JSON value. A number is held as its literal text.
pub enum Json {
    Null,
    Bool(bool),
    Number(String),
    Str(String),
    Array(Vec<Json>),
    Object(Vec<(String, Json)>),
}

/// The value of the first member named `name` in `m`, or null when there is none.
pub open spec fn member_value(m: Seq<(String, Json)>, name: Seq<char>) -> Json
    decreases m.len(),
{
    if m.len() == 0 {
        Json::Null
    } else if m[0].0@ == name {
        m[0].1
    } else {
        member_value(m.subrange(1, m.len() as int), name)
    }
}

/// The top-level field `name` of `j`: null when `j` is not an object or has no such member.
pub open spec fn field_of(j: Json, name: Seq<char>) -> Json {
    match j {
        Json::Object(m) => member_value(m@, name),
        _ => Json::Null,
    }
}

/// The lower-case hexadecimal digit for `n` (below 16).
pub open spec fn hex_digit(n: u32) -> char {
    seq!['0', '1', '2', '3', '4', '5', '6', '7', '8', '9', 'a', 'b', 'c', 'd', 'e', 'f'][n as int]
}

/// How one character of a string is written between the quotes.
pub open spec fn escape_char(c: char) -> Seq<char> {
    if c == '"' {
        seq!['\\', '"']
    } else if c == '\\' {
        seq!['\\', '\\']
    } else if c == '\n' {
        seq!['\\', 'n']
    } else if c == '\r' {
        seq!['\\', 'r']
    } else if c == '\t' {
        seq!['\\', 't']
    } else if c == '\x08' {
        seq!['\\', 'b']
    } else if c == '\x0C' {
        seq!['\\', 'f']
    } else if (c as u32) < 0x20 {
        seq!['\\', 'u', '0', '0', hex_digit((c as u32) / 16), hex_digit((c as u32) % 16)]
    } else {
        seq![c]
    }
}

/// The characters of `s`, each escaped.
pub open spec fn escaped(s: Seq<char>) -> Seq<char>
    decreases s.len(),
{
    if s.len() == 0 {
        seq![]
    } else {
        escaped(s.drop_last()) + escape_char(s.last())
    }
}

/// A string literal: `s` escaped, between double quotes.
pub open spec fn quoted(s: Seq<char>) -> Seq<char> {
    seq!['"'] + escaped(s) + seq!['"']
}

/// The compact JSON text of `j`: no whitespace, members in the order held.
pub open spec fn json_text(j: Json) -> Seq<char>
    decreases j,
{
    match j {
        Json::Null => seq!['n', 'u', 'l', 'l'],
        Json::Bool(b) => if b {
            seq!['t', 'r', 'u', 'e']
        } else {
            seq!['f', 'a', 'l', 's', 'e']
        },
        Json::Number(n) => n@,
        Json::Str(s) => quoted(s@),
        Json::Array(items) => seq!['['] + items_text(items@) + seq![']'],
        Json::Object(members) => seq!['{'] + members_text(members@) + seq!['}'],
    }
}

/// The texts of `s`, separated by commas.
pub open spec fn items_text(s: Seq<Json>) -> Seq<char>
    decreases s,
{
    if s.len() == 0 {
        seq![]
    } else if s.len() == 1 {
        json_text(s[0])
    } else {
        items_text(s.subrange(0, s.len() - 1)) + seq![','] + json_text(s[s.len() - 1])
    }
}

/// The texts of the members `s`, separated by commas.
pub open spec fn members_text(s: Seq<(String, Json)>) -> Seq<char>
    decreases s,
{
    if s.len() == 0 {
        seq![]
    } else if s.len() == 1 {
        quoted(s[0].0@) + seq![':'] + json_text(s[0].1)
    } else {
        members_text(s.subrange(0, s.len() - 1)) + seq![','] + quoted(s[s.len() - 1].0@) + seq![
            ':',
        ] + json_text(s[s.len() - 1].1)
    }
}

/// Appends the escaped form of character `i` of `s` to `out`.
fn push_escaped_char(s: &str, i: usize, out: &mut String)
    requires
        i < s@.len() <= usize::MAX,
    ensures
        final(out)@ == old(out)@ + escape_char(s@[i as int]),
{
    let c = s.get_char(i);
    if c == '"' {
        proof { reveal_strlit("\\\""); }
        out.append("\\\"");
    } else if c == '\\' {
        proof { reveal_strlit("\\\\"); }
        out.append("\\\\");
    } else if c == '\n' {
        proof { reveal_strlit("\\n"); }
        out.append("\\n");
    } else if c == '\r' {
        proof { reveal_strlit("\\r"); }
        out.append("\\r");
    } else if c == '\t' {
        proof { reveal_strlit("\\t"); }
        out.append("\\t");
    } else if c == '\x08' {
        proof { reveal_strlit("\\b"); }
        out.append("\\b");
    } else if c == '\x0C' {
        proof { reveal_strlit("\\f"); }
        out.append("\\f");
    } else if (c as u32) < 0x20 {
        let code = c as u32;
        let digits = "0123456789abcdef";
        proof {
            reveal_strlit("\\u00");
            reveal_strlit("0123456789abcdef");
        }
        assert(digits@ =~= seq!['0', '1', '2', '3', '4', '5', '6', '7', '8', '9', 'a', 'b', 'c', 'd', 'e', 'f']);
        let hi = (code / 16) as usize;
        let lo = (code % 16) as usize;
        out.append("\\u00");
        let h = digits.substring_char(hi, hi + 1);
        let l = digits.substring_char(lo, lo + 1);
        assert(h@ =~= seq![hex_digit(code / 16)]);
        assert(l@ =~= seq![hex_digit(code % 16)]);
        out.append(h);
        out.append(l);
    } else {
        let piece = s.substring_char(i, i + 1);
        assert(piece@ =~= seq![c]);
        out.append(piece);
    }
}

/// Appends `s` as a JSON string literal to `out`.
pub(crate) fn push_quoted(s: &str, out: &mut String)
    ensures
        final(out)@ == old(out)@ + quoted(s@),
{
    let ghost start = out@;
    proof { reveal_strlit("\""); }
    out.append("\"");
    let n = s.unicode_len();
    let mut i: usize = 0;
    assert(s@.subrange(0, 0) =~= Seq::<char>::empty());
    assert(out@ =~= start + seq!['"'] + escaped(s@.subrange(0, 0)));
    while i < n
        invariant
            n == s@.len(),
            i <= n,
            out@ == start + seq!['"'] + escaped(s@.subrange(0, i as int)),
        decreases n - i,
    {
        push_escaped_char(s, i, out);
        assert(s@.subrange(0, i + 1).drop_last() =~= s@.subrange(0, i as int));
        i = i + 1;
        assert(out@ =~= start + seq!['"'] + escaped(s@.subrange(0, i as int)));
    }
    out.append("\"");
    assert(s@.subrange(0, n as int) =~= s@);
    assert(out@ =~= start + quoted(s@));
}

impl Json {
    /// Appends the compact JSON text of this value to `out`.
    pub fn write_text(&self, out: &mut String)
        ensures
            final(out)@ == old(out)@ + json_text(*self),
        decreases self,
    {
        let ghost start = out@;
        match self {
            Json::Null => {
                proof { reveal_strlit("null"); }
                out.append("null");
                assert(out@ =~= start + json_text(*self));
            },
            Json::Bool(b) => {
                if *b {
                    proof { reveal_strlit("true"); }
                    out.append("true");
                } else {
                    proof { reveal_strlit("false"); }
                    out.append("false");
                }
                assert(out@ =~= start + json_text(*self));
            },
            Json::Number(n) => {
                out.append(n.as_str());
            },
            Json::Str(s) => {
                push_quoted(s.as_str(), out);
            },
            Json::Array(items) => {
                proof {
                    reveal_strlit("[");
                    reveal_strlit(",");
                    reveal_strlit("]");
                }
                out.append("[");
                let mut i: usize = 0;
                assert(out@ =~= start + seq!['['] + items_text(items@.subrange(0, 0)));
                while i < items.len()
                    invariant
                        i <= items.len(),
                        *self == Json::Array(*items),
                        out@ == start + seq!['['] + items_text(items@.subrange(0, i as int)),
                    decreases items.len() - i,
                {
                    let ghost before = out@;
                    proof {
                        reveal_strlit(",");
                        reveal_strlit(":");
                    }
                    if i > 0 {
                        out.append(",");
                    }
                    proof {
                        assert(decreases_to!(*self => self->Array_0));
                        assert(decreases_to!(*items => items[i as int]));
                    }
                    items[i].write_text(out);
                    let ghost t = items@.subrange(0, i + 1);
                    assert(t.subrange(0, t.len() - 1) =~= items@.subrange(0, i as int));
                    assert(t[t.len() - 1] == items@[i as int]);
                    if i == 0 {
                        assert(out@ =~= before + items_text(t));
                    } else {
                        assert(out@ =~= before + seq![','] + json_text(t[t.len() - 1]));
                    }
                    i = i + 1;
                    assert(out@ =~= start + seq!['['] + items_text(items@.subrange(0, i as int)));
                }
                out.append("]");
                assert(items@.subrange(0, items.len() as int) =~= items@);
                assert(out@ =~= start + json_text(*self));
            },
            Json::Object(members) => {
                proof {
                    reveal_strlit("{");
                    reveal_strlit(",");
                    reveal_strlit(":");
                    reveal_strlit("}");
                }
                out.append("{");
                let mut i: usize = 0;
                assert(out@ =~= start + seq!['{'] + members_text(members@.subrange(0, 0)));
                while i < members.len()
                    invariant
                        i <= members.len(),
                        *self == Json::Object(*members),
                        out@ == start + seq!['{'] + members_text(members@.subrange(0, i as int)),
                    decreases members.len() - i,
                {
                    let ghost before = out@;
                    proof {
                        reveal_strlit(",");
                        reveal_strlit(":");
                    }
                    if i > 0 {
                        out.append(",");
                    }
                    push_quoted(members[i].0.as_str(), out);
                    out.append(":");
                    proof {
                        assert(decreases_to!(*self => self->Object_0));
                        assert(decreases_to!(*members => members[i as int]));
                        assert(decreases_to!(members[i as int] => members[i as int].1));
                    }
                    members[i].1.write_text(out);
                    let ghost t = members@.subrange(0, i + 1);
                    assert(t.subrange(0, t.len() - 1) =~= members@.subrange(0, i as int));
                    assert(t[t.len() - 1] == members@[i as int]);
                    if i == 0 {
                        assert(out@ =~= before + members_text(t));
                    } else {
                        assert(out@ =~= before + seq![','] + quoted(t[t.len() - 1].0@) + seq![':'] + json_text(t[t.len() - 1].1));
                    }
                    i = i + 1;
                    assert(out@ =~= start + seq!['{'] + members_text(members@.subrange(0, i as int)));
                }
                out.append("}");
                assert(members@.subrange(0, members.len() as int) =~= members@);
                assert(out@ =~= start + json_text(*self));
            },
        }
    }

    /// The compact JSON text of the top-level field `name` (`null` when absent).
    pub fn field_text(&self, name: &str) -> (r: String)
        ensures
            r@ == json_text(field_of(*self, name@)),
    {
        if let Json::Object(members) = self {
            let mut i: usize = 0;
            assert(members@.subrange(0, members@.len() as int) =~= members@);
            while i < members.len()
                invariant
                    i <= members.len(),
                    *self == Json::Object(*members),
                    member_value(members@.subrange(i as int, members@.len() as int), name@)
                        == member_value(members@, name@),
                decreases members.len() - i,
            {
                let ghost t = members@.subrange(i as int, members@.len() as int);
                assert(t.subrange(1, t.len() as int) =~= members@.subrange(i + 1, members@.len() as int));
                if same_text(members[i].0.as_str(), name) {
                    return members[i].1.to_text();
                }
                i = i + 1;
            }
        }
        let r = Json::Null.to_text();
        r
    }

    /// The compact JSON text of this value.
    pub fn to_text(&self) -> (r: String)
        ensures
            r@ == json_text(*self),
    {
        let mut out = String::new();
        self.write_text(&mut out);
        assert(out@ =~= json_text(*self));
        out
    }
}

} // verus!
