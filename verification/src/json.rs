//! The dump of a store as a JSON object `{"key":"value",...}`, keys in key
//! order, strings quoted and escaped as `serde_json` writes them.

use vstd::prelude::*;
use vstd::string::*;
use crate::listing::key_listing;
use crate::store::listing_of;
use crate::store::live_part;
use crate::store::EntryView;
use crate::store::Store;

verus! {

/// The lower-case hexadecimal digit of a value below 16.
pub open spec fn hex_digit(n: u32) -> char {
    if n < 10 {
        (48 + n) as char
    } else {
        (87 + n) as char
    }
}

/// How one character is written inside a JSON string: `"` and `\` are escaped
/// with a backslash, the control characters below U+0020 as `\b`, `\t`, `\n`,
/// `\f`, `\r` or `\u00XX`; every other character stands for itself.
pub open spec fn json_escape(c: char) -> Seq<char> {
    if c == '"' {
        seq!['\\', '"']
    } else if c == '\\' {
        seq!['\\', '\\']
    } else if c == '\u{8}' {
        seq!['\\', 'b']
    } else if c == '\t' {
        seq!['\\', 't']
    } else if c == '\n' {
        seq!['\\', 'n']
    } else if c == '\u{c}' {
        seq!['\\', 'f']
    } else if c == '\r' {
        seq!['\\', 'r']
    } else if (c as u32) < 32 {
        seq!['\\', 'u', '0', '0', hex_digit((c as u32) / 16), hex_digit((c as u32) % 16)]
    } else {
        seq![c]
    }
}

/// A string written as a JSON string literal.
pub open spec fn json_string(s: Seq<char>) -> Seq<char> {
    seq!['"'] + s.flat_map(|c: char| json_escape(c)) + seq!['"']
}

/// Writes `s` as a JSON string through `serde_json` (the `Display` of a
/// `serde_json::Value::String`). The contract restates the escaping of
/// `serde_json::ser::format_escaped_str` with its `ESCAPE` table and
/// `write_char_escape`.
#[verifier::external_body]
fn json_quote(s: &str) -> (r: String)
    ensures
        r@ == json_string(s@),
{
    serde_json::Value::String(s.to_owned()).to_string()
}

/// One member `"key":"value"` of the dump.
pub open spec fn json_member(p: (Seq<char>, EntryView)) -> Seq<char> {
    json_string(p.0) + seq![':'] + json_string(p.1.value)
}

/// The members of the dump, separated by commas.
pub open spec fn json_members(ps: Seq<(Seq<char>, EntryView)>) -> Seq<char>
    decreases ps.len(),
{
    if ps.len() == 0 {
        Seq::empty()
    } else if ps.len() == 1 {
        json_member(ps[0])
    } else {
        json_members(ps.drop_last()) + seq![','] + json_member(ps.last())
    }
}

/// The dump of a listing: its members between braces.
pub open spec fn json_object(ps: Seq<(Seq<char>, EntryView)>) -> Seq<char> {
    seq!['{'] + json_members(ps) + seq!['}']
}

/// The JSON object that maps each key not expired at `now` to its value.
pub fn dump_json(store: &Store, now: u128) -> (r: String)
    requires
        store.wf(),
    ensures
        r@ == json_object(key_listing(live_part(store@, now))),
{
    let live = store.live_entries(now);
    let ghost ls = listing_of(live@);
    let mut out = String::new();
    proof {
        reveal_strlit("{");
        reveal_strlit(",");
        reveal_strlit(":");
        reveal_strlit("}");
    }
    out.append("{");
    let mut i: usize = 0;
    while i < live.len()
        invariant
            ls == listing_of(live@),
            i <= live@.len(),
            out@ == seq!['{'] + json_members(ls.take(i as int)),
            ","@ == seq![','],
            ":"@ == seq![':'],
        decreases live@.len() - i,
    {
        let ghost before = out@;
        if i > 0 {
            out.append(",");
        }
        let k = json_quote(live[i].0.as_str());
        out.append(k.as_str());
        out.append(":");
        let v = json_quote(live[i].1.value.as_str());
        out.append(v.as_str());
        proof {
            let t = ls.take(i + 1);
            assert(t.drop_last() =~= ls.take(i as int));
            assert(t.last() == ls[i as int]);
            assert(ls[i as int].0 == live@[i as int].0@);
            assert(ls[i as int].1.value == live@[i as int].1.value@);
            if i == 0 {
                assert(ls.take(0) =~= Seq::<(Seq<char>, EntryView)>::empty());
                assert(out@ =~= seq!['{'] + json_member(ls[0]));
            } else {
                assert(out@ =~= before + seq![','] + json_member(ls[i as int]));
            }
        }
        i = i + 1;
    }
    out.append("}");
    proof {
        assert(ls.take(live@.len() as int) =~= ls);
    }
    out
}

} // verus!
