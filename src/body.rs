//! The JSON bodies that the query endpoints answer with.
use vstd::prelude::*;
use crate::store::{Quote, QuoteStore, quote_view, entries_view};
use crate::table::{assoc_map, keys_unique};

verus! {

pub open spec fn hex_digits() -> Seq<char> {
    seq!['0', '1', '2', '3', '4', '5', '6', '7', '8', '9', 'a', 'b', 'c', 'd', 'e', 'f']
}

/// How one character stands inside a JSON string literal.
pub open spec fn escape_char(c: char) -> Seq<char> {
    if c == '"' {
        seq!['\\', '"']
    } else if c == '\\' {
        seq!['\\', '\\']
    } else if (c as u32) < 0x20 {
        seq!['\\', 'u', '0', '0', hex_digits()[((c as u32) / 16) as int], hex_digits()[((c as u32) % 16) as int]]
    } else {
        seq![c]
    }
}

pub open spec fn escaped(s: Seq<char>) -> Seq<char>
    decreases s.len(),
{
    if s.len() == 0 {
        s
    } else {
        escaped(s.drop_last()) + escape_char(s.last())
    }
}

/// `s` as a JSON string literal.
pub open spec fn json_string_spec(s: Seq<char>) -> Seq<char> {
    seq!['"'] + escaped(s) + seq!['"']
}

/// Appends the JSON form of `s` to `out`.
fn push_json_string(out: &mut String, s: &str)
    ensures
        final(out)@ == old(out)@ + json_string_spec(s@),
{
    let ghost start = out@;
    proof {
        reveal_strlit("\"");
        reveal_strlit("\\\"");
        reveal_strlit("\\\\");
        reveal_strlit("\\u00");
        reveal_strlit("0123456789abcdef");
    }
    out.append("\"");
    let n = s.unicode_len();
    let mut i: usize = 0;
    while i < n
        invariant
            n == s@.len(),
            i <= n,
            out@ == start + seq!['"'] + escaped(s@.take(i as int)),
        decreases n - i,
    {
        proof {
            reveal_strlit("\\\"");
            reveal_strlit("\\\\");
            reveal_strlit("\\u00");
            reveal_strlit("0123456789abcdef");
        }
        let ghost before = out@;
        let c = s.get_char(i);
        assert(s@.take(i + 1).drop_last() =~= s@.take(i as int));
        let code = c as u32;
        if c == '"' {
            out.append("\\\"");
        } else if c == '\\' {
            out.append("\\\\");
        } else if code < 0x20 {
            let digits = "0123456789abcdef";
            out.append("\\u00");
            out.append(digits.substring_char((code / 16) as usize, (code / 16) as usize + 1));
            out.append(digits.substring_char((code % 16) as usize, (code % 16) as usize + 1));
        } else {
            out.append(s.substring_char(i, i + 1));
        }
        assert(out@ =~= before + escape_char(c));
        i = i + 1;
    }
    assert(s@.take(n as int) =~= s@);
    out.append("\"");
    assert(out@ =~= start + json_string_spec(s@));
}

/// `s` as a JSON string literal: quoted, with `"`, `\` and control characters escaped.
pub fn json_string(s: &str) -> (r: String)
    ensures
        r@ == json_string_spec(s@),
{
    let mut out = String::new();
    push_json_string(&mut out, s);
    out
}

/// The members of a quote's body: `"code": price`, separated by `, `.
pub open spec fn quote_members(q: Seq<(Seq<char>, Seq<char>)>) -> Seq<char>
    decreases q.len(),
{
    if q.len() == 0 {
        Seq::empty()
    } else if q.len() == 1 {
        json_string_spec(q[0].0) + seq![':', ' '] + q[0].1
    } else {
        quote_members(q.drop_last()) + seq![',', ' '] + json_string_spec(q.last().0) + seq![':', ' ']
            + q.last().1
    }
}

/// A quote as a JSON object from currency code to price.
pub open spec fn quote_body_spec(q: Seq<(Seq<char>, Seq<char>)>) -> Seq<char> {
    seq!['{'] + quote_members(q) + seq!['}']
}

/// Writes a quote as a JSON object from currency code to price.
pub fn quote_body(q: &Quote) -> (r: String)
    ensures
        r@ == quote_body_spec(quote_view(*q)),
{
    let ghost qv = quote_view(*q);
    proof {
        reveal_strlit("{");
    }
    let mut out = String::new();
    out.append("{");
    let mut i: usize = 0;
    while i < q.len()
        invariant
            qv == quote_view(*q),
            i <= q@.len(),
            out@ == seq!['{'] + quote_members(qv.take(i as int)),
        decreases q@.len() - i,
    {
        proof {
            reveal_strlit(", ");
            reveal_strlit(": ");
        }
        let ghost before = out@;
        assert(qv.take(i + 1).drop_last() =~= qv.take(i as int));
        if i > 0 {
            out.append(", ");
        }
        push_json_string(&mut out, q[i].0.as_str());
        out.append(": ");
        out.append(q[i].1.as_str());
        assert(out@ =~= seq!['{'] + quote_members(qv.take(i + 1)));
        i = i + 1;
    }
    assert(qv.take(i as int) =~= qv);
    proof {
        reveal_strlit("}");
    }
    out.append("}");
    out
}

/// The members of the whole store's body: `"SYMBOL": {quote}`, separated by `, `.
pub open spec fn store_members(s: Seq<(Seq<char>, Seq<(Seq<char>, Seq<char>)>)>) -> Seq<char>
    decreases s.len(),
{
    if s.len() == 0 {
        Seq::empty()
    } else if s.len() == 1 {
        json_string_spec(s[0].0) + seq![':', ' '] + quote_body_spec(s[0].1)
    } else {
        store_members(s.drop_last()) + seq![',', ' '] + json_string_spec(s.last().0) + seq![':', ' ']
            + quote_body_spec(s.last().1)
    }
}

/// Writes the whole store as a JSON object from symbol to quote. The result
/// lists the store's entries, each symbol once.
pub fn quotes_body(store: &QuoteStore) -> (r: String)
    requires
        store.wf(),
    ensures
        r@ == seq!['{'] + store_members(store.pairs()) + seq!['}'],
        keys_unique(store.pairs()),
        assoc_map(store.pairs()) == store@,
{
    let entries = store.entries();
    let ghost sv = entries_view(entries@);
    proof {
        reveal_strlit("{");
    }
    let mut out = String::new();
    out.append("{");
    let mut i: usize = 0;
    while i < entries.len()
        invariant
            sv == entries_view(entries@),
            i <= entries@.len(),
            out@ == seq!['{'] + store_members(sv.take(i as int)),
        decreases entries@.len() - i,
    {
        proof {
            reveal_strlit(", ");
            reveal_strlit(": ");
        }
        let ghost before = out@;
        assert(sv.take(i + 1).drop_last() =~= sv.take(i as int));
        if i > 0 {
            out.append(", ");
        }
        push_json_string(&mut out, entries[i].0.as_str());
        out.append(": ");
        let body = quote_body(&entries[i].1);
        out.append(body.as_str());
        assert(out@ =~= seq!['{'] + store_members(sv.take(i + 1)));
        i = i + 1;
    }
    assert(sv.take(i as int) =~= sv);
    proof {
        reveal_strlit("}");
    }
    out.append("}");
    out
}

/// The body of an answer that carries a message: `{"result":"<message>"}`.
pub fn result_body(message: &str) -> (r: String)
    ensures
        r@ == seq!['{', '"', 'r', 'e', 's', 'u', 'l', 't', '"', ':'] + json_string_spec(message@) + seq!['}'],
{
    proof {
        reveal_strlit("{\"result\":");
        reveal_strlit("}");
    }
    let mut out = String::new();
    out.append("{\"result\":");
    push_json_string(&mut out, message);
    out.append("}");
    assert(out@ =~= seq!['{', '"', 'r', 'e', 's', 'u', 'l', 't', '"', ':'] + json_string_spec(message@) + seq!['}']);
    out
}

} // verus!
