//! One fetch cycle, without its network traffic: the request's parameters,
//! and what the upstream answer does to the store.
use vstd::prelude::*;
use std::collections::BTreeMap;
use crate::store::{Quote, QuoteStore, apply_quotes, apply_spec, entries_view};
use crate::symbols::SymbolMap;
use crate::text::{join_spec, join_with, replace_nulls, without_nulls};

verus! {

/// What `serde_json::from_str` gives for a text read as an object of
/// objects of numbers, each number written back as text.
pub uninterp spec fn decoded_quotes(text: Seq<char>) -> Option<Seq<(Seq<char>, Seq<(Seq<char>, Seq<char>)>)>>;

/// Relies on `serde_json::from_str`, decoding into nested `BTreeMap`s keyed by
/// string with `serde_json::Number` values, and on `Number`'s `Display`: the
/// outcome depends on the text alone.
#[verifier::external_body]
fn decode_quotes(text: &str) -> (r: Option<Vec<(String, Quote)>>)
    ensures
        match r {
            Some(v) => decoded_quotes(text@) == Some(entries_view(v@)),
            None => decoded_quotes(text@) is None,
        },
{
    match serde_json::from_str::<BTreeMap<String, BTreeMap<String, serde_json::Number>>>(text) {
        Ok(m) => Some(
            m.into_iter().map(|(id, q)| (id, q.into_iter().map(|(c, p)| (c, p.to_string())).collect())).collect(),
        ),
        Err(_) => None,
    }
}

/// The quote currencies that every request asks for.
pub open spec fn currency_codes() -> Seq<Seq<char>> {
    seq![
        seq!['u', 's', 'd'],
        seq!['c', 'n', 'y'],
        seq!['e', 'u', 'r'],
        seq!['j', 'p', 'y'],
        seq!['k', 'r', 'w'],
        seq!['s', 'g', 'd'],
        seq!['h', 'k', 'd'],
    ]
}

/// The quote currencies, in order.
pub fn currencies() -> (r: Vec<String>)
    ensures
        r@.map_values(|c: String| c@) == currency_codes(),
{
    proof {
        reveal_strlit("usd");
        reveal_strlit("cny");
        reveal_strlit("eur");
        reveal_strlit("jpy");
        reveal_strlit("krw");
        reveal_strlit("sgd");
        reveal_strlit("hkd");
    }
    let r = vec![
        String::from_str("usd"),
        String::from_str("cny"),
        String::from_str("eur"),
        String::from_str("jpy"),
        String::from_str("krw"),
        String::from_str("sgd"),
        String::from_str("hkd"),
    ];
    assert("usd"@ =~= seq!['u', 's', 'd']);
    assert("cny"@ =~= seq!['c', 'n', 'y']);
    assert("eur"@ =~= seq!['e', 'u', 'r']);
    assert("jpy"@ =~= seq!['j', 'p', 'y']);
    assert("krw"@ =~= seq!['k', 'r', 'w']);
    assert("sgd"@ =~= seq!['s', 'g', 'd']);
    assert("hkd"@ =~= seq!['h', 'k', 'd']);
    assert(r@.map_values(|c: String| c@) =~= currency_codes());
    r
}

/// The query parameters of a request for the latest prices: every identifier
/// of the table, every currency, and the request for 24-hour changes.
pub fn request_params(symbols: &SymbolMap) -> (r: Vec<(String, String)>)
    requires
        symbols.wf(),
    ensures
        r@.len() == 3,
        r@[0].0@ == seq!['i', 'd', 's'],
        r@[0].1@ == join_spec(symbols.ids(), seq![',']),
        r@[1].0@ == seq!['v', 's', '_', 'c', 'u', 'r', 'r', 'e', 'n', 'c', 'i', 'e', 's'],
        r@[1].1@ == join_spec(currency_codes(), seq![',']),
        r@[2].0@ == seq![
            'i', 'n', 'c', 'l', 'u', 'd', 'e', '_', '2', '4', 'h', 'r', '_', 'c', 'h', 'a', 'n', 'g', 'e',
        ],
        r@[2].1@ == seq!['t', 'r', 'u', 'e'],
{
    proof {
        reveal_strlit("ids");
        reveal_strlit("vs_currencies");
        reveal_strlit(",");
        reveal_strlit("true");
        reveal_strlit("include_24hr_change");
    }
    let codes = currencies();
    let ids = symbols.ids_param();
    let joined = join_with(&codes, ",");
    assert(","@ =~= seq![',']);
    let r = vec![
        (String::from_str("ids"), ids),
        (String::from_str("vs_currencies"), joined),
        (String::from_str("include_24hr_change"), String::from_str("true")),
    ];
    assert("ids"@ =~= seq!['i', 'd', 's']);
    assert("vs_currencies"@ =~= seq!['v', 's', '_', 'c', 'u', 'r', 'r', 'e', 'n', 'c', 'i', 'e', 's']);
    assert("include_24hr_change"@ =~= seq![
        'i', 'n', 'c', 'l', 'u', 'd', 'e', '_', '2', '4', 'h', 'r', '_', 'c', 'h', 'a', 'n', 'g', 'e',
    ]);
    assert("true"@ =~= seq!['t', 'r', 'u', 'e']);
    r
}

/// How a fetch cycle ended.
#[derive(PartialEq, Eq, Structural, Clone, Copy, Debug)]
pub enum CycleOutcome {
    /// The answer was decoded and written into the store.
    Updated,
    /// No answer came; the store is unchanged.
    TransportFailed,
    /// The answer could not be decoded; the store is unchanged.
    Malformed,
}

/// Applies the outcome of one request to the store. `body` is the answer's
/// text, or `None` where the request failed. Each `null` in the text counts
/// as `0`; a text that does not decode leaves the store as it was.
pub fn apply_fetch_result(store: &mut QuoteStore, symbols: &SymbolMap, body: Option<String>) -> (r: CycleOutcome)
    requires
        old(store).wf(),
        symbols.wf(),
    ensures
        final(store).wf(),
        match body {
            None => r == CycleOutcome::TransportFailed && final(store)@ == old(store)@,
            Some(text) => match decoded_quotes(without_nulls(text@)) {
                None => r == CycleOutcome::Malformed && final(store)@ == old(store)@,
                Some(response) => r == CycleOutcome::Updated && final(store)@ == apply_spec(
                    old(store)@,
                    symbols@,
                    response,
                ),
            },
        },
{
    match body {
        None => CycleOutcome::TransportFailed,
        Some(text) => {
            let cleaned = replace_nulls(text.as_str());
            match decode_quotes(cleaned.as_str()) {
                None => CycleOutcome::Malformed,
                Some(quotes) => {
                    apply_quotes(store, symbols, quotes);
                    CycleOutcome::Updated
                },
            }
        },
    }
}

} // verus!
