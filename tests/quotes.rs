use quote_cache::body::{json_string, quote_body, quotes_body, result_body};
use quote_cache::fetch::{apply_fetch_result, currencies, request_params, CycleOutcome};
use quote_cache::store::{apply_quotes, Quote, QuoteStore};
use quote_cache::symbols::{parse_line, parse_symbol_map, SymbolMap};
use quote_cache::text::{join_with, replace_nulls, split_on};

fn quote(pairs: &[(&str, &str)]) -> Quote {
    pairs.iter().map(|(c, p)| (c.to_string(), p.to_string())).collect()
}

fn table() -> SymbolMap {
    parse_symbol_map("bitcoin,btc\nethereum,eth\n")
}

#[test]
fn symbol_map_keeps_valid_lines() {
    let m = parse_symbol_map("# comment,line\nbitcoin,btc\n\nethereum,Eth,extra\nnofield\n,empty\nempty,\n  dogecoin,doge  \n");
    assert_eq!(m.len(), 3);
    assert_eq!(m.get("bitcoin").map(|s| s.as_str()), Some("BTC"));
    assert_eq!(m.get("ethereum").map(|s| s.as_str()), Some("ETH"));
    assert_eq!(m.get("dogecoin").map(|s| s.as_str()), Some("DOGE"));
    assert_eq!(m.get("# comment"), None);
    assert_eq!(m.get("nofield"), None);
    assert_eq!(m.get("empty"), None);
}

#[test]
fn symbol_map_accepts_one_character_fields() {
    let m = parse_symbol_map("a,b");
    assert_eq!(m.get("a").map(|s| s.as_str()), Some("B"));
}

#[test]
fn symbol_map_skips_blank_tokens() {
    assert_eq!(parse_line("x, ,y"), None);
    assert_eq!(parse_line("   "), None);
    assert_eq!(parse_line(""), None);
    assert_eq!(parse_line("#x,y"), None);
    assert_eq!(parse_line("x,y"), Some(("x".to_string(), "Y".to_string())));
}

#[test]
fn symbol_map_later_line_wins() {
    let m = parse_symbol_map("coin,aaa\ncoin,bbb\n");
    assert_eq!(m.len(), 1);
    assert_eq!(m.get("coin").map(|s| s.as_str()), Some("BBB"));
}

#[test]
fn symbol_map_uppercases_unicode() {
    let m = parse_symbol_map("x,straße");
    assert_eq!(m.get("x").map(|s| s.as_str()), Some("STRASSE"));
}

#[test]
fn split_and_join() {
    assert_eq!(split_on("a,,b", ','), vec!["a".to_string(), String::new(), "b".to_string()]);
    assert_eq!(split_on("", ','), vec![String::new()]);
    assert_eq!(join_with(&vec!["a".to_string(), "b".to_string(), "c".to_string()], ","), "a,b,c");
    assert_eq!(join_with(&vec![], ","), "");
}

#[test]
fn request_parameters() {
    let p = request_params(&table());
    assert_eq!(p[0], ("ids".to_string(), "bitcoin,ethereum".to_string()));
    assert_eq!(p[1], ("vs_currencies".to_string(), "usd,cny,eur,jpy,krw,sgd,hkd".to_string()));
    assert_eq!(p[2], ("include_24hr_change".to_string(), "true".to_string()));
    assert_eq!(currencies().len(), 7);
}

#[test]
fn nulls_become_zero() {
    assert_eq!(replace_nulls("{\"a\":null,\"b\":nul}"), "{\"a\":0,\"b\":nul}");
    assert_eq!(replace_nulls("nullnull"), "00");
    assert_eq!(replace_nulls(""), "");
}

#[test]
fn null_price_is_stored_as_zero() {
    let mut store = QuoteStore::new();
    let body = "{\"bitcoin\":{\"usd\":null,\"eur\":2.5}}".to_string();
    assert_eq!(apply_fetch_result(&mut store, &table(), Some(body)), CycleOutcome::Updated);
    assert_eq!(store.get("BTC"), Some(&quote(&[("eur", "2.5"), ("usd", "0")])));
}

#[test]
fn fetched_quote_is_served_under_symbol() {
    let mut store = QuoteStore::new();
    let body = "{\"bitcoin\":{\"usd\":1.23,\"eur\":1.01},\"unknowncoin\":{\"usd\":5}}".to_string();
    assert_eq!(apply_fetch_result(&mut store, &table(), Some(body)), CycleOutcome::Updated);
    assert_eq!(store.get("BTC"), Some(&quote(&[("eur", "1.01"), ("usd", "1.23")])));
    assert_eq!(store.get("btc"), None);
    assert_eq!(store.len(), 1);
}

#[test]
fn unknown_symbol_is_not_found() {
    let store = QuoteStore::new();
    assert_eq!(store.get("UNKNOWN"), None);
    assert_eq!(result_body("Not found"), "{\"result\":\"Not found\"}");
}

#[test]
fn failed_cycle_keeps_store() {
    let mut store = QuoteStore::new();
    store.insert("BTC".to_string(), quote(&[("usd", "1")]));
    assert_eq!(apply_fetch_result(&mut store, &table(), None), CycleOutcome::TransportFailed);
    assert_eq!(store.get("BTC"), Some(&quote(&[("usd", "1")])));
    assert_eq!(store.len(), 1);
    let bad = "{\"bitcoin\":".to_string();
    assert_eq!(apply_fetch_result(&mut store, &table(), Some(bad)), CycleOutcome::Malformed);
    assert_eq!(store.get("BTC"), Some(&quote(&[("usd", "1")])));
}

#[test]
fn stale_entries_stay_and_only_mapped_symbols_appear() {
    let mut store = QuoteStore::new();
    let first = "{\"bitcoin\":{\"usd\":1},\"ethereum\":{\"usd\":2}}".to_string();
    apply_fetch_result(&mut store, &table(), Some(first));
    let second = "{\"bitcoin\":{\"usd\":3},\"other\":{\"usd\":4}}".to_string();
    apply_fetch_result(&mut store, &table(), Some(second));
    assert_eq!(store.len(), 2);
    assert_eq!(store.get("ETH"), Some(&quote(&[("usd", "2")])));
    assert_eq!(store.get("BTC"), Some(&quote(&[("usd", "3")])));
    assert_eq!(quotes_body(&store), "{\"BTC\": {\"usd\": 3}, \"ETH\": {\"usd\": 2}}");
}

#[test]
fn write_then_read_round_trip() {
    let mut store = QuoteStore::new();
    let q = quote(&[("usd", "1.23"), ("eur", "1.01")]);
    store.insert("BTC".to_string(), q.clone());
    assert_eq!(store.get("BTC"), Some(&q));
    assert_eq!(quote_body(&q), "{\"usd\": 1.23, \"eur\": 1.01}");
}

#[test]
fn apply_quotes_directly() {
    let mut store = QuoteStore::new();
    let resp = vec![
        ("bitcoin".to_string(), quote(&[("usd", "7")])),
        ("nothing".to_string(), quote(&[("usd", "8")])),
    ];
    apply_quotes(&mut store, &table(), resp);
    assert_eq!(store.len(), 1);
    assert_eq!(store.get("BTC"), Some(&quote(&[("usd", "7")])));
}

#[test]
fn json_strings_are_escaped() {
    assert_eq!(json_string("a\"b\\c\n"), "\"a\\\"b\\\\c\\u000a\"");
    assert_eq!(json_string("\u{1f}"), "\"\\u001f\"");
    assert_eq!(json_string(""), "\"\"");
    assert_eq!(quotes_body(&QuoteStore::new()), "{}");
}
