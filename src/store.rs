//! The quote store: the latest prices of each canonical symbol, and how a
//! decoded upstream response is written into it.
use vstd::prelude::*;
use crate::symbols::SymbolMap;
use crate::table::{assoc_map, keys_unique, pair_view, find_key, lemma_assoc_update, lemma_assoc_push, lemma_assoc_domain, lemma_assoc_index};

verus! {

/// The prices of one symbol: pairs of a currency code and a price, the price
/// kept as the text of its JSON number.
pub type Quote = Vec<(String, String)>;

/// What a quote stands for: currency code and price text, in order.
pub open spec fn quote_view(q: Quote) -> Seq<(Seq<char>, Seq<char>)> {
    q@.map_values(|p: (String, String)| pair_view(p))
}

/// What a vector of keyed quotes stands for.
pub open spec fn entries_view(v: Seq<(String, Quote)>) -> Seq<(Seq<char>, Seq<(Seq<char>, Seq<char>)>)> {
    v.map_values(|e: (String, Quote)| (e.0@, quote_view(e.1)))
}

/// The store after the pairs of a response (external identifier, quote) are
/// written one after another: each identifier that the table knows overwrites
/// the quote of its symbol, the others are dropped.
pub open spec fn apply_spec(
    store: Map<Seq<char>, Seq<(Seq<char>, Seq<char>)>>,
    symbols: Map<Seq<char>, Seq<char>>,
    response: Seq<(Seq<char>, Seq<(Seq<char>, Seq<char>)>)>,
) -> Map<Seq<char>, Seq<(Seq<char>, Seq<char>)>>
    decreases response.len(),
{
    if response.len() == 0 {
        store
    } else {
        let m = apply_spec(store, symbols, response.drop_last());
        let id = response.last().0;
        if symbols.contains_key(id) {
            m.insert(symbols[id], response.last().1)
        } else {
            m
        }
    }
}

/// After a response is written, the symbol of a known identifier holds the
/// quote that the response gave for it, unless a later pair of the response
/// writes to the same symbol.
pub proof fn lemma_fetched_quote_visible(
    store: Map<Seq<char>, Seq<(Seq<char>, Seq<char>)>>,
    symbols: Map<Seq<char>, Seq<char>>,
    response: Seq<(Seq<char>, Seq<(Seq<char>, Seq<char>)>)>,
    i: int,
)
    requires
        0 <= i < response.len(),
        symbols.contains_key(response[i].0),
        forall|j: int|
            i < j < response.len() && symbols.contains_key(#[trigger] response[j].0) ==> symbols[response[j].0]
                != symbols[response[i].0],
    ensures
        apply_spec(store, symbols, response).contains_key(symbols[response[i].0]),
        apply_spec(store, symbols, response)[symbols[response[i].0]] == response[i].1,
    decreases response.len(),
{
    if i < response.len() - 1 {
        let t = response.drop_last();
        assert forall|j: int|
            i < j < t.len() && symbols.contains_key(#[trigger] t[j].0) implies symbols[t[j].0]
                != symbols[t[i].0] by {
            assert(t[j] == response[j]);
        }
        lemma_fetched_quote_visible(store, symbols, t, i);
        assert(response[response.len() - 1] == response.last());
    }
}

/// Writing a response never removes a symbol from the store, and adds only
/// symbols that the table maps some identifier to: a store whose symbols all
/// come from the table keeps that property.
pub proof fn lemma_store_keys(
    store: Map<Seq<char>, Seq<(Seq<char>, Seq<char>)>>,
    symbols: Map<Seq<char>, Seq<char>>,
    response: Seq<(Seq<char>, Seq<(Seq<char>, Seq<char>)>)>,
)
    requires
        forall|k: Seq<char>| #[trigger] store.contains_key(k) ==> symbols.values().contains(k),
    ensures
        forall|k: Seq<char>| #[trigger] store.contains_key(k) ==> apply_spec(store, symbols, response).contains_key(k),
        forall|k: Seq<char>| #[trigger] apply_spec(store, symbols, response).contains_key(k) ==> symbols.values().contains(k),
    decreases response.len(),
{
    if response.len() > 0 {
        lemma_store_keys(store, symbols, response.drop_last());
        let id = response.last().0;
        let m = apply_spec(store, symbols, response.drop_last());
        assert forall|k: Seq<char>| #[trigger] apply_spec(store, symbols, response).contains_key(k)
            implies symbols.values().contains(k) by {
            if symbols.contains_key(id) && k == symbols[id] {
                assert(symbols.contains_key(id) && symbols[id] == k);
            } else {
                assert(m.contains_key(k));
            }
        }
    }
}

/// Writing a quote for a symbol and then reading that symbol gives back
/// exactly the quote written.
pub proof fn lemma_round_trip(
    store: Map<Seq<char>, Seq<(Seq<char>, Seq<char>)>>,
    symbol: Seq<char>,
    quote: Seq<(Seq<char>, Seq<char>)>,
)
    ensures
        store.insert(symbol, quote).contains_key(symbol),
        store.insert(symbol, quote)[symbol] == quote,
{
}

/// Latest quote of each canonical symbol.
pub struct QuoteStore {
    entries: Vec<(String, Quote)>,
}

impl View for QuoteStore {
    type V = Map<Seq<char>, Seq<(Seq<char>, Seq<char>)>>;

    closed spec fn view(&self) -> Map<Seq<char>, Seq<(Seq<char>, Seq<char>)>> {
        assoc_map(entries_view(self.entries@))
    }
}

impl QuoteStore {
    pub closed spec fn wf(&self) -> bool {
        keys_unique(entries_view(self.entries@))
    }

    /// An empty store.
    pub fn new() -> (r: QuoteStore)
        ensures
            r.wf(),
            r@ == Map::<Seq<char>, Seq<(Seq<char>, Seq<char>)>>::empty(),
    {
        let r = QuoteStore { entries: Vec::new() };
        assert(entries_view(r.entries@) =~= Seq::empty());
        r
    }

    /// Sets the quote of `symbol`, replacing the one it had.
    pub fn insert(&mut self, symbol: String, quote: Quote)
        requires
            old(self).wf(),
        ensures
            final(self).wf(),
            final(self)@ == old(self)@.insert(symbol@, quote_view(quote)),
    {
        let ghost s = entries_view(self.entries@);
        let ghost k = symbol@;
        let ghost v = quote_view(quote);
        match find_key(&self.entries, &symbol) {
            Some(i) => {
                proof {
                    lemma_assoc_update(s, i as int, v);
                }
                self.entries.set(i, (symbol, quote));
                assert(entries_view(self.entries@) =~= s.update(i as int, (s[i as int].0, v)));
            },
            None => {
                proof {
                    lemma_assoc_domain(s, k);
                    lemma_assoc_push(s, k, v);
                }
                self.entries.push((symbol, quote));
                assert(entries_view(self.entries@) =~= s.push((k, v)));
            },
        }
    }

    /// The quote of `symbol` (matched exactly, case included), if the store has one.
    pub fn get(&self, symbol: &str) -> (r: Option<&Quote>)
        requires
            self.wf(),
        ensures
            match r {
                Some(q) => self@.contains_key(symbol@) && self@[symbol@] == quote_view(*q),
                None => !self@.contains_key(symbol@),
            },
    {
        let key = String::from_str(symbol);
        let ghost s = entries_view(self.entries@);
        proof {
            lemma_assoc_domain(s, symbol@);
        }
        match find_key(&self.entries, &key) {
            Some(i) => {
                proof {
                    lemma_assoc_index(s, i as int);
                }
                Some(&self.entries[i].1)
            },
            None => {
                assert(forall|j: int| 0 <= j < s.len() ==> s[j].0 != symbol@);
                None
            },
        }
    }

    /// The store's entries in the order in which their symbols were first written.
    pub closed spec fn pairs(&self) -> Seq<(Seq<char>, Seq<(Seq<char>, Seq<char>)>)> {
        entries_view(self.entries@)
    }

    /// Every symbol with its quote, each symbol once.
    pub fn entries(&self) -> (r: &Vec<(String, Quote)>)
        requires
            self.wf(),
        ensures
            entries_view(r@) == self.pairs(),
            keys_unique(self.pairs()),
            assoc_map(self.pairs()) == self@,
    {
        &self.entries
    }

    pub fn len(&self) -> (r: usize)
        requires
            self.wf(),
        ensures
            r == self@.len(),
    {
        proof {
            crate::table::lemma_assoc_len(entries_view(self.entries@));
        }
        self.entries.len()
    }
}

/// Writes a decoded response into the store: for each pair of it, in order,
/// whose identifier the table maps to a symbol, that symbol's quote becomes
/// the pair's quote. The other symbols keep what they had.
pub fn apply_quotes(store: &mut QuoteStore, symbols: &SymbolMap, quotes: Vec<(String, Quote)>)
    requires
        old(store).wf(),
        symbols.wf(),
    ensures
        final(store).wf(),
        final(store)@ == apply_spec(old(store)@, symbols@, entries_view(quotes@)),
{
    let ghost all = entries_view(quotes@);
    let ghost start = store@;
    let n = quotes.len();
    assert(all.len() == n);
    let mut rest = quotes;
    let mut k: usize = 0;
    while rest.len() > 0
        invariant
            store.wf(),
            symbols.wf(),
            k <= all.len() <= usize::MAX,
            rest@.len() == all.len() - k,
            entries_view(rest@) == all.skip(k as int),
            store@ == apply_spec(start, symbols@, all.take(k as int)),
        decreases rest@.len(),
    {
        let ghost before = rest@;
        let (id, quote) = rest.remove(0);
        assert(rest@ =~= before.skip(1));
        assert(entries_view(before)[0] == all[k as int]);
        assert(entries_view(rest@) =~= all.skip(k + 1)) by {
            assert forall|j: int| 0 <= j < rest@.len() implies #[trigger] entries_view(rest@)[j]
                == all.skip(k + 1)[j] by {
                assert(rest@[j] == before[j + 1]);
                assert(entries_view(before)[j + 1] == all.skip(k as int)[j + 1]);
            }
        }
        assert(all.take(k + 1).drop_last() =~= all.take(k as int));
        assert(all[k as int] == entries_view(before)[0]);
        match symbols.get(id.as_str()) {
            Some(symbol) => {
                store.insert(symbol.clone(), quote);
            },
            None => {},
        }
        k = k + 1;
    }
    assert(all.take(k as int) =~= all);
}

} // verus!
