//! The table from the price provider's identifiers to canonical symbols, read
//! once at start-up from `id,SYMBOL` lines.
use vstd::prelude::*;
use crate::table::{assoc_map, keys_unique, pair_view, find_key, lemma_assoc_update, lemma_assoc_push, lemma_assoc_domain};
use crate::text::{is_white_space, lemma_split_two, lemma_trim_unchanged, split_spec, split_on, trim_spec, trim_str, join_spec, join_with, lemma_split_nonempty};

verus! {

/// What `str::to_uppercase` gives for a string.
pub uninterp spec fn upper_of(s: Seq<char>) -> Seq<char>;

/// Relies on `str::to_uppercase`: its result depends on the characters of `s` alone.
#[verifier::external_body]
fn to_upper(s: &str) -> (r: String)
    ensures
        r@ == upper_of(s@),
{
    s.to_uppercase()
}

pub open spec fn is_comment(line: Seq<char>) -> bool {
    line.len() > 0 && line[0] == '#'
}

/// A field that holds something besides white space.
pub open spec fn is_token(t: Seq<char>) -> bool {
    trim_spec(t).len() > 0
}

/// The entry that one line of the table's text gives, if any.
pub open spec fn line_entry(line: Seq<char>) -> Option<(Seq<char>, Seq<char>)> {
    let fields = split_spec(trim_spec(line), ',');
    if is_comment(line) {
        None
    } else if fields.len() >= 2 && is_token(fields[0]) && is_token(fields[1]) {
        Some((fields[0], upper_of(fields[1])))
    } else {
        None
    }
}

/// The table that the lines give, a later line winning over an earlier one with the same identifier.
pub open spec fn table_of_lines(lines: Seq<Seq<char>>) -> Map<Seq<char>, Seq<char>>
    decreases lines.len(),
{
    if lines.len() == 0 {
        Map::empty()
    } else {
        let m = table_of_lines(lines.drop_last());
        match line_entry(lines.last()) {
            Some(e) => m.insert(e.0, e.1),
            None => m,
        }
    }
}

/// The table that a text of newline-separated lines gives.
pub open spec fn table_of_text(text: Seq<char>) -> Map<Seq<char>, Seq<char>> {
    table_of_lines(split_spec(text, '\n'))
}

/// Comment lines, blank lines and lines with fewer than two fields give no entry.
pub proof fn lemma_skipped_lines(line: Seq<char>)
    requires
        is_comment(line) || trim_spec(line).len() == 0 || split_spec(trim_spec(line), ',').len() < 2,
    ensures
        line_entry(line) is None,
{
    if trim_spec(line).len() == 0 {
        assert(trim_spec(line) =~= Seq::<char>::empty());
    }
}

/// Every entry of the table comes from a line that gives it.
pub proof fn lemma_entries_from_lines(lines: Seq<Seq<char>>, id: Seq<char>)
    requires
        table_of_lines(lines).contains_key(id),
    ensures
        exists|i: int|
            0 <= i < lines.len() && line_entry(lines[i]) == Some((id, table_of_lines(lines)[id])),
    decreases lines.len(),
{
    let m = table_of_lines(lines.drop_last());
    match line_entry(lines.last()) {
        Some(e) => {
            if e.0 == id {
                assert(line_entry(lines[lines.len() - 1]) == Some((id, table_of_lines(lines)[id])));
            } else {
                lemma_entries_from_lines(lines.drop_last(), id);
                let i = choose|i: int|
                    0 <= i < lines.len() - 1 && line_entry(lines.drop_last()[i]) == Some((id, m[id]));
                assert(lines[i] == lines.drop_last()[i]);
            }
        },
        None => {
            lemma_entries_from_lines(lines.drop_last(), id);
            let i = choose|i: int|
                0 <= i < lines.len() - 1 && line_entry(lines.drop_last()[i]) == Some((id, m[id]));
            assert(lines[i] == lines.drop_last()[i]);
        },
    }
}

/// A line of the form `id,symbol` gives the entry `id -> upper_of(symbol)`,
/// where neither part is empty nor holds a comma or white space, and the
/// line does not start with `#`.
pub proof fn lemma_valid_line_entry(id: Seq<char>, symbol: Seq<char>)
    requires
        id.len() > 0,
        symbol.len() > 0,
        id[0] != '#',
        forall|k: int| 0 <= k < id.len() ==> id[k] != ',' && !is_white_space(#[trigger] id[k]),
        forall|k: int| 0 <= k < symbol.len() ==> symbol[k] != ',' && !is_white_space(#[trigger] symbol[k]),
    ensures
        line_entry(id + seq![','] + symbol) == Some((id, upper_of(symbol))),
{
    let line = id + seq![','] + symbol;
    assert(line[0] == id[0]);
    assert(line.last() == symbol.last());
    lemma_trim_unchanged(line);
    lemma_trim_unchanged(id);
    lemma_trim_unchanged(symbol);
    assert(!id.contains(','));
    assert(!symbol.contains(','));
    lemma_split_two(id, symbol, ',');
}

/// For every valid `id,symbol` line of a text, the table read from the text
/// maps `id` to the upper-cased `symbol`, unless a later line gives `id`
/// another entry.
pub proof fn lemma_valid_line_loaded(text: Seq<char>, i: int, id: Seq<char>, symbol: Seq<char>)
    requires
        0 <= i < split_spec(text, '\n').len(),
        split_spec(text, '\n')[i] == id + seq![','] + symbol,
        id.len() > 0,
        symbol.len() > 0,
        id[0] != '#',
        forall|k: int| 0 <= k < id.len() ==> id[k] != ',' && !is_white_space(#[trigger] id[k]),
        forall|k: int| 0 <= k < symbol.len() ==> symbol[k] != ',' && !is_white_space(#[trigger] symbol[k]),
        forall|j: int|
            i < j < split_spec(text, '\n').len() ==> match line_entry(
                #[trigger] split_spec(text, '\n')[j],
            ) {
                Some(e) => e.0 != id,
                None => true,
            },
    ensures
        table_of_text(text).contains_key(id),
        table_of_text(text)[id] == upper_of(symbol),
{
    lemma_valid_line_entry(id, symbol);
    lemma_line_kept(split_spec(text, '\n'), i, id, upper_of(symbol));
}

proof fn lemma_line_kept(lines: Seq<Seq<char>>, i: int, id: Seq<char>, symbol: Seq<char>)
    requires
        0 <= i < lines.len(),
        line_entry(lines[i]) == Some((id, symbol)),
        forall|j: int|
            i < j < lines.len() ==> match line_entry(#[trigger] lines[j]) {
                Some(e) => e.0 != id,
                None => true,
            },
    ensures
        table_of_lines(lines).contains_key(id),
        table_of_lines(lines)[id] == symbol,
    decreases lines.len(),
{
    if i < lines.len() - 1 {
        let t = lines.drop_last();
        assert forall|j: int| i < j < t.len() implies match line_entry(#[trigger] t[j]) {
            Some(e) => e.0 != id,
            None => true,
        } by {
            assert(t[j] == lines[j]);
        }
        lemma_line_kept(t, i, id, symbol);
        assert(lines[lines.len() - 1] == lines.last());
    }
}

/// Identifier-to-symbol table; identifiers keep the order in which they were first added.
pub struct SymbolMap {
    entries: Vec<(String, String)>,
}

impl View for SymbolMap {
    type V = Map<Seq<char>, Seq<char>>;

    closed spec fn view(&self) -> Map<Seq<char>, Seq<char>> {
        assoc_map(self.entries@.map_values(|e: (String, String)| pair_view(e)))
    }
}

impl SymbolMap {
    pub closed spec fn wf(&self) -> bool {
        keys_unique(self.entries@.map_values(|e: (String, String)| pair_view(e)))
    }

    /// The identifiers in the table's order.
    pub closed spec fn ids(&self) -> Seq<Seq<char>> {
        self.entries@.map_values(|e: (String, String)| e.0@)
    }

    pub fn new() -> (r: SymbolMap)
        ensures
            r.wf(),
            r@ == Map::<Seq<char>, Seq<char>>::empty(),
            r.ids() == Seq::<Seq<char>>::empty(),
    {
        let r = SymbolMap { entries: Vec::new() };
        assert(r.entries@.map_values(|e: (String, String)| pair_view(e)) =~= Seq::empty());
        assert(r.ids() =~= Seq::empty());
        r
    }

    /// Sets the symbol of `id`, replacing the one it had.
    pub fn insert(&mut self, id: String, symbol: String)
        requires
            old(self).wf(),
        ensures
            final(self).wf(),
            final(self)@ == old(self)@.insert(id@, symbol@),
    {
        let ghost s = self.entries@.map_values(|e: (String, String)| pair_view(e));
        match find_key(&self.entries, &id) {
            Some(i) => {
                proof {
                    lemma_assoc_update(s, i as int, symbol@);
                }
                self.entries.set(i, (id, symbol));
                assert(self.entries@.map_values(|e: (String, String)| pair_view(e)) =~= s.update(
                    i as int,
                    (s[i as int].0, symbol@),
                ));
            },
            None => {
                proof {
                    lemma_assoc_domain(s, id@);
                    lemma_assoc_push(s, id@, symbol@);
                }
                let ghost k = id@;
                let ghost v = symbol@;
                self.entries.push((id, symbol));
                assert(self.entries@.map_values(|e: (String, String)| pair_view(e)) =~= s.push(
                    (k, v),
                ));
            },
        }
    }

    /// The symbol of `id`, if the table has one.
    pub fn get(&self, id: &str) -> (r: Option<&String>)
        requires
            self.wf(),
        ensures
            match r {
                Some(s) => self@.contains_key(id@) && self@[id@] == s@,
                None => !self@.contains_key(id@),
            },
    {
        let key = String::from_str(id);
        let ghost s = self.entries@.map_values(|e: (String, String)| pair_view(e));
        proof {
            lemma_assoc_domain(s, id@);
        }
        match find_key(&self.entries, &key) {
            Some(i) => {
                proof {
                    crate::table::lemma_assoc_index(s, i as int);
                }
                Some(&self.entries[i].1)
            },
            None => {
                assert(forall|j: int| 0 <= j < s.len() ==> s[j].0 != id@);
                None
            },
        }
    }

    pub fn len(&self) -> (r: usize)
        requires
            self.wf(),
        ensures
            r == self@.len(),
            r == self.ids().len(),
    {
        proof {
            self.lemma_ids();
        }
        self.entries.len()
    }

    proof fn lemma_ids(&self)
        requires
            self.wf(),
        ensures
            self.ids().no_duplicates(),
            self.ids().to_set() == self@.dom(),
            self@.len() == self.ids().len(),
    {
        let s = self.entries@.map_values(|e: (String, String)| pair_view(e));
        assert forall|i: int| 0 <= i < s.len() implies #[trigger] self.ids()[i] == s[i].0 by {}
        assert forall|k: Seq<char>| self.ids().to_set().contains(k) == self@.dom().contains(k) by {
            lemma_assoc_domain(s, k);
            if self@.dom().contains(k) {
                let i = choose|i: int| 0 <= i < s.len() && s[i].0 == k;
                assert(self.ids()[i] == k);
            }
            if self.ids().to_set().contains(k) {
                let i = choose|i: int| 0 <= i < self.ids().len() && self.ids()[i] == k;
                assert(s[i].0 == k);
            }
        }
        assert(self.ids().to_set() =~= self@.dom());
        self.ids().unique_seq_to_set();
    }

    /// The identifiers joined by commas, in the table's order: the `ids`
    /// parameter of a request to the price provider.
    pub fn ids_param(&self) -> (r: String)
        requires
            self.wf(),
        ensures
            r@ == join_spec(self.ids(), seq![',']),
            self.ids().no_duplicates(),
            self.ids().to_set() == self@.dom(),
    {
        proof {
            self.lemma_ids();
        }
        let mut ids: Vec<String> = Vec::new();
        let mut i: usize = 0;
        while i < self.entries.len()
            invariant
                i <= self.entries@.len(),
                ids@.len() == i,
                forall|j: int| 0 <= j < i ==> #[trigger] ids@[j]@ == self.entries@[j].0@,
            decreases self.entries@.len() - i,
        {
            ids.push(self.entries[i].0.clone());
            i = i + 1;
        }
        assert(ids@.map_values(|p: String| p@) =~= self.ids());
        proof {
            reveal_strlit(",");
        }
        let r = join_with(&ids, ",");
        assert(","@ =~= seq![',']);
        r
    }
}

/// Reads one line of the table's text.
pub fn parse_line(line: &str) -> (r: Option<(String, String)>)
    ensures
        match r {
            Some(e) => line_entry(line@) == Some((e.0@, e.1@)),
            None => line_entry(line@) is None,
        },
{
    if line.unicode_len() > 0 && line.get_char(0) == '#' {
        return None;
    }
    let fields = split_on(trim_str(line), ',');
    proof {
        lemma_split_nonempty(trim_spec(line@), ',');
    }
    if fields.len() < 2 {
        return None;
    }
    assert(fields@[0]@ == split_spec(trim_spec(line@), ',')[0]);
    assert(fields@[1]@ == split_spec(trim_spec(line@), ',')[1]);
    let id = &fields[0];
    let symbol = &fields[1];
    if trim_str(id.as_str()).unicode_len() == 0 || trim_str(symbol.as_str()).unicode_len() == 0 {
        return None;
    }
    Some((id.clone(), to_upper(symbol.as_str())))
}

/// Builds the table from its text: one `id,symbol` pair per line, the symbol
/// upper-cased. Lines that start with `#`, lines with fewer than two fields,
/// and lines whose identifier or symbol is blank give no entry.
pub fn parse_symbol_map(text: &str) -> (r: SymbolMap)
    ensures
        r.wf(),
        r@ == table_of_text(text@),
{
    let lines = split_on(text, '\n');
    let ghost lv = lines@.map_values(|p: String| p@);
    let mut m = SymbolMap::new();
    let mut i: usize = 0;
    while i < lines.len()
        invariant
            lv == lines@.map_values(|p: String| p@),
            lv == split_spec(text@, '\n'),
            i <= lines@.len(),
            m.wf(),
            m@ == table_of_lines(lv.take(i as int)),
        decreases lines@.len() - i,
    {
        assert(lv.take(i + 1).drop_last() =~= lv.take(i as int));
        match parse_line(lines[i].as_str()) {
            Some(e) => {
                m.insert(e.0, e.1);
            },
            None => {},
        }
        i = i + 1;
    }
    assert(lv.take(i as int) =~= lv);
    m
}

} // verus!
