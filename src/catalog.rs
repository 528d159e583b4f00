//! The table catalog: the logical tables, and the partition index of each
//! partitioned table, used to give a partition chunk its logical name.

use vstd::prelude::*;
use std::collections::HashMap;
use crate::kinds::same_text;
use crate::text::{views, split_spec, split_text};

verus! {

broadcast use vstd::std_specs::hash::group_hash_axioms;

/// The value of a decimal digit character.
pub open spec fn digit_value(c: char) -> int {
    c as int - '0' as int
}

/// A non-empty run of decimal digits.
pub open spec fn is_digits(s: Seq<char>) -> bool {
    s.len() > 0 && forall|i: int| 0 <= i < s.len() ==> '0' <= #[trigger] s[i] <= '9'
}

/// The number that a run of decimal digits writes.
pub open spec fn digits_value(s: Seq<char>) -> int
    decreases s.len(),
{
    if s.len() == 0 {
        0
    } else {
        digits_value(s.drop_last()) * 10 + digit_value(s.last())
    }
}

/// The integer that a text writes in decimal, with an optional sign.
pub open spec fn int_text_value(s: Seq<char>) -> Option<int> {
    if s.len() > 0 && s[0] == '-' && is_digits(s.skip(1)) {
        Some(-digits_value(s.skip(1)))
    } else if s.len() > 0 && s[0] == '+' && is_digits(s.skip(1)) {
        Some(digits_value(s.skip(1)))
    } else if is_digits(s) {
        Some(digits_value(s))
    } else {
        None
    }
}

/// The `i8` that a text writes, if it writes one in range.
pub open spec fn i8_of_text(s: Seq<char>) -> Option<i8> {
    match int_text_value(s) {
        Some(v) => if -128 <= v <= 127 {
            Some(v as i8)
        } else {
            None
        },
        None => None,
    }
}

proof fn lemma_digits_nonneg(s: Seq<char>)
    requires
        forall|i: int| 0 <= i < s.len() ==> '0' <= #[trigger] s[i] <= '9',
    ensures
        digits_value(s) >= 0,
    decreases s.len(),
{
    if s.len() > 0 {
        lemma_digits_nonneg(s.drop_last());
    }
}

/// Reads a decimal `i8` with an optional sign, as `str::parse::<i8>` does.
pub fn parse_i8(s: &str) -> (r: Option<i8>)
    ensures
        r == i8_of_text(s@),
{
    let n = s.unicode_len();
    if n == 0 {
        return None;
    }
    let first = s.get_char(0);
    assert(s@[0] == first);
    let negative = first == '-';
    let start: usize = if first == '-' || first == '+' { 1 } else { 0 };
    let ghost d = s@.skip(start as int);
    if start == n {
        assert(!is_digits(d));
        assert(!is_digits(s@)) by {
            assert(!('0' <= s@[0] <= '9'));
        }
        return None;
    }
    let mut acc: u32 = 0;
    let mut i: usize = start;
    while i < n
        invariant
            n == s@.len(),
            n > 0,
            start <= i <= n,
            start == (if s@[0] == '-' || s@[0] == '+' { 1usize } else { 0usize }),
            negative == (s@[0] == '-'),
            d == s@.skip(start as int),
            forall|k: int| 0 <= k < i - start ==> '0' <= #[trigger] d[k] <= '9',
            acc as int == if digits_value(d.take(i - start)) < 1000 {
                digits_value(d.take(i - start))
            } else {
                1000
            },
        decreases n - i,
    {
        let c = s.get_char(i);
        if c < '0' || c > '9' {
            assert(d[i - start] == c);
            assert(!is_digits(d));
            assert(start == 0 ==> !is_digits(s@)) by {
                if start == 0 {
                    assert(d =~= s@);
                }
            }
            assert(start == 1 ==> !is_digits(s@)) by {
                if start == 1 {
                    assert(!('0' <= s@[0] <= '9'));
                }
            }
            return None;
        }
        let dv: u32 = (c as u32) - ('0' as u32);
        let ghost prev = d.take(i - start);
        assert(d.take(i - start + 1).drop_last() =~= prev);
        assert(d.take(i - start + 1).last() == c);
        proof {
            lemma_digits_nonneg(prev);
        }
        if acc >= 100 {
            acc = 1000;
        } else {
            acc = acc * 10 + dv;
            if acc > 1000 {
                acc = 1000;
            }
        }
        i = i + 1;
    }
    assert(d.take(n - start) =~= d);
    assert(is_digits(d));
    assert(start == 0 ==> d =~= s@);
    if acc > 128 {
        return None;
    }
    if negative {
        Some((0 - acc as i32) as i8)
    } else if acc > 127 {
        None
    } else {
        Some(acc as i8)
    }
}

/// The third `_`-separated part of a partition prefix such as
/// `_hyper_7_3_chunk`, read as an `i8`.
pub open spec fn hyper_idx_spec(name: Seq<char>) -> Option<i8> {
    let parts = split_spec(name, '_');
    if parts.len() >= 3 {
        i8_of_text(parts[2])
    } else {
        None
    }
}

/// Extracts the partition index from a partition name: the third part of it
/// between underscores, as a signed integer.
pub fn extract_hyper_idx(table_name: &str) -> (r: Result<i8, ()>)
    ensures
        match r {
            Ok(v) => hyper_idx_spec(table_name@) == Some(v),
            Err(_) => hyper_idx_spec(table_name@) is None,
        },
{
    let parts = split_text(table_name, '_');
    if parts.len() < 3 {
        return Err(());
    }
    match parse_i8(parts[2].as_str()) {
        Some(v) => Ok(v),
        None => Err(()),
    }
}

/// The prefix of a partition chunk's name.
pub open spec fn hyper_prefix() -> Seq<char> {
    seq!['_', 'h', 'y', 'p', 'e', 'r', '_']
}

/// The logical name of a table: for a partition chunk whose index is known,
/// the name of its table; for any other name, the name itself.
pub open spec fn logical_name(name: Seq<char>, lookup: Map<i8, String>) -> Seq<char> {
    if name.len() >= 7 && name.take(7) == hyper_prefix() {
        match hyper_idx_spec(name) {
            Some(idx) => if lookup.contains_key(idx) {
                lookup[idx]@
            } else {
                name
            },
            None => name,
        }
    } else {
        name
    }
}

/// The partition lookup as values.
pub open spec fn lookup_view(m: Map<i8, String>) -> Map<i8, Seq<char>> {
    m.map_values(|s: String| s@)
}

/// The lookup after recording a table under the index of its chunk prefix.
pub open spec fn lookup_after(m: Map<i8, Seq<char>>, table: Seq<char>, prefix: Seq<char>) -> Map<i8, Seq<char>> {
    match hyper_idx_spec(prefix) {
        Some(idx) => m.insert(idx, table),
        None => m,
    }
}

/// The names present in the rows, in order.
pub open spec fn present_names(rows: Seq<Option<String>>) -> Seq<Seq<char>>
    decreases rows.len(),
{
    if rows.len() == 0 {
        Seq::empty()
    } else {
        match rows.last() {
            Some(t) => present_names(rows.drop_last()).push(t@),
            None => present_names(rows.drop_last()),
        }
    }
}

/// The lookup that the rows of the partition query give.
pub open spec fn lookup_of_rows(rows: Seq<(Option<String>, Option<String>)>) -> Map<i8, Seq<char>>
    decreases rows.len(),
{
    if rows.len() == 0 {
        Map::empty()
    } else {
        let prev = lookup_of_rows(rows.drop_last());
        match rows.last() {
            (Some(t), Some(p)) => lookup_after(prev, t@, p@),
            _ => prev,
        }
    }
}

/// The tables that subscriptions may name, and the partition lookup.
pub struct TableCatalog {
    pub logical_tables: Vec<String>,
    pub partition_lookup: HashMap<i8, String>,
}

impl TableCatalog {
    /// An empty catalog.
    pub fn new() -> (r: TableCatalog)
        ensures
            r.logical_tables@.len() == 0,
            r.partition_lookup@ == Map::<i8, String>::empty(),
    {
        TableCatalog { logical_tables: Vec::new(), partition_lookup: HashMap::new() }
    }

    /// Adds a table to the logical tables.
    pub fn add_table(&mut self, table: &str)
        ensures
            views(final(self).logical_tables@) == views(old(self).logical_tables@).push(table@),
            final(self).partition_lookup@ == old(self).partition_lookup@,
    {
        self.logical_tables.push(table.to_owned());
        assert(views(self.logical_tables@) =~= views(old(self).logical_tables@).push(table@));
    }

    /// Records a partitioned table from its name and its chunk prefix; a
    /// prefix without an index is passed over.
    pub fn add_partition(&mut self, table: &str, prefix: &str)
        ensures
            final(self).logical_tables@ == old(self).logical_tables@,
            lookup_view(final(self).partition_lookup@) == lookup_after(
                lookup_view(old(self).partition_lookup@),
                table@,
                prefix@,
            ),
    {
        if let Ok(idx) = extract_hyper_idx(prefix) {
            self.partition_lookup.insert(idx, table.to_owned());
            assert(lookup_view(self.partition_lookup@) =~= lookup_view(old(self).partition_lookup@).insert(idx, table@));
        }
    }

    /// Fills the logical tables from the rows of the catalog query: each
    /// row's first column, rows without one passed over.
    pub fn detect_tables(&mut self, rows: &Vec<Option<String>>)
        ensures
            views(final(self).logical_tables@) == present_names(rows@),
            final(self).partition_lookup@ == old(self).partition_lookup@,
    {
        self.logical_tables = Vec::new();
        let mut i: usize = 0;
        while i < rows.len()
            invariant
                i <= rows@.len(),
                views(self.logical_tables@) == present_names(rows@.take(i as int)),
                self.partition_lookup@ == old(self).partition_lookup@,
            decreases rows@.len() - i,
        {
            assert(rows@.take(i + 1).drop_last() =~= rows@.take(i as int));
            match &rows[i] {
                Some(t) => self.add_table(t.as_str()),
                None => {},
            }
            i = i + 1;
        }
        assert(rows@.take(rows@.len() as int) =~= rows@);
    }

    /// Fills the partition lookup from the rows of the partition query: for
    /// each row with a table name and a chunk prefix that holds an index,
    /// that index leads to that table; later rows win.
    pub fn detect_lookup(&mut self, rows: &Vec<(Option<String>, Option<String>)>)
        ensures
            lookup_view(final(self).partition_lookup@) == lookup_of_rows(rows@),
            final(self).logical_tables@ == old(self).logical_tables@,
    {
        self.partition_lookup = HashMap::new();
        let mut i: usize = 0;
        assert(lookup_view(self.partition_lookup@) =~= Map::<i8, Seq<char>>::empty());
        while i < rows.len()
            invariant
                i <= rows@.len(),
                lookup_view(self.partition_lookup@) == lookup_of_rows(rows@.take(i as int)),
                self.logical_tables@ == old(self).logical_tables@,
            decreases rows@.len() - i,
        {
            assert(rows@.take(i + 1).drop_last() =~= rows@.take(i as int));
            let (table, prefix) = &rows[i];
            match (table, prefix) {
                (Some(t), Some(p)) => self.add_partition(t.as_str(), p.as_str()),
                _ => {},
            }
            i = i + 1;
        }
        assert(rows@.take(rows@.len() as int) =~= rows@);
    }

    /// Tells whether subscriptions may name this table.
    pub fn has_table(&self, table: &str) -> (r: bool)
        ensures
            r == views(self.logical_tables@).contains(table@),
    {
        let mut i: usize = 0;
        while i < self.logical_tables.len()
            invariant
                i <= self.logical_tables@.len(),
                forall|j: int| 0 <= j < i ==> self.logical_tables@[j]@ != table@,
            decreases self.logical_tables@.len() - i,
        {
            if same_text(self.logical_tables[i].as_str(), table) {
                assert(views(self.logical_tables@)[i as int] == table@);
                return true;
            }
            i = i + 1;
        }
        assert(!views(self.logical_tables@).contains(table@)) by {
            if views(self.logical_tables@).contains(table@) {
                let k = choose|k: int|
                    0 <= k < views(self.logical_tables@).len() && views(self.logical_tables@)[k]
                        == table@;
                assert(self.logical_tables@[k]@ == table@);
            }
        }
        false
    }

    /// The logical name of a table: a partition chunk whose index is known
    /// gets its table's name; any other name is kept as it is.
    pub fn get_table_name(&self, table_name: &str) -> (r: String)
        ensures
            r@ == logical_name(table_name@, self.partition_lookup@),
    {
        proof {
            reveal_strlit("_hyper_");
        }
        assert("_hyper_"@ =~= hyper_prefix());
        let n = table_name.unicode_len();
        if n < 7 || !same_text(table_name.substring_char(0, 7), "_hyper_") {
            assert(n >= 7 ==> table_name@.subrange(0, 7) == table_name@.take(7));
            return table_name.to_owned();
        }
        assert(table_name@.subrange(0, 7) == table_name@.take(7));
        match extract_hyper_idx(table_name) {
            Err(_) => table_name.to_owned(),
            Ok(idx) => match self.partition_lookup.get(&idx) {
                Some(v) => v.clone(),
                None => table_name.to_owned(),
            },
        }
    }
}

} // verus!
