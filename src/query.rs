//! Subscription queries: `<kinds>:<table>[:<column>.<op>.<literal>]`.

use vstd::prelude::*;
use crate::kinds::{apply_flag, same_text, token_bits, is_kind_mask, has_bit, lemma_or_bits, INSERT, UPDATE, DELETE};
use crate::text::{
    views, split_spec, split_once_spec, join_spec, split_text, split_once_text, join_text, none_holds,
    lemma_split_nonempty, lemma_split_single, lemma_split_concat, lemma_split_pieces,
    lemma_split_join, lemma_join_split, lemma_join_free, lemma_split_once_head,
};

verus! {

/// The literal that a filter compares with.
#[derive(Debug, Clone)]
pub enum DataType {
    /// One literal: the column must hold this string.
    String(String),
    /// Several literals: the column must hold one of them.
    Array(Vec<String>),
}

/// A filter on one column of the changed row.
#[derive(Debug, Clone)]
pub struct SpecificFilter {
    pub column: String,
    pub value: DataType,
}

/// What a subscriber listens to: one table, a mask of kinds, an optional filter.
#[derive(Debug, Clone)]
pub struct WsWatchFor {
    pub change_table: String,
    pub change_flag: u8,
    pub specific: Option<SpecificFilter>,
}

/// Why a query is refused.
#[derive(Debug, Clone, Copy, PartialEq, Eq, Structural)]
pub enum QueryError {
    /// No known kind in the kinds list.
    KindsMismatch,
    /// No table after the kinds list.
    TableMissing,
    /// The table is not one of the known tables.
    UnknownTable,
}

/// A filter as values.
pub enum FilterSpec {
    Eq { column: Seq<char>, value: Seq<char> },
    In { column: Seq<char>, values: Seq<Seq<char>> },
}

/// A subscription as values.
pub struct WatchSpec {
    pub table: Seq<char>,
    pub flag: u8,
    pub filter: Option<FilterSpec>,
}

impl SpecificFilter {
    pub open spec fn spec_of(&self) -> FilterSpec {
        match self.value {
            DataType::String(v) => FilterSpec::Eq { column: self.column@, value: v@ },
            DataType::Array(vs) => FilterSpec::In { column: self.column@, values: views(vs@) },
        }
    }
}

impl WsWatchFor {
    pub open spec fn spec_of(&self) -> WatchSpec {
        WatchSpec {
            table: self.change_table@,
            flag: self.change_flag,
            filter: match self.specific {
                None => None,
                Some(f) => Some(f.spec_of()),
            },
        }
    }
}

/// The mask that a kinds list gives, token after token.
pub open spec fn kinds_flag(toks: Seq<Seq<char>>) -> u8
    decreases toks.len(),
{
    if toks.len() == 0 {
        0
    } else {
        kinds_flag(toks.drop_last()) | token_bits(toks.last())
    }
}

/// The filter that the third part of a query gives, if any.
pub open spec fn filter_of(f: Seq<char>) -> Option<FilterSpec> {
    match split_once_spec(f, '.') {
        None => None,
        Some((col, rest)) => match split_once_spec(rest, '.') {
            None => None,
            Some((op, val)) => if op == "eq"@ {
                Some(FilterSpec::Eq { column: col, value: val })
            } else if op == "in"@ {
                Some(FilterSpec::In { column: col, values: split_spec(val, ',') })
            } else {
                None
            },
        },
    }
}

/// What a query means against the known tables.
pub open spec fn parse_spec(q: Seq<char>, tables: Seq<Seq<char>>) -> Result<WatchSpec, QueryError> {
    let parts = split_spec(q, ':');
    let flag = kinds_flag(split_spec(parts[0], ','));
    if flag == 0 {
        Err(QueryError::KindsMismatch)
    } else if parts.len() < 2 {
        Err(QueryError::TableMissing)
    } else if !tables.contains(parts[1]) {
        Err(QueryError::UnknownTable)
    } else {
        Ok(
            WatchSpec {
                table: parts[1],
                flag,
                filter: if parts.len() >= 3 {
                    filter_of(parts[2])
                } else {
                    None
                },
            },
        )
    }
}

/// The result of a parse, as values.
pub open spec fn parse_result_spec(r: Result<WsWatchFor, QueryError>) -> Result<WatchSpec, QueryError> {
    match r {
        Ok(w) => Ok(w.spec_of()),
        Err(e) => Err(e),
    }
}

fn table_known(table: &str, tables: &Vec<String>) -> (r: bool)
    ensures
        r == views(tables@).contains(table@),
{
    let mut i: usize = 0;
    while i < tables.len()
        invariant
            i <= tables@.len(),
            forall|j: int| 0 <= j < i ==> tables@[j]@ != table@,
        decreases tables@.len() - i,
    {
        if same_text(tables[i].as_str(), table) {
            assert(views(tables@)[i as int] == table@);
            return true;
        }
        i = i + 1;
    }
    assert(!views(tables@).contains(table@)) by {
        if views(tables@).contains(table@) {
            let k = choose|k: int| 0 <= k < views(tables@).len() && views(tables@)[k] == table@;
            assert(tables@[k]@ == table@);
        }
    }
    false
}

fn parse_filter(f: &str) -> (r: Option<SpecificFilter>)
    ensures
        match r {
            None => filter_of(f@) is None,
            Some(sf) => filter_of(f@) == Some(sf.spec_of()),
        },
{
    match split_once_text(f, '.') {
        None => None,
        Some((col, rest)) => match split_once_text(rest.as_str(), '.') {
            None => None,
            Some((op, val)) => {
                if same_text(op.as_str(), "eq") {
                    Some(SpecificFilter { column: col, value: DataType::String(val) })
                } else if same_text(op.as_str(), "in") {
                    let items = split_text(val.as_str(), ',');
                    Some(SpecificFilter { column: col, value: DataType::Array(items) })
                } else {
                    None
                }
            },
        },
    }
}

/// Reads a subscription query against the known tables.
///
/// Unknown kind tokens are ignored; a mask that stays empty is refused, as
/// are a missing or unknown table. A filter whose operator is neither `eq`
/// nor `in`, or that lacks a part, leaves the subscription without filter.
pub fn parse_ws_query(query: &str, tables: &Vec<String>) -> (r: Result<WsWatchFor, QueryError>)
    ensures
        parse_result_spec(r) == parse_spec(query@, views(tables@)),
{
    let parts = split_text(query, ':');
    proof {
        crate::text::lemma_split_nonempty(query@, ':');
    }
    let toks = split_text(parts[0].as_str(), ',');
    let mut change_flag: u8 = 0;
    let mut i: usize = 0;
    while i < toks.len()
        invariant
            i <= toks@.len(),
            change_flag == kinds_flag(views(toks@).take(i as int)),
        decreases toks@.len() - i,
    {
        assert(views(toks@).take(i + 1).drop_last() =~= views(toks@).take(i as int));
        apply_flag(&mut change_flag, toks[i].as_str());
        i = i + 1;
    }
    assert(views(toks@).take(toks@.len() as int) =~= views(toks@));
    if change_flag == 0 {
        return Err(QueryError::KindsMismatch);
    }
    if parts.len() < 2 {
        return Err(QueryError::TableMissing);
    }
    if !table_known(parts[1].as_str(), tables) {
        return Err(QueryError::UnknownTable);
    }
    let specific = if parts.len() >= 3 {
        parse_filter(parts[2].as_str())
    } else {
        None
    };
    Ok(WsWatchFor { change_table: parts[1].clone(), change_flag, specific })
}

/// The kind tokens that name the bits of a mask, in a fixed order.
pub open spec fn kind_tokens(flag: u8) -> Seq<Seq<char>> {
    let t1 = if has_bit(flag, INSERT) {
        seq!["insert"@]
    } else {
        Seq::empty()
    };
    let t2 = if has_bit(flag, UPDATE) {
        t1.push("update"@)
    } else {
        t1
    };
    if has_bit(flag, DELETE) {
        t2.push("delete"@)
    } else {
        t2
    }
}

/// The text of a filter.
pub open spec fn filter_text(f: FilterSpec) -> Seq<char> {
    match f {
        FilterSpec::Eq { column, value } => column + seq!['.'] + "eq"@ + seq!['.'] + value,
        FilterSpec::In { column, values } => column + seq!['.'] + "in"@ + seq!['.'] + join_spec(
            values,
            ',',
        ),
    }
}

/// The text of a query for a subscription.
pub open spec fn query_text(w: WatchSpec) -> Seq<char> {
    join_spec(kind_tokens(w.flag), ',') + seq![':'] + w.table + match w.filter {
        None => Seq::empty(),
        Some(f) => seq![':'] + filter_text(f),
    }
}

impl WsWatchFor {
    /// Writes the subscription back as a query.
    pub fn to_query(&self) -> (r: String)
        ensures
            r@ == query_text(self.spec_of()),
    {
        proof {
            reveal_strlit(",");
            reveal_strlit(":");
            reveal_strlit(".");
        }
        let mut toks: Vec<String> = Vec::new();
        if self.change_flag & INSERT != 0 {
            toks.push(String::from_str("insert"));
        }
        if self.change_flag & UPDATE != 0 {
            toks.push(String::from_str("update"));
        }
        if self.change_flag & DELETE != 0 {
            toks.push(String::from_str("delete"));
        }
        assert(views(toks@) =~= kind_tokens(self.change_flag));
        let mut out = join_text(&toks, ",");
        out.append(":");
        out.append(self.change_table.as_str());
        match &self.specific {
            None => {
                assert(out@ =~= query_text(self.spec_of()));
            },
            Some(f) => {
                out.append(":");
                out.append(f.column.as_str());
                match &f.value {
                    DataType::String(v) => {
                        out.append(".eq.");
                        out.append(v.as_str());
                        proof {
                            reveal_strlit(".eq.");
                            reveal_strlit("eq");
                        }
                    },
                    DataType::Array(vs) => {
                        out.append(".in.");
                        let joined = join_text(vs, ",");
                        out.append(joined.as_str());
                        proof {
                            reveal_strlit(".in.");
                            reveal_strlit("in");
                        }
                    },
                }
                assert(out@ =~= query_text(self.spec_of()));
            },
        }
        out
    }
}

proof fn lemma_kinds_mask(toks: Seq<Seq<char>>)
    ensures
        is_kind_mask(kinds_flag(toks)),
    decreases toks.len(),
{
    if toks.len() > 0 {
        lemma_kinds_mask(toks.drop_last());
        let a = kinds_flag(toks.drop_last());
        let b = token_bits(toks.last());
        assert(b == 0 || b == 2 || b == 4 || b == 8 || b == 14);
        assert(a & 14 == a && (b == 0 || b == 2 || b == 4 || b == 8 || b == 14) ==> (a | b) & 14 == (
        a | b)) by (bit_vector);
    } else {
        assert(0u8 & 14u8 == 0u8) by (bit_vector);
    }
}

proof fn lemma_mask_bits(f: u8)
    requires
        f & 14 == f,
    ensures
        f == (((0u8 | (if f & 2 != 0 { 2u8 } else { 0u8 })) | (if f & 4 != 0 { 4u8 } else { 0u8 }))
            | (if f & 8 != 0 { 8u8 } else { 0u8 })),
        0u8 | 0u8 == 0u8,
{
    assert(f & 14 == f ==> f == (((0u8 | (if f & 2 != 0 { 2u8 } else { 0u8 })) | (if f & 4 != 0 {
        4u8
    } else {
        0u8
    })) | (if f & 8 != 0 { 8u8 } else { 0u8 }))) by (bit_vector);
    assert(0u8 | 0u8 == 0u8) by (bit_vector);
}

/// The kind tokens of a non-empty mask read back to the same mask.
proof fn lemma_kind_tokens(f: u8)
    requires
        is_kind_mask(f),
        f != 0,
    ensures
        kind_tokens(f).len() >= 1,
        none_holds(kind_tokens(f), ','),
        none_holds(kind_tokens(f), ':'),
        kinds_flag(kind_tokens(f)) == f,
{
    reveal_strlit("insert");
    reveal_strlit("update");
    reveal_strlit("delete");
    reveal_strlit("*");
    assert("update"@[0] != "insert"@[0]);
    assert("delete"@[0] != "insert"@[0]);
    assert("delete"@[0] != "update"@[0]);
    assert("insert"@.len() != "*"@.len());
    assert("update"@.len() != "*"@.len());
    assert("delete"@.len() != "*"@.len());
    assert(token_bits("insert"@) == 2);
    assert(token_bits("update"@) == 4);
    assert(token_bits("delete"@) == 8);
    lemma_mask_bits(f);
    assert(f & 14 == f && f != 0 ==> (f & 2 != 0 || f & 4 != 0 || f & 8 != 0)) by (bit_vector);
    let e = Seq::<Seq<char>>::empty();
    let t1 = if has_bit(f, INSERT) { seq!["insert"@] } else { e };
    let t2 = if has_bit(f, UPDATE) { t1.push("update"@) } else { t1 };
    let t3 = if has_bit(f, DELETE) { t2.push("delete"@) } else { t2 };
    assert(kind_tokens(f) == t3);
    let b2: u8 = if f & 2 != 0 { 2 } else { 0 };
    let b4: u8 = if f & 4 != 0 { 4 } else { 0 };
    let b8: u8 = if f & 8 != 0 { 8 } else { 0 };
    assert(kinds_flag(e) == 0);
    if has_bit(f, INSERT) {
        assert(seq!["insert"@].drop_last() =~= e);
        assert(kinds_flag(t1) == kinds_flag(e) | token_bits("insert"@));
    }
    assert(kinds_flag(t1) == 0u8 | b2);
    lemma_or_bits(kinds_flag(t1));
    if has_bit(f, UPDATE) {
        assert(t1.push("update"@).drop_last() =~= t1);
    }
    assert(kinds_flag(t2) == kinds_flag(t1) | b4);
    lemma_or_bits(kinds_flag(t2));
    if has_bit(f, DELETE) {
        assert(t2.push("delete"@).drop_last() =~= t2);
    }
    assert(kinds_flag(t3) == kinds_flag(t2) | b8);
    assert forall|i: int| 0 <= i < t3.len() implies !(#[trigger] t3[i]).contains(',') && !t3[i].contains(':') by {
        assert(t3[i] == "insert"@ || t3[i] == "update"@ || t3[i] == "delete"@);
    }
}

/// Writing a parsed query back as text and parsing that text again gives the
/// same subscription.
pub proof fn lemma_query_round_trip(q: Seq<char>, tables: Seq<Seq<char>>)
    requires
        parse_spec(q, tables) is Ok,
    ensures
        parse_spec(query_text(parse_spec(q, tables)->Ok_0), tables) == parse_spec(q, tables),
{
    let parts = split_spec(q, ':');
    lemma_split_pieces(q, ':');
    lemma_split_nonempty(q, ':');
    let w = parse_spec(q, tables)->Ok_0;
    let flag = w.flag;
    lemma_kinds_mask(split_spec(parts[0], ','));
    lemma_kind_tokens(flag);
    let k = join_spec(kind_tokens(flag), ',');
    lemma_split_join(kind_tokens(flag), ',');
    lemma_join_free(kind_tokens(flag), ',', ':');
    lemma_split_single(k, ':');
    assert(!parts[1].contains(':'));
    lemma_split_single(parts[1], ':');
    lemma_split_concat(k, parts[1], ':');
    let head = k + seq![':'] + parts[1];
    let qt = query_text(w);
    match w.filter {
        None => {
            assert(qt =~= head);
            assert(split_spec(qt, ':') =~= seq![k, parts[1]]);
        },
        Some(f) => {
            let p2 = parts[2];
            assert(!p2.contains(':'));
            lemma_split_once_head(p2, '.');
            let (col, rest) = split_once_spec(p2, '.').unwrap();
            lemma_split_once_head(rest, '.');
            let (op, val) = split_once_spec(rest, '.').unwrap();
            if op == "eq"@ {
                assert(filter_text(f) =~= p2);
            } else {
                lemma_join_split(val, ',');
                assert(filter_text(f) =~= p2);
            }
            assert(qt =~= head + seq![':'] + p2);
            lemma_split_single(p2, ':');
            lemma_split_concat(head, p2, ':');
            assert(split_spec(qt, ':') =~= seq![k, parts[1], p2]);
        },
    }
}

} // verus!
