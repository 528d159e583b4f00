//! Change events: one element of the output plugin's `change` array, read
//! into its logical table, its kind and its columns, and the filters on them.

use vstd::prelude::*;
use crate::kinds::{same_text, INSERT, UPDATE, DELETE};
use crate::json::{
    json_object_members, json_array_items, string_member,
    string_list_member, member_of, opt_views, read_string_member, read_string_list_member,
    find_member, object_members, array_items,
};
use crate::catalog::{TableCatalog, logical_name};
use crate::query::{SpecificFilter, DataType, FilterSpec};
use crate::text::views;

verus! {

/// One row-level change, as the dispatcher reads it.
#[derive(Debug, Clone)]
pub struct ChangeEvent {
    /// The logical table, after partition names are resolved.
    pub table: String,
    /// The kind, as its single bit of the mask.
    pub kind: u8,
    /// `columnnames`, each item a string or not, if the element has that array.
    pub column_names: Option<Vec<Option<String>>>,
    /// `columnvalues`, each item a string or not, if the element has that array.
    pub column_values: Option<Vec<Option<String>>>,
    /// The element's JSON text, forwarded as it is.
    pub raw: String,
}

/// A change event as values.
pub struct EventSpec {
    pub table: Seq<char>,
    pub kind: u8,
    pub names: Option<Seq<Option<Seq<char>>>>,
    pub values: Option<Seq<Option<Seq<char>>>>,
    pub raw: Seq<char>,
}

/// Optional column lists as values.
pub open spec fn opt_list_view(v: Option<Vec<Option<String>>>) -> Option<Seq<Option<Seq<char>>>> {
    match v {
        Some(l) => Some(opt_views(l@)),
        None => None,
    }
}

impl ChangeEvent {
    pub open spec fn spec_of(&self) -> EventSpec {
        EventSpec {
            table: self.table@,
            kind: self.kind,
            names: opt_list_view(self.column_names),
            values: opt_list_view(self.column_values),
            raw: self.raw@,
        }
    }
}

/// The bit of the kind that a change element names; 0 for any other text.
pub open spec fn kind_bit(k: Seq<char>) -> u8 {
    if k == "insert"@ {
        INSERT
    } else if k == "update"@ {
        UPDATE
    } else if k == "delete"@ {
        DELETE
    } else {
        0
    }
}

/// What one change element means, if it is an object with a string `table`
/// and a `kind` among `insert`, `update`, `delete`.
pub open spec fn event_of(raw: Seq<char>, lookup: Map<i8, String>) -> Option<EventSpec> {
    match json_object_members(raw) {
        None => None,
        Some(ms) => match (string_member(ms, "table"@), string_member(ms, "kind"@)) {
            (Some(t), Some(k)) => if kind_bit(k) != 0 {
                Some(
                    EventSpec {
                        table: logical_name(t, lookup),
                        kind: kind_bit(k),
                        names: string_list_member(ms, "columnnames"@),
                        values: string_list_member(ms, "columnvalues"@),
                        raw,
                    },
                )
            } else {
                None
            },
            _ => None,
        },
    }
}

/// The raw elements of the `change` array of a payload, if it has one.
pub open spec fn payload_changes(payload: Seq<char>) -> Option<Seq<Seq<char>>> {
    match json_object_members(payload) {
        None => None,
        Some(ms) => match member_of(ms, "change"@) {
            None => None,
            Some(raw) => json_array_items(raw),
        },
    }
}

fn kind_bit_of(k: &str) -> (r: u8)
    ensures
        r == kind_bit(k@),
{
    if same_text(k, "insert") {
        INSERT
    } else if same_text(k, "update") {
        UPDATE
    } else if same_text(k, "delete") {
        DELETE
    } else {
        0
    }
}

/// Reads one change element; `None` for one that lacks a string `table`,
/// or whose `kind` is not `insert`, `update` or `delete`.
pub fn decode_change(raw: &str, catalog: &TableCatalog) -> (r: Option<ChangeEvent>)
    ensures
        match r {
            None => event_of(raw@, catalog.partition_lookup@) is None,
            Some(e) => event_of(raw@, catalog.partition_lookup@) == Some(e.spec_of()),
        },
{
    let ms = match object_members(raw) {
        None => return None,
        Some(ms) => ms,
    };
    let table = match read_string_member(&ms, "table") {
        None => return None,
        Some(t) => t,
    };
    let kind_text = match read_string_member(&ms, "kind") {
        None => return None,
        Some(k) => k,
    };
    let kind = kind_bit_of(kind_text.as_str());
    if kind == 0 {
        return None;
    }
    let column_names = read_string_list_member(&ms, "columnnames");
    let column_values = read_string_list_member(&ms, "columnvalues");
    let table = catalog.get_table_name(table.as_str());
    Some(ChangeEvent { table, kind, column_names, column_values, raw: raw.to_owned() })
}

/// Reads the raw elements of a payload's `change` array.
pub fn change_elements(payload: &str) -> (r: Option<Vec<String>>)
    ensures
        match r {
            None => payload_changes(payload@) is None,
            Some(v) => payload_changes(payload@) == Some(views(v@)),
        },
{
    let ms = match object_members(payload) {
        None => return None,
        Some(ms) => ms,
    };
    match find_member(&ms, "change") {
        None => None,
        Some(raw) => array_items(raw.as_str()),
    }
}

/// The index of the first column named `col`.
pub open spec fn first_index(names: Seq<Option<Seq<char>>>, col: Seq<char>) -> Option<int>
    decreases names.len(),
{
    if names.len() == 0 {
        None
    } else if names[0] == Some(col) {
        Some(0)
    } else {
        match first_index(names.skip(1), col) {
            Some(i) => Some(i + 1),
            None => None,
        }
    }
}

/// The column of a filter.
pub open spec fn filter_column(f: FilterSpec) -> Seq<char> {
    match f {
        FilterSpec::Eq { column, value } => column,
        FilterSpec::In { column, values } => column,
    }
}

/// Whether a filter lets an event through: the first column of its name
/// must hold a JSON string equal to the literal (`eq`) or among the literals
/// (`in`).
pub open spec fn filter_matches(f: FilterSpec, e: EventSpec) -> bool {
    match e.names {
        None => false,
        Some(ns) => match first_index(ns, filter_column(f)) {
            None => false,
            Some(i) => match e.values {
                None => false,
                Some(vs) => i < vs.len() && match vs[i] {
                    None => false,
                    Some(v) => match f {
                        FilterSpec::Eq { column, value } => v == value,
                        FilterSpec::In { column, values } => values.contains(v),
                    },
                },
            },
        },
    }
}

proof fn lemma_first_index_bound(names: Seq<Option<Seq<char>>>, col: Seq<char>)
    ensures
        match first_index(names, col) {
            Some(i) => 0 <= i < names.len() && names[i] == Some(col),
            None => true,
        },
    decreases names.len(),
{
    if names.len() > 0 && names[0] != Some(col) {
        lemma_first_index_bound(names.skip(1), col);
    }
}

fn position_of(names: &Vec<Option<String>>, col: &str) -> (r: Option<usize>)
    ensures
        match r {
            None => first_index(opt_views(names@), col@) is None,
            Some(i) => first_index(opt_views(names@), col@) == Some(i as int),
        },
{
    let ghost nv = opt_views(names@);
    let mut i: usize = 0;
    assert(nv.skip(0) =~= nv);
    while i < names.len()
        invariant
            i <= names@.len(),
            nv == opt_views(names@),
            first_index(nv, col@) == match first_index(nv.skip(i as int), col@) {
                Some(k) => Some(k + i),
                None => None,
            },
        decreases names@.len() - i,
    {
        assert(nv.skip(i as int)[0] == nv[i as int]);
        match &names[i] {
            Some(n) => {
                if same_text(n.as_str(), col) {
                    return Some(i);
                }
            },
            None => {},
        }
        assert(nv.skip(i as int).skip(1) =~= nv.skip(i + 1));
        i = i + 1;
    }
    None
}

fn contains_text(items: &Vec<String>, t: &str) -> (r: bool)
    ensures
        r == views(items@).contains(t@),
{
    let mut i: usize = 0;
    while i < items.len()
        invariant
            i <= items@.len(),
            forall|j: int| 0 <= j < i ==> items@[j]@ != t@,
        decreases items@.len() - i,
    {
        if same_text(items[i].as_str(), t) {
            assert(views(items@)[i as int] == t@);
            return true;
        }
        i = i + 1;
    }
    assert(!views(items@).contains(t@)) by {
        if views(items@).contains(t@) {
            let k = choose|k: int| 0 <= k < views(items@).len() && views(items@)[k] == t@;
            assert(items@[k]@ == t@);
        }
    }
    false
}

impl SpecificFilter {
    /// Whether this filter lets the event through.
    pub fn match_filter(&self, event: &ChangeEvent) -> (r: bool)
        ensures
            r == filter_matches(self.spec_of(), event.spec_of()),
    {
        let names = match &event.column_names {
            None => return false,
            Some(n) => n,
        };
        let i = match position_of(names, self.column.as_str()) {
            None => return false,
            Some(i) => i,
        };
        let values = match &event.column_values {
            None => return false,
            Some(v) => v,
        };
        if i >= values.len() {
            return false;
        }
        let v = match &values[i] {
            None => return false,
            Some(v) => v,
        };
        match &self.value {
            DataType::String(lit) => same_text(v.as_str(), lit.as_str()),
            DataType::Array(lits) => contains_text(lits, v.as_str()),
        }
    }
}

/// The `eq` filter on the columns of an event.
pub open spec fn eq_filter(c: Seq<char>, v: Seq<char>) -> FilterSpec {
    FilterSpec::Eq { column: c, value: v }
}

/// The filter `EQ(c, v)` lets an event through exactly when the first column
/// named `c` holds the JSON string `v`.
pub proof fn lemma_eq_filter(c: Seq<char>, v: Seq<char>, e: EventSpec)
    ensures
        filter_matches(eq_filter(c, v), e) <==> match (e.names, e.values) {
            (Some(ns), Some(vs)) => exists|i: int|
                first_index(ns, c) == Some(i) && 0 <= i < ns.len() && ns[i] == Some(c) && i
                    < vs.len() && #[trigger] vs[i] == Some(v),
            _ => false,
        },
{
    if let (Some(ns), Some(vs)) = (e.names, e.values) {
        lemma_first_index_bound(ns, c);
        if filter_matches(eq_filter(c, v), e) {
            let i = first_index(ns, c)->Some_0;
            assert(vs[i] == Some(v));
        }
    }
}

} // verus!
