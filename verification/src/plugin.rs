//! The decisions of the q C API for shared libraries that q loads: which object each element
//! of a list becomes when a list is taken apart, which rows and enum sources a request can be
//! served from, and the q expression that enumerates a symbol. The memory of such objects
//! belongs to the q process and is reached through q's own C functions, so the library decides
//! and its caller carries the decision out.

use crate::qtype;
use vstd::prelude::*;

verus! {

/// How one element of a list becomes a q object of its own.
#[derive(Clone, Copy, Debug, PartialEq, Eq, Structural)]
pub enum Element {
    /// An atom of this type that holds the element.
    Atom(i8),
    /// The element enumerated over the enum source at this position.
    Enum(usize),
    /// An enumerated element for which no enum source is left.
    NoEnumSource,
    /// The element itself, which is already an object.
    Shared,
}

/// Why a row of a table cannot be taken.
#[derive(Clone, Copy, Debug, PartialEq, Eq, Structural)]
pub enum RowRefusal {
    /// The object is not a table.
    NotTable,
    /// The table has no row at the index.
    IndexOutOfBounds,
}

impl RowRefusal {
    /// The message q is given for the refusal, ended by a nul for q's C strings.
    pub fn message(&self) -> (r: &'static str)
        ensures
            r@ == match self {
                RowRefusal::NotTable => "not a table\0"@,
                RowRefusal::IndexOutOfBounds => "index out of bounds\0"@,
            },
    {
        match self {
            RowRefusal::NotTable => "not a table\0",
            RowRefusal::IndexOutOfBounds => "index out of bounds\0",
        }
    }
}

/// What the name given as an enum source holds.
#[derive(Clone, Copy, Debug, PartialEq, Eq, Structural)]
pub enum EnumLookup {
    /// Looking the name up failed; its error stands as the answer.
    Failed,
    /// The name does not hold a symbol list.
    NotSymbols,
    /// The index is past the end of the symbol list.
    OutOfRange,
    /// The element can be enumerated.
    Found,
}

impl EnumLookup {
    /// The message of the error q is given where the lookup refuses the element by itself.
    pub fn message(&self) -> (r: Option<&'static str>)
        ensures
            match self {
                EnumLookup::NotSymbols => r is Some && r->0@ == "enum must be cast to symbol list\0"@,
                EnumLookup::OutOfRange => r is Some && r->0@ == "index out of enum range\0"@,
                _ => r is None,
            },
    {
        match self {
            EnumLookup::NotSymbols => Some("enum must be cast to symbol list\0"),
            EnumLookup::OutOfRange => Some("index out of enum range\0"),
            _ => None,
        }
    }
}

/// Whether a column of type `t` gives atoms of type `-t` when a row is taken.
pub open spec fn row_atom_column(t: i8) -> bool {
    t == qtype::BOOL_LIST || t == qtype::BYTE_LIST || t == qtype::SHORT_LIST || t
        == qtype::INT_LIST || t == qtype::LONG_LIST || t == qtype::REAL_LIST || t
        == qtype::FLOAT_LIST || t == qtype::STRING || t == qtype::SYMBOL_LIST || t
        == qtype::TIMESTAMP_LIST || t == qtype::MONTH_LIST || t == qtype::DATE_LIST || t
        == qtype::DATETIME_LIST || t == qtype::TIMESPAN_LIST || t == qtype::MINUTE_LIST || t
        == qtype::SECOND_LIST || t == qtype::TIME_LIST
}

/// The number of enum columns among `types`.
pub open spec fn enum_count(types: Seq<i8>) -> nat
    decreases types.len(),
{
    if types.len() == 0 {
        0
    } else {
        enum_count(types.drop_last()) + if types.last() == qtype::ENUM_LIST {
            1nat
        } else {
            0nat
        }
    }
}

/// What the element of a column of type `t` becomes in a row, after `enums_before` enum
/// columns, with `sources` enum sources given; `None` for a column that no row can hold.
pub open spec fn row_element(t: i8, enums_before: nat, sources: nat) -> Option<Element> {
    if row_atom_column(t) {
        Some(Element::Atom((-t) as i8))
    } else if t == qtype::ENUM_LIST {
        Some(
            if enums_before < sources {
                Element::Enum(enums_before as usize)
            } else {
                Element::NoEnumSource
            },
        )
    } else if t == qtype::COMPOUND_LIST {
        Some(Element::Shared)
    } else {
        None
    }
}

/// What each column of a row gives, in order.
pub open spec fn row_elements(types: Seq<i8>, sources: nat) -> Seq<Option<Element>> {
    Seq::new(types.len(), |i: int| row_element(types[i], enum_count(types.take(i)), sources))
}

/// Decide how to take row `index` of an object of type `object_type` whose columns have the
/// types `column_types` and `rows` rows, with `sources` enum sources for its enum columns, in
/// the order of those columns.
pub fn plan_row(
    object_type: i8,
    column_types: &Vec<i8>,
    rows: usize,
    index: usize,
    sources: usize,
) -> (r: Result<Vec<Option<Element>>, RowRefusal>)
    ensures
        object_type != qtype::TABLE ==> r == Err::<Vec<Option<Element>>, RowRefusal>(
            RowRefusal::NotTable,
        ),
        object_type == qtype::TABLE && rows <= index ==> r == Err::<
            Vec<Option<Element>>,
            RowRefusal,
        >(RowRefusal::IndexOutOfBounds),
        object_type == qtype::TABLE && index < rows ==> r is Ok && r->Ok_0@ == row_elements(
            column_types@,
            sources as nat,
        ),
{
    if object_type != qtype::TABLE {
        return Err(RowRefusal::NotTable);
    }
    if rows <= index {
        return Err(RowRefusal::IndexOutOfBounds);
    }
    let ghost types = column_types@;
    let mut plan: Vec<Option<Element>> = Vec::new();
    let mut enums: usize = 0;
    let mut i: usize = 0;
    while i < column_types.len()
        invariant
            types == column_types@,
            i <= types.len(),
            enums as nat == enum_count(types.take(i as int)),
            enums <= i,
            plan@ =~= row_elements(types.take(i as int), sources as nat),
        decreases types.len() - i,
    {
        let t = column_types[i];
        let e = if t == qtype::BOOL_LIST || t == qtype::BYTE_LIST || t == qtype::SHORT_LIST || t
            == qtype::INT_LIST || t == qtype::LONG_LIST || t == qtype::REAL_LIST || t
            == qtype::FLOAT_LIST || t == qtype::STRING || t == qtype::SYMBOL_LIST || t
            == qtype::TIMESTAMP_LIST || t == qtype::MONTH_LIST || t == qtype::DATE_LIST || t
            == qtype::DATETIME_LIST || t == qtype::TIMESPAN_LIST || t == qtype::MINUTE_LIST || t
            == qtype::SECOND_LIST || t == qtype::TIME_LIST {
            Some(Element::Atom(-t))
        } else if t == qtype::ENUM_LIST {
            if enums < sources {
                Some(Element::Enum(enums))
            } else {
                Some(Element::NoEnumSource)
            }
        } else if t == qtype::COMPOUND_LIST {
            Some(Element::Shared)
        } else {
            None
        };
        proof {
            assert(types.take(i + 1).drop_last() =~= types.take(i as int));
            assert forall|j: int| 0 <= j < i implies #[trigger] types.take(i + 1).take(j)
                =~= types.take(i as int).take(j) by {}
        }
        plan.push(e);
        if t == qtype::ENUM_LIST {
            enums = enums + 1;
        }
        i = i + 1;
    }
    assert(types.take(types.len() as int) =~= types);
    Ok(plan)
}

/// What the element of a simple list of type `t` becomes when the list is made a compound list
/// with one enum source: an atom of the element's type for each simple list, an enumeration for
/// an enum list, and `None` for what is no simple list.
pub open spec fn compound_element_of(t: i8) -> Option<Element> {
    if t == qtype::GUID_LIST || row_atom_column(t) {
        Some(Element::Atom((-t) as i8))
    } else if t == qtype::ENUM_LIST {
        Some(Element::Enum(0))
    } else {
        None
    }
}

/// Decide what each element of a simple list of type `list_type` becomes when the list is made
/// a compound list.
pub fn compound_element(list_type: i8) -> (r: Option<Element>)
    ensures
        r == compound_element_of(list_type),
{
    let t = list_type;
    if t == qtype::BOOL_LIST || t == qtype::GUID_LIST || t == qtype::BYTE_LIST || t
        == qtype::SHORT_LIST || t == qtype::INT_LIST || t == qtype::LONG_LIST || t
        == qtype::REAL_LIST || t == qtype::FLOAT_LIST || t == qtype::STRING || t
        == qtype::SYMBOL_LIST || t == qtype::TIMESTAMP_LIST || t == qtype::MONTH_LIST || t
        == qtype::DATE_LIST || t == qtype::DATETIME_LIST || t == qtype::TIMESPAN_LIST || t
        == qtype::MINUTE_LIST || t == qtype::SECOND_LIST || t == qtype::TIME_LIST {
        Some(Element::Atom(-t))
    } else if t == qtype::ENUM_LIST {
        Some(Element::Enum(0))
    } else {
        None
    }
}

/// Decide whether element `index` can be enumerated over an enum source that, looked up, gave
/// an object of type `source_type` and length `source_length`.
pub fn enum_lookup(source_type: i8, source_length: i64, index: i64) -> (r: EnumLookup)
    ensures
        r == (if source_type == qtype::ERROR {
            EnumLookup::Failed
        } else if source_type != qtype::SYMBOL_LIST {
            EnumLookup::NotSymbols
        } else if source_length <= index {
            EnumLookup::OutOfRange
        } else {
            EnumLookup::Found
        }),
{
    if source_type == qtype::ERROR {
        EnumLookup::Failed
    } else if source_type != qtype::SYMBOL_LIST {
        EnumLookup::NotSymbols
    } else if source_length <= index {
        EnumLookup::OutOfRange
    } else {
        EnumLookup::Found
    }
}

/// The q function that enumerates its argument over the symbol list named `source`:
/// `` {`source$source x} ``.
pub fn enum_function(source: &str) -> (r: String)
    ensures
        r@ == seq!['{', '`'] + source@ + seq!['$'] + source@ + seq![' ', 'x', '}'],
{
    let mut f = String::from_str("{`");
    f.append(source);
    f.append("$");
    f.append(source);
    f.append(" x}");
    proof {
        reveal_strlit("{`");
        reveal_strlit("$");
        reveal_strlit(" x}");
    }
    f
}

} // verus!
