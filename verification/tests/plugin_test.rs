use kdbplus::plugin::{
    compound_element, enum_function, enum_lookup, plan_row, Element, EnumLookup, RowRefusal,
};
use kdbplus::qtype;

#[test]
fn plan_row_refusals_test() {
    let columns = vec![qtype::LONG_LIST];
    assert_eq!(plan_row(qtype::DICTIONARY, &columns, 3, 0, 0), Err(RowRefusal::NotTable));
    assert_eq!(plan_row(qtype::TABLE, &columns, 3, 3, 0), Err(RowRefusal::IndexOutOfBounds));
    assert_eq!(RowRefusal::NotTable.message(), "not a table\0");
    assert_eq!(RowRefusal::IndexOutOfBounds.message(), "index out of bounds\0");
}

#[test]
fn plan_row_columns_test() {
    let columns = vec![
        qtype::SYMBOL_LIST,
        qtype::ENUM_LIST,
        qtype::FLOAT_LIST,
        qtype::ENUM_LIST,
        qtype::COMPOUND_LIST,
        qtype::ENUM_LIST,
        qtype::GUID_LIST,
        qtype::STRING,
    ];
    let plan = plan_row(qtype::TABLE, &columns, 5, 4, 2).unwrap();
    assert_eq!(
        plan,
        vec![
            Some(Element::Atom(qtype::SYMBOL_ATOM)),
            Some(Element::Enum(0)),
            Some(Element::Atom(qtype::FLOAT_ATOM)),
            Some(Element::Enum(1)),
            Some(Element::Shared),
            Some(Element::NoEnumSource),
            None,
            Some(Element::Atom(qtype::CHAR)),
        ]
    );
}

#[test]
fn compound_element_test() {
    assert_eq!(compound_element(qtype::GUID_LIST), Some(Element::Atom(qtype::GUID_ATOM)));
    assert_eq!(compound_element(qtype::TIME_LIST), Some(Element::Atom(qtype::TIME_ATOM)));
    assert_eq!(compound_element(qtype::ENUM_LIST), Some(Element::Enum(0)));
    assert_eq!(compound_element(qtype::MONTH_LIST), Some(Element::Atom(qtype::MONTH_ATOM)));
    assert_eq!(compound_element(qtype::DATETIME_LIST), Some(Element::Atom(qtype::DATETIME_ATOM)));
    assert_eq!(compound_element(qtype::TIMESPAN_LIST), Some(Element::Atom(qtype::TIMESPAN_ATOM)));
    assert_eq!(compound_element(qtype::MINUTE_LIST), Some(Element::Atom(qtype::MINUTE_ATOM)));
    assert_eq!(compound_element(qtype::SECOND_LIST), Some(Element::Atom(qtype::SECOND_ATOM)));
    assert_eq!(compound_element(qtype::TABLE), None);
    assert_eq!(compound_element(qtype::COMPOUND_LIST), None);
}

#[test]
fn enum_lookup_test() {
    assert_eq!(enum_lookup(qtype::ERROR, 0, 0), EnumLookup::Failed);
    assert_eq!(enum_lookup(qtype::LONG_LIST, 3, 0), EnumLookup::NotSymbols);
    assert_eq!(enum_lookup(qtype::SYMBOL_LIST, 3, 3), EnumLookup::OutOfRange);
    assert_eq!(enum_lookup(qtype::SYMBOL_LIST, 3, 2), EnumLookup::Found);
    assert_eq!(EnumLookup::NotSymbols.message(), Some("enum must be cast to symbol list\0"));
    assert_eq!(EnumLookup::OutOfRange.message(), Some("index out of enum range\0"));
    assert_eq!(EnumLookup::Found.message(), None);
}

#[test]
fn enum_function_test() {
    assert_eq!(enum_function("sym"), "{`sym$sym x}");
}
