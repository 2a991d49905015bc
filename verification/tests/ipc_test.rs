use kdbplus::ipc::calendar::{Date, DateTime, Duration};
use kdbplus::ipc::compression::{compress, decompress};
use kdbplus::ipc::connection::{
    account_entry, authenticate, capacity_position, connection_type, create_sockfile_path,
    handshake_message, parse_message, split_credential,
};
use kdbplus::ipc::deserialize::get_attribute_and_size;
use kdbplus::ipc::error::{type_to_string, Error};
use kdbplus::ipc::format::{put_attribute, put_string, put_symbol};
use kdbplus::ipc::serialize::serialize_null;
use kdbplus::ipc::object::{KList, KValue};
use kdbplus::ipc::text::Glyph;
use kdbplus::ipc::{qmsg_type, ConnectionMethod, MessageHeader, Query, K};
use kdbplus::{qattribute, qtype};

fn text(glyphs: &[Glyph]) -> String {
    glyphs
        .iter()
        .map(|g| match g {
            Glyph::Letter(c) => char::from_u32(*c).unwrap(),
            _ => '?',
        })
        .collect()
}

fn header_of(message: &[u8]) -> MessageHeader {
    let mut bytes = [0u8; 8];
    bytes.copy_from_slice(&message[0..8]);
    MessageHeader::from_bytes(bytes)
}

#[test]
fn text_query_message_test() {
    let message = "1+1".serialize(qmsg_type::synchronous, false);
    assert_eq!(message, vec![1, 1, 0, 0, 17, 0, 0, 0, 10, 0, 3, 0, 0, 0, b'1', b'+', b'1']);
}

#[test]
fn object_message_test() {
    let message = K::new_long(1).serialize(qmsg_type::asynchronous, false);
    assert_eq!(message, vec![1, 0, 0, 0, 17, 0, 0, 0, 0xf9, 1, 0, 0, 0, 0, 0, 0, 0]);
    let header = header_of(&message);
    assert_eq!(header.length, 17);
    assert_eq!(header.compressed, 0);
    let (message_type, k) = parse_message(header, message[8..].to_vec()).unwrap();
    assert_eq!(message_type, qmsg_type::asynchronous);
    assert_eq!(k.get_long(), Ok(1));
}

#[test]
fn message_round_trip_test() {
    let table = K::new_dictionary(
        K::new_symbol_list(vec![String::from("a"), String::from("b")], qattribute::NONE),
        K::new_compound_list(vec![
            K::new_int_list(vec![1, 2], qattribute::NONE),
            K::new_symbol_list(vec![String::from("x"), String::from("y")], qattribute::NONE),
        ]),
    )
    .unwrap()
    .flip()
    .unwrap();
    let message = table.serialize(qmsg_type::response, true);
    let header = header_of(&message);
    assert_eq!(header.message_type, qmsg_type::response);
    assert_eq!(header.length as usize, message.len());
    let (_, k) = parse_message(header, message[8..].to_vec()).unwrap();
    assert_eq!(
        text(&k.display_glyphs()),
        String::from("+`a`b!(1 2i;`x`y)")
    );
}

#[test]
fn header_big_endian_test() {
    let header = MessageHeader::from_bytes([0, 2, 1, 0, 0, 0, 1, 2]);
    assert_eq!(header.encoding, 0);
    assert_eq!(header.message_type, 2);
    assert_eq!(header.compressed, 1);
    assert_eq!(header.length, 258);
    assert_eq!(MessageHeader::size(), 8);
    let made = MessageHeader::new(1, 0, 0, 30);
    assert_eq!(made.length, 30);
    assert_eq!(made.unused, 0);
}

#[test]
fn compressed_message_test() {
    let list = K::new_bool_list(vec![true; 2000], qattribute::NONE);
    let message = list.serialize(qmsg_type::asynchronous, false);
    let header = header_of(&message);
    assert_eq!(header.compressed, 1);
    assert_eq!(header.length as usize, message.len());
    assert!(message.len() < 1000);
    // the whole length of the message before compression
    assert_eq!(&message[8..12], &(2014_u32).to_le_bytes());
    let (_, k) = parse_message(header, message[8..].to_vec()).unwrap();
    assert_eq!(*k.as_vec::<u8>().unwrap(), vec![1_u8; 2000]);

    // within the host the same message is not compressed
    let local = list.serialize(qmsg_type::asynchronous, true);
    assert_eq!(local.len(), 2014);
    assert_eq!(header_of(&local).compressed, 0);
}

#[test]
fn compress_round_trip_test() {
    let mut raw = vec![1_u8, 0, 0, 0, 0, 0, 0, 0];
    for i in 0..3000_u32 {
        raw.push((i % 7) as u8);
    }
    let (done, compressed) = compress(raw.clone(), 1);
    assert!(done);
    assert_eq!(compressed[2], 1);
    assert_eq!(&compressed[4..8], &(compressed.len() as u32).to_le_bytes());
    assert_eq!(&compressed[8..12], &(raw.len() as u32).to_le_bytes());
    let body = decompress(&compressed[8..], 1).unwrap();
    assert_eq!(body, raw[8..].to_vec());
}

#[test]
fn compress_gives_up_test() {
    // bytes with no repeated pair do not compress to half
    let mut raw = vec![1_u8, 0, 0, 0, 0, 0, 0, 0];
    for i in 0..200_u32 {
        raw.push(((i * 37) % 251) as u8);
    }
    let (done, out) = compress(raw.clone(), 1);
    assert!(!done);
    assert_eq!(out, raw);
}

#[test]
fn decompress_malformed_test() {
    assert!(decompress(&[1, 2], 1).is_none());
    // declared length below the header
    assert!(decompress(&[4, 0, 0, 0, 0], 1).is_none());
    // declared 10 bytes of output but the body ends
    assert!(decompress(&[18, 0, 0, 0, 0, 65], 1).is_none());
    // a single literal
    assert_eq!(decompress(&[9, 0, 0, 0, 0, 65], 1), Some(vec![65]));
}

#[test]
fn credential_test() {
    assert_eq!(capacity_position(b"user:pass\x03\x00"), Some(9));
    assert_eq!(capacity_position(b"user:pa\x06"), Some(7));
    assert_eq!(capacity_position(b"user:pass"), None);
    let (user, password) = split_credential(b"user:pass:extra");
    assert_eq!(user, b"user".to_vec());
    assert_eq!(password, b"pass".to_vec());
    let (user, hash) = account_entry(b"kdbuser:a9993e364706816aba3e25717850c26c9cd0d89d\n");
    assert_eq!(user, b"kdbuser".to_vec());
    assert_eq!(hash, b"a9993e364706816aba3e25717850c26c9cd0d89d".to_vec());
}

#[test]
fn authenticate_test() {
    let accounts = vec![
        (b"kdbuser".to_vec(), b"0000".to_vec()),
        (b"kdbuser".to_vec(), b"a9993e364706816aba3e25717850c26c9cd0d89d".to_vec()),
        (b"other".to_vec(), b"a9993e364706816aba3e25717850c26c9cd0d89d".to_vec()),
    ];
    // the last account of a user counts; the password is checked by its SHA-1 digest
    assert!(authenticate(&accounts, b"kdbuser:abc"));
    assert!(!authenticate(&accounts, b"kdbuser:abd"));
    assert!(!authenticate(&accounts, b"nobody:abc"));
    // a user name alone that no account has is refused
    assert!(!authenticate(&accounts, b"nobody"));
    // the digest, not the password itself, is compared
    let plain = vec![(b"kdbuser".to_vec(), b"abc".to_vec())];
    assert!(!authenticate(&plain, b"kdbuser:abc"));
}

#[test]
fn connecting_test() {
    assert_eq!(create_sockfile_path(None, 5000), String::from("/tmp/kx.5000"));
    assert_eq!(create_sockfile_path(Some("/var/run"), 7), String::from("/var/run/kx.7"));
    assert_eq!(handshake_message("user:pass", 3), b"user:pass\x03\x00".to_vec());
    assert_eq!(connection_type(ConnectionMethod::TCP), "TCP");
    assert_eq!(connection_type(ConnectionMethod::TLS), "TLS");
    assert_eq!(connection_type(ConnectionMethod::UDS), "UDS");
}

#[test]
fn error_display_test() {
    let e = Error::IndexOutOfBounds { length: 2, index: 3 };
    assert_eq!(text(&e.display_glyphs()), "index out of bounds: specified 3 but length is 2");
    let e = Error::InvalidOperation {
        operator: "push_pair",
        operand_type: "compound list",
        expected: Some("dictionary"),
    };
    assert_eq!(
        text(&e.display_glyphs()),
        "invalid operation push_pair on compound list. expected: dictionary"
    );
    let e = Error::Object(K::new_int(7));
    assert_eq!(text(&e.display_glyphs()), "7i");
    let k = K::new_error(String::from("type"));
    assert_eq!(text(&k.display_glyphs()), "'type");
    assert_eq!(text(&Error::PopFromEmptyList.display_glyphs()), "pop from empty list");
}

#[test]
fn small_formatters_test() {
    let mut out: Vec<Glyph> = Vec::new();
    put_attribute(qattribute::SORTED, &mut out);
    put_symbol("abc", &mut out);
    put_string("x", &mut out);
    put_string("xy", &mut out);
    put_attribute(qattribute::NONE, &mut out);
    assert_eq!(text(&out), "`s#`abc,\"x\"\"xy\"");
    assert_eq!(type_to_string(qtype::INT_LIST), "int list");
    let mut stream = Vec::new();
    serialize_null(&mut stream);
    assert_eq!(stream, vec![0x65, 0]);
    assert_eq!(get_attribute_and_size(&[1, 3, 0, 0, 0], 0, 1), (1, 3, 5));
}

#[test]
fn push_then_pop_restores_test() {
    let mut list = K::new_long_list(vec![1, 2], qattribute::NONE);
    list.push(&3_i64).unwrap();
    assert_eq!(list.len(), 3);
    assert_eq!(list.pop_long(), Ok(3));
    assert_eq!(*list.as_vec::<i64>().unwrap(), vec![1, 2]);
}

#[test]
fn unkey_enkey_test() {
    let table = K::new_dictionary(
        K::new_symbol_list(vec![String::from("k"), String::from("v")], qattribute::NONE),
        K::new_compound_list(vec![
            K::new_long_list(vec![1, 2], qattribute::NONE),
            K::new_symbol_list(vec![String::from("x"), String::from("y")], qattribute::NONE),
        ]),
    )
    .unwrap()
    .flip()
    .unwrap();
    let before = text(&table.display_glyphs());
    let keyed = table.enkey(1).unwrap();
    assert_eq!(text(&keyed.display_glyphs()), "(+,`k!,1 2)!(+,`v!,`x`y)");
    let back = keyed.unkey().unwrap();
    assert_eq!(text(&back.display_glyphs()), before);
}

#[test]
fn remove_after_insert_test() {
    let mut list = K::new_int_list(vec![1, 2, 3], qattribute::NONE);
    list.insert(1, &9_i32).unwrap();
    assert_eq!(*list.as_vec::<i32>().unwrap(), vec![1, 9, 2, 3]);
    assert_eq!(list.remove_int(1), Ok(9));
    assert_eq!(*list.as_vec::<i32>().unwrap(), vec![1, 2, 3]);
    // an index beyond the end is refused and leaves the list
    assert_eq!(list.insert(5, &4_i32), Err(Error::IndexOutOfBounds { length: 3, index: 5 }));
    assert_eq!(*list.as_vec::<i32>().unwrap(), vec![1, 2, 3]);
}

#[test]
fn header_fields_test() {
    let message = "a".serialize(qmsg_type::asynchronous, true);
    let header = header_of(&message);
    assert_eq!(header.encoding, 1);
    assert_eq!(header.message_type, 0);
    assert_eq!(header.compressed, 0);
    assert_eq!(header.length as usize, message.len());
}

#[test]
fn is_displayable_test() {
    assert!(K::new_long(3).is_displayable());
    assert!(K::new_error(String::from("type")).is_displayable());
    let null_date = K { qtype: qtype::DATE_ATOM, attribute: qattribute::NONE, value: KValue::Int(i32::MIN) };
    assert!(null_date.is_displayable());
    let mismatched = K { qtype: qtype::LONG_ATOM, attribute: qattribute::NONE, value: KValue::Int(1) };
    assert!(!mismatched.is_displayable());
    let far_dates = K {
        qtype: qtype::DATE_LIST,
        attribute: qattribute::NONE,
        value: KValue::List(KList::Int(vec![0, i32::MAX - 1])),
    };
    assert!(!far_dates.is_displayable());
}

#[test]
fn wrong_element_errors_test() {
    let mut symbols = K::new_symbol_list(vec![String::from("a")], qattribute::NONE);
    assert_eq!(
        symbols.insert(0, &12_i64),
        Err(Error::InsertWrongElement {
            is_insert: true,
            destination: "symbol list",
            expected: "String"
        })
    );
    let mut ints = K::new_int_list(vec![1], qattribute::NONE);
    assert_eq!(
        ints.push(&1_i64),
        Err(Error::InsertWrongElement { is_insert: false, destination: "int list", expected: "i32" })
    );
    let mut reals = K::new_real_list(vec![1.5_f32.to_bits()], qattribute::NONE);
    assert_eq!(
        reals.push(&1_i64),
        Err(Error::InsertWrongElement { is_insert: false, destination: "real list", expected: "f32" })
    );
    assert_eq!(*ints.as_vec::<i32>().unwrap(), vec![1]);
}

#[test]
fn month_before_2000_test() {
    let months = K {
        qtype: qtype::MONTH_LIST,
        attribute: qattribute::NONE,
        value: KValue::List(KList::Int(vec![-12, -8, -13, -1, 0, 11, 12])),
    };
    assert_eq!(
        text(&months.display_glyphs()),
        "1999.01 1999.05 1998.12 1999.12 2000.01 2000.12 2001.01m"
    );
    let may = K { qtype: qtype::MONTH_ATOM, attribute: qattribute::NONE, value: KValue::Int(-8) };
    assert_eq!(may.get_month().unwrap().ymd(), (1999, 5, 1));
    let jan = K { qtype: qtype::MONTH_ATOM, attribute: qattribute::NONE, value: KValue::Int(-12) };
    assert_eq!(jan.get_month().unwrap().ymd(), (1999, 1, 1));
}

#[test]
fn dictionary_of_string_keys_len_test() {
    let d = K::new_dictionary(
        K::new_string(String::from("abc"), qattribute::NONE),
        K::new_int_list(vec![1, 2, 3], qattribute::NONE),
    )
    .unwrap();
    assert_eq!(d.len(), 3);
}

#[test]
fn insert_past_end_test() {
    let far = DateTime::from_timestamp_nanos(10_000_000_000_000_000_000).unwrap();
    let mut stamps = K::new_timestamp_list(vec![], qattribute::NONE);
    assert_eq!(stamps.insert(1, &far), Err(Error::IndexOutOfBounds { length: 0, index: 1 }));
    assert_eq!(stamps.len(), 0);
}

#[test]
fn pop_gives_pushed_test() {
    let may = Date::from_ymd_opt(1999, 5, 31).unwrap();
    let mut months = K::new_month_list(vec![], qattribute::NONE);
    months.push(&may).unwrap();
    let popped = months.pop().unwrap();
    assert_eq!(text(&popped.display_glyphs()), text(&K::new_month(may).display_glyphs()));
    assert_eq!(text(&popped.display_glyphs()), "1999.05m");
    let mut minutes = K::new_minute_list(vec![], qattribute::NONE);
    let span = Duration::seconds(3_700);
    minutes.push(&span).unwrap();
    let popped = minutes.pop().unwrap();
    assert_eq!(text(&popped.display_glyphs()), text(&K::new_minute(span).display_glyphs()));
    assert_eq!(minutes.len(), 0);
}

#[test]
fn compress_big_endian_round_trip_test() {
    let mut raw = vec![0_u8, 1, 0, 0, 0, 0, 0, 0];
    for i in 0..3000_u32 {
        raw.push((i % 5) as u8);
    }
    let (done, compressed) = compress(raw.clone(), 0);
    assert!(done);
    assert_eq!(compressed[0], 0);
    assert_eq!(&compressed[4..8], &(compressed.len() as u32).to_be_bytes());
    assert_eq!(&compressed[8..12], &(raw.len() as u32).to_be_bytes());
    let body = decompress(&compressed[8..], compressed[0]).unwrap();
    assert_eq!(body, raw[8..].to_vec());
}
