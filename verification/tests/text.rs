use agentenv::bytes::{copy_bytes, same_bytes};
use agentenv::endian::{push_u32_le, push_u64_le, read_u32_le, read_u64_le};
use agentenv::error::Error;
use agentenv::paths::{absolute, join};
use agentenv::table::Table;
use agentenv::text::{push_decimal, push_prefixed_hex, push_signed_decimal, substring, trim};

#[test]
fn numbers_are_rendered() {
    let mut out = String::new();
    push_decimal(&mut out, 0);
    out.push(' ');
    push_decimal(&mut out, u64::MAX);
    out.push(' ');
    push_signed_decimal(&mut out, i32::MIN);
    out.push(' ');
    push_signed_decimal(&mut out, 12);
    out.push(' ');
    push_prefixed_hex(&mut out, 0);
    out.push(' ');
    push_prefixed_hex(&mut out, 0xdead_beef);
    assert_eq!(out, "0 18446744073709551615 -2147483648 12 0x0 0xdeadbeef");
}

#[test]
fn trimming_matches_the_standard_library() {
    for text in [
        "",
        " ",
        "a",
        "  a b  ",
        "\t\n\u{b}\u{c}\r x \u{85}",
        "\u{a0}\u{1680}\u{2000}\u{200a}y\u{2028}\u{2029}\u{202f}\u{205f}\u{3000}",
        "\u{200b}z\u{feff}",
    ] {
        assert_eq!(trim(text), text.trim());
    }
    assert_eq!(substring("h\u{e9}llo", 1, 3), "\u{e9}l");
}

#[test]
fn paths_join_like_the_file_system() {
    for (base, path) in [("/a", "b"), ("/a/", "b"), ("/a", "/b"), ("", "b"), ("a", ""), ("/", "x")] {
        let joined = std::path::Path::new(base).join(path);
        assert_eq!(join(base.as_bytes(), path.as_bytes()), joined.to_str().unwrap().as_bytes());
    }
    assert!(absolute(b"/x"));
    assert!(!absolute(b"x/"));
    assert!(!absolute(b""));
}

#[test]
fn integers_are_little_endian() {
    let mut out = Vec::new();
    push_u32_le(&mut out, 0x0403_0201);
    push_u64_le(&mut out, 0x0c0b_0a09_0807_0605);
    assert_eq!(out, vec![1, 2, 3, 4, 5, 6, 7, 8, 9, 10, 11, 12]);
    assert_eq!(read_u32_le(&out, 0), 0x0403_0201);
    assert_eq!(read_u64_le(&out, 4), 0x0c0b_0a09_0807_0605);
}

#[test]
fn byte_strings_are_compared_and_copied() {
    assert!(same_bytes(b"abc", b"abc"));
    assert!(!same_bytes(b"abc", b"abd"));
    assert!(!same_bytes(b"abc", b"ab"));
    assert_eq!(copy_bytes(b"abc"), b"abc");
}

#[test]
fn tables_hold_one_value_per_key() {
    let mut table: Table<String, u8> = Table::new();
    assert_eq!(table.insert("a".to_string(), 1), None);
    assert_eq!(table.insert("b".to_string(), 2), None);
    assert_eq!(table.insert("a".to_string(), 3), Some(1));
    assert_eq!(table.get(&"a".to_string()), Some(&3));
    assert!(table.get(&"b".to_string()).is_some());
    assert_eq!(table.entries().len(), 2);
    assert_eq!(table.remove(&"a".to_string()), Some(3));
    assert_eq!(table.remove(&"a".to_string()), None);
    assert_eq!(table.drain(), vec![("b".to_string(), 2)]);
    assert!(table.get(&"b".to_string()).is_none());
}

#[test]
fn errors_have_texts() {
    assert_eq!(Error::internal_message("step", "cause").message(), "step: cause");
    assert_eq!(Error::invalid_descriptor("why").message(), "why");
    assert_eq!(Error::Timeout { operation: "op" }.message(), "op timed out");
}
