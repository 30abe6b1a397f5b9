use packet_racers::text::{append, find, same_bytes, split_fields, split_first, trim};

#[test]
fn find_gives_the_first_occurrence() {
    assert_eq!(find(b"@enter://a://b", b"://"), Some(6));
    assert_eq!(find(b":://", b"://"), Some(1));
    assert_eq!(find(b"abc", b"c"), Some(2));
    assert_eq!(find(b"abc", b"abc"), Some(0));
    assert_eq!(find(b"abc", b"abcd"), None);
    assert_eq!(find(b"a:/b:/", b"://"), None);
    assert_eq!(find(b"", b","), None);
    assert_eq!(find(b"abc", b""), Some(0));
    assert_eq!(find(b"", b""), Some(0));
}

#[test]
fn split_first_divides_at_the_first_separator() {
    assert_eq!(split_first(b"a,b,c", b","), (&b"a"[..], Some(&b"b,c"[..])));
    assert_eq!(split_first(b",b", b","), (&b""[..], Some(&b"b"[..])));
    assert_eq!(split_first(b"a,", b","), (&b"a"[..], Some(&b""[..])));
    assert_eq!(split_first(b"abc", b","), (&b"abc"[..], None));
    assert_eq!(split_first(b"", b","), (&b""[..], None));
}

#[test]
fn split_fields_gives_the_first_two_fields() {
    assert_eq!(split_fields(b"a,b,c", b","), (&b"a"[..], Some(&b"b"[..])));
    assert_eq!(split_fields(b"a,b", b","), (&b"a"[..], Some(&b"b"[..])));
    assert_eq!(split_fields(b"a,,c", b","), (&b"a"[..], Some(&b""[..])));
    assert_eq!(split_fields(b"a", b","), (&b"a"[..], None));
    assert_eq!(split_fields(b"@query://x://y://z", b"://"), (&b"@query"[..], Some(&b"x"[..])));
}

#[test]
fn trim_takes_white_space_off_both_ends() {
    assert_eq!(trim(b"  a b \t\r\n"), b"a b");
    assert_eq!(trim(b"\x0b\x0ca"), b"a");
    assert_eq!(trim(b"a"), b"a");
    assert_eq!(trim(b""), b"");
    assert_eq!(trim(b" \n "), b"");
    assert_eq!(trim(b"\x08a\x0e"), b"\x08a\x0e");
    assert_eq!(trim(b"\xc2\xa0a"), b"\xc2\xa0a");
}

#[test]
fn same_bytes_compares_whole_strings() {
    assert!(same_bytes(b"@quit", b"@quit"));
    assert!(same_bytes(b"", b""));
    assert!(!same_bytes(b"@quit", b"@quit "));
    assert!(!same_bytes(b"@quit", b"@quiz"));
    assert!(!same_bytes(b"", b"a"));
}

#[test]
fn append_adds_at_the_end() {
    let mut out = b"ab".to_vec();
    append(&mut out, b"cd");
    append(&mut out, b"");
    assert_eq!(out, b"abcd".to_vec());
}
