use overseer::codec::{
    decode_line, encode_logoff, encode_logon, encode_mutation, encode_owner, encode_query,
    is_ok_line, is_sync_line, parse_interface_from_line,
};
use overseer::interface::{Error as TokenError, Lock, State};
use overseer::text::{find_byte, parse_decimal_u8, push_decimal};
use overseer::Error;

#[test]
fn decodes_released_line() {
    let r = parse_interface_from_line("3/7 x RELEASED").unwrap();
    assert_eq!(r, (3, 7, State { lock: Lock::Released }));
}

#[test]
fn decodes_reserved_by_you_line() {
    let r = parse_interface_from_line("12/0 P_RESERVATION RESERVED_BY_YOU").unwrap();
    assert_eq!(r, (12, 0, State { lock: Lock::ReservedByYou }));
}

#[test]
fn decodes_reserved_by_other_line() {
    let r = parse_interface_from_line("255/255 a b c RESERVED_BY_OTHER").unwrap();
    assert_eq!(r, (255, 255, State { lock: Lock::ReservedByOther }));
}

#[test]
fn decodes_line_without_middle_tokens() {
    let r = parse_interface_from_line("0/1 RELEASED").unwrap();
    assert_eq!(r, (0, 1, State { lock: Lock::Released }));
}

#[test]
fn decodes_line_with_extra_slash_field() {
    let r = decode_line(b"4/5/9 x RELEASED").unwrap();
    assert_eq!(r, (4, 5, State { lock: Lock::Released }));
}

#[test]
fn accepts_plus_sign_and_leading_zeros() {
    let r = decode_line(b"+5/007 x RESERVED_BY_YOU").unwrap();
    assert_eq!(r, (5, 7, State { lock: Lock::ReservedByYou }));
}

#[test]
fn rejects_line_without_slash() {
    assert_eq!(parse_interface_from_line("12 x RELEASED"), Err(Error::ProtocolParse));
}

#[test]
fn rejects_non_numeric_module() {
    assert_eq!(parse_interface_from_line("a/2 x RELEASED"), Err(Error::ProtocolParse));
}

#[test]
fn rejects_non_numeric_port() {
    assert_eq!(parse_interface_from_line("1/b x RELEASED"), Err(Error::ProtocolParse));
}

#[test]
fn rejects_module_out_of_range() {
    assert_eq!(parse_interface_from_line("256/1 x RELEASED"), Err(Error::ProtocolParse));
}

#[test]
fn rejects_empty_fields() {
    assert_eq!(parse_interface_from_line("/1 x RELEASED"), Err(Error::ProtocolParse));
    assert_eq!(parse_interface_from_line("1/ x RELEASED"), Err(Error::ProtocolParse));
}

#[test]
fn rejects_unknown_state_token() {
    assert_eq!(parse_interface_from_line("1/2 x RESERVED"), Err(Error::ProtocolParse));
    assert_eq!(parse_interface_from_line("1/2 x released"), Err(Error::ProtocolParse));
}

#[test]
fn rejects_line_without_state_token() {
    assert_eq!(parse_interface_from_line("1/2"), Err(Error::ProtocolParse));
    assert_eq!(parse_interface_from_line("1/2 RELEASED "), Err(Error::ProtocolParse));
}

#[test]
fn rejects_non_ascii_line() {
    assert_eq!(parse_interface_from_line("1/2 x RELEASÉD"), Err(Error::ProtocolParse));
    assert_eq!(decode_line(&[0xff, b'/', b'1', b' ', b'x']), Err(Error::ProtocolParse));
}

#[test]
fn rejects_invalid_utf8_in_ignored_token() {
    assert_eq!(decode_line(b"1/2 \xff RELEASED"), Err(Error::ProtocolParse));
    assert_eq!(decode_line(b"1/2 \xc0\xaf RELEASED"), Err(Error::ProtocolParse));
    assert_eq!(decode_line(b"1/2 \xed\xa0\x80 RELEASED"), Err(Error::ProtocolParse));
}

#[test]
fn accepts_utf8_text_in_ignored_token() {
    let r = parse_interface_from_line("1/2 prise\u{e9} RELEASED").unwrap();
    assert_eq!(r, (1, 2, State { lock: Lock::Released }));
}

#[test]
fn encodes_reserve_for_released_port() {
    assert_eq!(encode_mutation(Lock::Released, 3, 7), b"3/7 P_RESERVATION RESERVE\n".to_vec());
}

#[test]
fn encodes_release_for_own_reservation() {
    assert_eq!(encode_mutation(Lock::ReservedByYou, 3, 7), b"3/7 P_RESERVATION RELEASE\n".to_vec());
}

#[test]
fn encodes_relinquish_for_foreign_reservation() {
    assert_eq!(
        encode_mutation(Lock::ReservedByOther, 3, 7),
        b"3/7 P_RESERVATION RELINQUISH\n".to_vec()
    );
}

#[test]
fn encodes_multi_digit_ids() {
    assert_eq!(encode_mutation(Lock::Released, 255, 10), b"255/10 P_RESERVATION RESERVE\n".to_vec());
    assert_eq!(encode_mutation(Lock::Released, 0, 100), b"0/100 P_RESERVATION RESERVE\n".to_vec());
}

#[test]
fn encodes_fixed_requests() {
    assert_eq!(encode_logon(), b"C_LOGON \"xena\"\n".to_vec());
    assert_eq!(encode_owner(), b"C_OWNER \"overseer\"\n".to_vec());
    assert_eq!(encode_query(), b"*/* P_RESERVATION ?\nSYNC\n".to_vec());
    assert_eq!(encode_logoff(), b"C_LOGOFF\n".to_vec());
}

#[test]
fn recognises_marker_lines() {
    assert!(is_ok_line(b"<OK>"));
    assert!(!is_ok_line(b"<OK> "));
    assert!(!is_ok_line(b"<ERR>"));
    assert!(is_sync_line(b"<SYNC>"));
    assert!(!is_sync_line(b"SYNC"));
}

#[test]
fn lock_names_and_tokens() {
    assert_eq!(Lock::Released.str(), "Released");
    assert_eq!(Lock::ReservedByYou.str(), "ReleasedByYou");
    assert_eq!(Lock::ReservedByOther.str(), "ReleasedByOther");
    assert_eq!(Lock::Released.token(), b"RELEASED");
    assert_eq!(Lock::ReservedByYou.token(), b"RESERVED_BY_YOU");
    assert_eq!(Lock::ReservedByOther.token(), b"RESERVED_BY_OTHER");
}

#[test]
fn lock_from_text() {
    assert_eq!(Lock::try_from("RELEASED").unwrap(), Lock::Released);
    assert_eq!(Lock::try_from("RESERVED_BY_YOU").unwrap(), Lock::ReservedByYou);
    assert_eq!(Lock::try_from("RESERVED_BY_OTHER").unwrap(), Lock::ReservedByOther);
    match Lock::try_from("FREE") {
        Err(TokenError::InvalidInput(s)) => assert_eq!(s, "FREE"),
        Ok(l) => panic!("unexpected {:?}", l),
    }
    assert_eq!(Lock::from_token(b"RESERVED_BY_OTHER"), Some(Lock::ReservedByOther));
    assert_eq!(Lock::from_token(b""), None);
}

#[test]
fn token_error_converts_to_parse_error() {
    let e: Error = TokenError::InvalidInput("x".to_string()).into();
    assert_eq!(e, Error::ProtocolParse);
}

#[test]
fn decimal_numbers() {
    assert_eq!(parse_decimal_u8(b"x42y", 1, 3), Some(42));
    assert_eq!(parse_decimal_u8(b"255", 0, 3), Some(255));
    assert_eq!(parse_decimal_u8(b"256", 0, 3), None);
    assert_eq!(parse_decimal_u8(b"0000000000000000012", 0, 19), Some(12));
    assert_eq!(parse_decimal_u8(b"+", 0, 1), None);
    assert_eq!(parse_decimal_u8(b"-1", 0, 2), None);
    assert_eq!(parse_decimal_u8(b"", 0, 0), None);
    let mut out = b"n=".to_vec();
    push_decimal(&mut out, 9);
    push_decimal(&mut out, 200);
    assert_eq!(out, b"n=9200".to_vec());
    assert_eq!(find_byte(b"ab/cd/", b'/', 0), 2);
    assert_eq!(find_byte(b"ab/cd/", b'/', 3), 5);
    assert_eq!(find_byte(b"abc", b'/', 0), 3);
}
