use overseer::interface::{Interfaces, Lock, State};
use overseer::reply::{AckReader, ListingReader};

fn ports(d: &Interfaces, module: u8) -> Vec<(u8, Lock)> {
    d.modules[&module].iter().map(|(p, s)| (*p, s.lock)).collect()
}

#[test]
fn listing_builds_directory() {
    let mut r = ListingReader::new();
    r.feed(b"1/2 x RESERVED_BY_YOU\n1/3 x RELEASED\n<SYNC>\n");
    assert!(r.is_complete());
    let d = r.into_directory();
    assert_eq!(d.module_count(), 1);
    assert_eq!(ports(&d, 1), vec![(2, Lock::ReservedByYou), (3, Lock::Released)]);
}

#[test]
fn listing_reassembles_split_lines() {
    let mut r = ListingReader::new();
    r.feed(b"1/2 x RESER");
    assert!(!r.is_complete());
    assert!(!r.is_malformed());
    r.feed(b"VED_BY_YOU\n<SYNC>\n");
    assert!(r.is_complete());
    let d = r.into_directory();
    assert_eq!(d.module_count(), 1);
    assert_eq!(ports(&d, 1), vec![(2, Lock::ReservedByYou)]);
}

#[test]
fn listing_byte_by_byte() {
    let mut r = ListingReader::new();
    for b in b"\n2/9 y RESERVED_BY_OTHER\n\n7/1 RELEASED\n<SYNC>\nleftover".iter() {
        r.feed(&[*b]);
    }
    assert!(r.is_complete());
    let d = r.into_directory();
    assert_eq!(d.get(2, 9), Some(State { lock: Lock::ReservedByOther }));
    assert_eq!(d.get(7, 1), Some(State { lock: Lock::Released }));
    assert_eq!(d.get(7, 2), None);
    assert_eq!(d.port_count(2), 1);
    assert_eq!(d.port_count(3), 0);
}

#[test]
fn listing_keeps_last_state_of_a_port() {
    let mut r = ListingReader::new();
    r.feed(b"1/2 x RELEASED\n1/2 x RESERVED_BY_YOU\n<SYNC>\n");
    let d = r.into_directory();
    assert_eq!(ports(&d, 1), vec![(2, Lock::ReservedByYou)]);
}

#[test]
fn listing_waits_for_newline_before_sync() {
    let mut r = ListingReader::new();
    r.feed(b"1/2 x RELEASED\n<SYNC>");
    assert!(!r.is_complete());
    r.feed(b"\n");
    assert!(r.is_complete());
}

#[test]
fn listing_empty_answer() {
    let mut r = ListingReader::new();
    r.feed(b"<SYNC>\n");
    assert!(r.is_complete());
    assert_eq!(r.into_directory().module_count(), 0);
}

#[test]
fn listing_fails_on_malformed_line() {
    let mut r = ListingReader::new();
    r.feed(b"1/2 x RELEASED\nbad line\n1/3 x RELEASED\n");
    assert!(!r.is_malformed());
    assert!(!r.is_complete());
    r.feed(b"<SY");
    assert!(!r.is_malformed());
    r.feed(b"NC>\n1/4 x RELEASED\n");
    assert!(r.is_malformed());
    assert!(!r.is_complete());
}

#[test]
fn listing_fails_on_invalid_utf8_line() {
    let mut r = ListingReader::new();
    r.feed(b"1/2 \xff RELEASED\n<SYNC>\n");
    assert!(r.is_malformed());
    assert!(!r.is_complete());
}

#[test]
fn listing_joins_character_split_across_reads() {
    let mut r = ListingReader::new();
    r.feed(b"1/2 caf\xc3");
    r.feed(b"\xa9 RESERVED_BY_OTHER\n<SYNC>\n");
    assert!(r.is_complete());
    let d = r.into_directory();
    assert_eq!(d.get(1, 2), Some(State { lock: Lock::ReservedByOther }));
}

#[test]
fn ack_accepts_ok_only() {
    let mut r = AckReader::new();
    r.feed(b"<O");
    assert_eq!(r.verdict(), None);
    r.feed(b"K>\n");
    assert_eq!(r.verdict(), Some(true));

    let mut r = AckReader::new();
    r.feed(b"<ERR>\n");
    assert_eq!(r.verdict(), Some(false));

    let mut r = AckReader::new();
    r.feed(b"\n<OK>\n");
    assert_eq!(r.verdict(), Some(false));
}
