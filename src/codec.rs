//! The wire protocol: the bytes of each request, and the decoding of the
//! lines that describe a port.
use vstd::prelude::*;

use vstd::string::StringSliceAdditionalSpecFns;

use crate::error::Error;
use crate::interface::{lock_of_token, token, Lock, State};
use vstd::utf8::valid_utf8;

use crate::text::{
    after_last_byte, ascii, ascii_bytes, bytes_eq, decimal, decimal_u8, find_byte, find_from, find_last,
    is_digit, is_utf8, lemma_ascii_valid_utf8, lemma_decimal, lemma_decimal_u8_round_trip, lemma_find_from_bounds, lemma_find_from_is,
    lemma_find_last_bounds, lemma_find_last_is, parse_decimal_u8, push_decimal, SLASH, SPACE,
};

verus! {

/// The first space-separated token of a line.
pub open spec fn first_token(line: Seq<u8>) -> Seq<u8> {
    line.subrange(0, find_from(line, SPACE, 0))
}

/// The module field: the first token up to its first `/`.
pub open spec fn module_field(line: Seq<u8>) -> Seq<u8> {
    let head = first_token(line);
    head.subrange(0, find_from(head, SLASH, 0))
}

/// The port field: the first token after its first `/`, up to the next
/// `/` or the token's end.
pub open spec fn port_field(line: Seq<u8>) -> Seq<u8> {
    let head = first_token(line);
    let slash = find_from(head, SLASH, 0);
    head.subrange(slash + 1, find_from(head, SLASH, slash + 1))
}

/// The state field: the last space-separated token.
pub open spec fn state_field(line: Seq<u8>) -> Seq<u8> {
    line.subrange(find_last(line, SPACE) + 1, line.len() as int)
}

/// What a port line says: `<module>/<port>[ tokens] <STATE>`. A line that
/// is not well-formed UTF-8 text, a line with no space, no `/` in its first token, a module or port field that is no
/// 8-bit decimal number, or an unknown state token says nothing.
pub open spec fn line_fields(line: Seq<u8>) -> Option<(u8, u8, Lock)> {
    if !valid_utf8(line) || find_from(line, SPACE, 0) == line.len() || find_from(
        first_token(line),
        SLASH,
        0,
    ) == first_token(line).len() {
        None
    } else {
        match (
            decimal_u8(module_field(line)),
            decimal_u8(port_field(line)),
            lock_of_token(state_field(line)),
        ) {
            (Some(m), Some(p), Some(l)) => Some((m, p, l)),
            _ => None,
        }
    }
}

/// Decodes one port line (without its newline).
pub fn decode_line(line: &[u8]) -> (r: Result<(u8, u8, State), Error>)
    ensures
        match r {
            Ok((m, p, s)) => line_fields(line@) == Some((m, p, s.lock)),
            Err(e) => line_fields(line@).is_none() && e == Error::ProtocolParse,
        },
{
    if !is_utf8(line) {
        return Err(Error::ProtocolParse);
    }
    proof {
        lemma_find_from_bounds(line@, SPACE, 0);
        lemma_find_last_bounds(line@, SPACE);
    }
    let head_end = find_byte(line, SPACE, 0);
    if head_end == line.len() {
        return Err(Error::ProtocolParse);
    }
    let head = &line[0..head_end];
    assert(head@ == line@.subrange(0, head_end as int));
    proof {
        lemma_find_from_bounds(head@, SLASH, 0);
    }
    let slash = find_byte(head, SLASH, 0);
    if slash == head.len() {
        return Err(Error::ProtocolParse);
    }
    proof {
        lemma_find_from_bounds(head@, SLASH, slash + 1);
    }
    let port_end = find_byte(head, SLASH, slash + 1);
    let state_start = after_last_byte(line, SPACE);
    let module = parse_decimal_u8(head, 0, slash);
    let port = parse_decimal_u8(head, slash + 1, port_end);
    let lock = Lock::from_token(&line[state_start..line.len()]);
    match (module, port, lock) {
        (Some(m), Some(p), Some(l)) => Ok((m, p, State { lock: l })),
        _ => Err(Error::ProtocolParse),
    }
}

/// Decodes one port line of text (without its newline); the line is read as
/// its UTF-8 bytes.
pub fn parse_interface_from_line(line: &str) -> (r: Result<(u8, u8, State), Error>)
    ensures
        match r {
            Ok((m, p, s)) => line_fields(line.spec_bytes()) == Some((m, p, s.lock)),
            Err(e) => line_fields(line.spec_bytes()).is_none() && e == Error::ProtocolParse,
        },
{
    decode_line(line.as_bytes())
}

/// The login line.
pub open spec fn logon_request() -> Seq<u8> {
    ascii("C_LOGON \"xena\"\n"@)
}

/// The line that claims ownership of the session.
pub open spec fn owner_request() -> Seq<u8> {
    ascii("C_OWNER \"overseer\"\n"@)
}

/// The query for the reservation state of every port, followed by the
/// request for a `<SYNC>` marker after the answer.
pub open spec fn query_request() -> Seq<u8> {
    ascii("*/* P_RESERVATION ?\nSYNC\n"@)
}

/// The line that ends the session.
pub open spec fn logoff_request() -> Seq<u8> {
    ascii("C_LOGOFF\n"@)
}

/// The only line that acknowledges a request.
pub open spec fn ok_line() -> Seq<u8> {
    ascii("<OK>"@)
}

/// The line that ends the answer to a query.
pub open spec fn sync_line() -> Seq<u8> {
    ascii("<SYNC>"@)
}

/// The verb that changes a port whose lock is believed to be `current`:
/// a released port is reserved, one reserved by us is released, and one
/// reserved by someone else is taken over.
pub open spec fn verb_text(current: Lock) -> Seq<char> {
    match current {
        Lock::Released => "RESERVE"@,
        Lock::ReservedByYou => "RELEASE"@,
        Lock::ReservedByOther => "RELINQUISH"@,
    }
}

/// The line `<module>/<port> P_RESERVATION <VERB>` for a port whose lock is
/// believed to be `current`.
pub open spec fn mutation_request(current: Lock, module: u8, port: u8) -> Seq<u8> {
    decimal(module as nat) + ascii("/"@) + decimal(port as nat) + ascii(" P_RESERVATION "@)
        + ascii(verb_text(current)) + ascii("\n"@)
}

/// Appends the bytes of an ASCII literal to `out`.
fn push_ascii(out: &mut Vec<u8>, s: &str)
    requires
        s.is_ascii(),
    ensures
        final(out)@ == old(out)@ + ascii(s@),
{
    let b = ascii_bytes(s);
    let ghost start = out@;
    let mut i: usize = 0;
    while i < b.len()
        invariant
            i <= b@.len(),
            b@ == ascii(s@),
            out@ == start + b@.subrange(0, i as int),
        decreases b@.len() - i,
    {
        out.push(b[i]);
        i = i + 1;
        assert(out@ =~= start + b@.subrange(0, i as int));
    }
    assert(b@.subrange(0, i as int) =~= b@);
}

/// The login line.
pub fn encode_logon() -> (r: Vec<u8>)
    ensures
        r@ == logon_request(),
{
    let mut r = Vec::new();
    proof {
        reveal_strlit("C_LOGON \"xena\"\n");
    }
    push_ascii(&mut r, "C_LOGON \"xena\"\n");
    assert(r@ =~= logon_request());
    r
}

/// The ownership claim.
pub fn encode_owner() -> (r: Vec<u8>)
    ensures
        r@ == owner_request(),
{
    let mut r = Vec::new();
    proof {
        reveal_strlit("C_OWNER \"overseer\"\n");
    }
    push_ascii(&mut r, "C_OWNER \"overseer\"\n");
    assert(r@ =~= owner_request());
    r
}

/// The query for every port's reservation state.
pub fn encode_query() -> (r: Vec<u8>)
    ensures
        r@ == query_request(),
{
    let mut r = Vec::new();
    proof {
        reveal_strlit("*/* P_RESERVATION ?\nSYNC\n");
    }
    push_ascii(&mut r, "*/* P_RESERVATION ?\nSYNC\n");
    assert(r@ =~= query_request());
    r
}

/// The logoff line.
pub fn encode_logoff() -> (r: Vec<u8>)
    ensures
        r@ == logoff_request(),
{
    let mut r = Vec::new();
    proof {
        reveal_strlit("C_LOGOFF\n");
    }
    push_ascii(&mut r, "C_LOGOFF\n");
    assert(r@ =~= logoff_request());
    r
}

/// The line that changes the reservation of `module`/`port`, chosen by the
/// caller's last known lock state `current`.
pub fn encode_mutation(current: Lock, module: u8, port: u8) -> (r: Vec<u8>)
    ensures
        r@ == mutation_request(current, module, port),
{
    let mut r = Vec::new();
    push_decimal(&mut r, module);
    proof {
        reveal_strlit("/");
        reveal_strlit(" P_RESERVATION ");
        reveal_strlit("RESERVE");
        reveal_strlit("RELEASE");
        reveal_strlit("RELINQUISH");
        reveal_strlit("\n");
    }
    push_ascii(&mut r, "/");
    push_decimal(&mut r, port);
    push_ascii(&mut r, " P_RESERVATION ");
    match current {
        Lock::Released => push_ascii(&mut r, "RESERVE"),
        Lock::ReservedByYou => push_ascii(&mut r, "RELEASE"),
        Lock::ReservedByOther => push_ascii(&mut r, "RELINQUISH"),
    }
    push_ascii(&mut r, "\n");
    r
}

/// Whether `line` is the acknowledgement `<OK>`.
pub fn is_ok_line(line: &[u8]) -> (r: bool)
    ensures
        r == (line@ == ok_line()),
{
    proof {
        reveal_strlit("<OK>");
    }
    bytes_eq(line, ascii_bytes("<OK>"))
}

/// Whether `line` is the end-of-answer marker `<SYNC>`.
pub fn is_sync_line(line: &[u8]) -> (r: bool)
    ensures
        r == (line@ == sync_line()),
{
    proof {
        reveal_strlit("<SYNC>");
    }
    bytes_eq(line, ascii_bytes("<SYNC>"))
}

/// A state token is nonempty, holds no space, and names its own state.
proof fn lemma_token_shape(l: Lock)
    ensures
        token(l).len() > 0,
        forall|j: int| 0 <= j < token(l).len() ==> #[trigger] token(l)[j] != SPACE,
        forall|j: int| 0 <= j < token(l).len() ==> #[trigger] token(l)[j] < 128,
        lock_of_token(token(l)) == Some(l),
{
    reveal_strlit("RELEASED");
    reveal_strlit("RESERVED_BY_YOU");
    reveal_strlit("RESERVED_BY_OTHER");
    assert(token(Lock::Released).len() == 8);
    assert(token(Lock::ReservedByYou).len() == 15);
    assert(token(Lock::ReservedByOther).len() == 17);
}

/// A well-formed port line decodes to its module, port and state: the line
/// `<module>/<port>`, then any further space-separated tokens of UTF-8 text,
/// then a space and the state token.
pub proof fn lemma_well_formed_line(module: u8, port: u8, middle: Seq<u8>, lock: Lock)
    requires
        middle.len() == 0 || middle[0] == SPACE,
        valid_utf8(middle),
    ensures
        line_fields(
            decimal(module as nat) + seq![SLASH] + decimal(port as nat) + middle + seq![SPACE]
                + token(lock),
        ) == Some((module, port, lock)),
{
    let dm = decimal(module as nat);
    let dp = decimal(port as nat);
    let t = token(lock);
    let line = dm + seq![SLASH] + dp + middle + seq![SPACE] + t;
    lemma_decimal(module as nat);
    lemma_decimal(port as nat);
    lemma_decimal_u8_round_trip(module);
    lemma_decimal_u8_round_trip(port);
    lemma_token_shape(lock);
    let k = dm.len() + 1 + dp.len() as int;
    let head = dm + seq![SLASH] + dp;
    assert forall|j: int| 0 <= j < head.len() implies #[trigger] head[j] < 128 by {
        if j < dm.len() {
            assert(is_digit(dm[j]));
        } else if j > dm.len() {
            assert(is_digit(dp[j - dm.len() - 1]));
        }
    }
    let tail = seq![SPACE] + t;
    assert forall|j: int| 0 <= j < tail.len() implies #[trigger] tail[j] < 128 by {
        if j > 0 {
            assert(tail[j] == t[j - 1]);
        }
    }
    lemma_ascii_valid_utf8(head);
    lemma_ascii_valid_utf8(tail);
    vstd::utf8::valid_utf8_concat(head, middle);
    vstd::utf8::valid_utf8_concat(head + middle, tail);
    assert(line =~= head + middle + tail);
    assert forall|j: int| 0 <= j < k implies line[j] != SPACE && line[j] == head[j] by {
        if j < dm.len() {
            assert(is_digit(dm[j]));
        } else if j > dm.len() {
            assert(is_digit(dp[j - dm.len() - 1]));
        }
    }
    assert(line[k] == SPACE);
    lemma_find_from_is(line, SPACE, 0, k as int);
    assert(first_token(line) =~= head);
    assert forall|j: int| 0 <= j < head.len() && j != dm.len() implies head[j] != SLASH by {
        if j < dm.len() {
            assert(is_digit(dm[j]));
        } else {
            assert(is_digit(dp[j - dm.len() - 1]));
        }
    }
    lemma_find_from_is(head, SLASH, 0, dm.len() as int);
    lemma_find_from_is(head, SLASH, dm.len() + 1int, head.len() as int);
    assert(module_field(line) =~= dm);
    assert(port_field(line) =~= dp);
    let last: int = line.len() - t.len() - 1;
    assert forall|j: int| last < j < line.len() implies line[j] != SPACE by {
        assert(line[j] == t[j - last - 1]);
    }
    lemma_find_last_is(line, SPACE, last);
    assert(state_field(line) =~= t);
}

/// A line that is not UTF-8 text, has no `/`, has a module or port field
/// that is no 8-bit decimal number, or has an unknown state token says
/// nothing, so decoding it fails with a parse error.
pub proof fn lemma_malformed_line(line: Seq<u8>)
    requires
        !valid_utf8(line) || !line.contains(SLASH) || decimal_u8(module_field(line)) is None || decimal_u8(
            port_field(line),
        ) is None || lock_of_token(state_field(line)) is None,
    ensures
        line_fields(line) is None,
{
    lemma_find_from_bounds(line, SPACE, 0);
    let head = first_token(line);
    lemma_find_from_bounds(head, SLASH, 0);
    let slash = find_from(head, SLASH, 0);
    if slash < head.len() {
        assert(line[slash] == head[slash]);
    }
}

} // verus!
