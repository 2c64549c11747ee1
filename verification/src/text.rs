use vstd::prelude::*;
use vstd::utf8::{encode_utf8, encode_utf8_decode_utf8};

verus! {

/// The Unicode `White_Space` property, which `char::is_whitespace` and
/// `str::trim` use.
pub open spec fn is_white_space(c: char) -> bool {
    let u = c as u32;
    (0x9u32 <= u && u <= 0xdu32) || u == 0x20u32 || u == 0x85u32 || u == 0xa0u32
        || u == 0x1680u32 || (0x2000u32 <= u && u <= 0x200au32) || u == 0x2028u32
        || u == 0x2029u32 || u == 0x202fu32 || u == 0x205fu32 || u == 0x3000u32
}

/// `s` without its leading white space.
pub open spec fn trim_start(s: Seq<char>) -> Seq<char>
    decreases s.len(),
{
    if s.len() > 0 && is_white_space(s[0]) {
        trim_start(s.drop_first())
    } else {
        s
    }
}

/// `s` without its trailing white space.
pub open spec fn trim_end(s: Seq<char>) -> Seq<char>
    decreases s.len(),
{
    if s.len() > 0 && is_white_space(s.last()) {
        trim_end(s.drop_last())
    } else {
        s
    }
}

/// `s` without leading and trailing white space.
pub open spec fn trim(s: Seq<char>) -> Seq<char> {
    trim_end(trim_start(s))
}

/// The lowercase mapping of `str::to_lowercase` (Unicode `Lowercase_Mapping`,
/// independent of locale).
pub uninterp spec fn lowercase(s: Seq<char>) -> Seq<char>;

/// Calls `str::trim`: the slice without leading and trailing `White_Space`.
#[verifier::external_body]
pub(crate) fn trim_str(s: &str) -> (r: &str)
    ensures
        r@ == trim(s@),
{
    s.trim()
}

/// Calls `str::to_lowercase`; its result is named by `lowercase`.
#[verifier::external_body]
pub(crate) fn to_lowercase(s: &str) -> (r: String)
    ensures
        r@ == lowercase(s@),
{
    s.to_lowercase()
}

/// Whether a 128-bit UUID value is a random (version 4) UUID of the RFC 4122
/// variant: version nibble (bits 76..80) is 4 and variant bits (62..64) are `10`.
pub open spec fn is_v4_uuid(v: u128) -> bool {
    v & 0xF000C000000000000000u128 == 0x40008000000000000000u128
}

/// Every value of `ids` is a random (version 4) UUID.
pub open spec fn all_v4(ids: Seq<u128>) -> bool {
    forall|k: int| 0 <= k < ids.len() ==> is_v4_uuid(#[trigger] ids[k])
}

/// Calls `uuid::Uuid::new_v4` and returns the UUID's 128-bit value. The crate
/// masks random bits into version 4 of the RFC 4122 variant, so the value has
/// those version and variant bits; the other bits are random and nothing is
/// stated of them.
#[verifier::external_body]
pub(crate) fn new_uuid() -> (r: u128)
    ensures
        is_v4_uuid(r),
{
    uuid::Uuid::new_v4().as_u128()
}

/// Calls `chrono::Utc::now` and returns microseconds since the Unix epoch.
/// The value depends on the clock: nothing is stated of it.
#[verifier::external_body]
pub(crate) fn now_micros() -> i64 {
    chrono::Utc::now().timestamp_micros()
}

/// The decimal digit character for `d` (0 to 9).
pub open spec fn digit_char(d: nat) -> char {
    ((48 + d) as u32) as char
}

/// Decimal text of a natural number, without sign or leading zeros.
pub open spec fn decimal(n: nat) -> Seq<char>
    decreases n,
{
    if n < 10 {
        seq![digit_char(n)]
    } else {
        decimal(n / 10).push(digit_char(n % 10))
    }
}

fn digit_str(d: u64) -> (r: &'static str)
    requires
        d < 10,
    ensures
        r@ == seq![digit_char(d as nat)],
{
    proof {
        reveal_strlit("0");
        reveal_strlit("1");
        reveal_strlit("2");
        reveal_strlit("3");
        reveal_strlit("4");
        reveal_strlit("5");
        reveal_strlit("6");
        reveal_strlit("7");
        reveal_strlit("8");
        reveal_strlit("9");
    }
    let r = match d {
        0 => "0",
        1 => "1",
        2 => "2",
        3 => "3",
        4 => "4",
        5 => "5",
        6 => "6",
        7 => "7",
        8 => "8",
        _ => "9",
    };
    assert(r@ =~= seq![digit_char(d as nat)]);
    r
}

/// Decimal text of `n`, as `format!("{}", n)` writes it.
pub fn decimal_string(n: u64) -> (r: String)
    ensures
        r@ == decimal(n as nat),
    decreases n,
{
    if n < 10 {
        digit_str(n).to_owned()
    } else {
        let mut s = decimal_string(n / 10);
        s.append(digit_str(n % 10));
        s
    }
}

/// Whether two strings hold the same characters (compared byte by byte).
pub fn str_eq(a: &str, b: &str) -> (r: bool)
    ensures
        r == (a@ == b@),
{
    let ab = a.as_bytes();
    let bb = b.as_bytes();
    proof {
        encode_utf8_decode_utf8(a@);
        encode_utf8_decode_utf8(b@);
    }
    if ab.len() != bb.len() {
        return false;
    }
    let mut i: usize = 0;
    while i < ab.len()
        invariant
            ab@.len() == bb@.len(),
            ab@ == encode_utf8(a@),
            bb@ == encode_utf8(b@),
            0 <= i <= ab@.len(),
            forall|j: int| 0 <= j < i ==> ab@[j] == bb@[j],
        decreases ab@.len() - i,
    {
        if ab[i] != bb[i] {
            return false;
        }
        i += 1;
    }
    assert(ab@ =~= bb@);
    true
}

/// `str::starts_with` with a string pattern: the UTF-8 bytes of `p` begin
/// the UTF-8 bytes of `s`.
pub open spec fn starts_with(s: Seq<char>, p: Seq<char>) -> bool {
    encode_utf8(p).len() <= encode_utf8(s).len()
        && encode_utf8(s).take(encode_utf8(p).len() as int) == encode_utf8(p)
}

/// Whether `s` begins with `p`, compared byte by byte.
pub fn str_starts_with(s: &str, p: &str) -> (r: bool)
    ensures
        r == starts_with(s@, p@),
{
    let sb = s.as_bytes();
    let pb = p.as_bytes();
    if pb.len() > sb.len() {
        return false;
    }
    let mut i: usize = 0;
    while i < pb.len()
        invariant
            pb@.len() <= sb@.len(),
            sb@ == encode_utf8(s@),
            pb@ == encode_utf8(p@),
            0 <= i <= pb@.len(),
            forall|j: int| 0 <= j < i ==> sb@[j] == pb@[j],
        decreases pb@.len() - i,
    {
        if sb[i] != pb[i] {
            assert(sb@.take(pb@.len() as int)[i as int] != pb@[i as int]);
            return false;
        }
        i += 1;
    }
    assert(sb@.take(pb@.len() as int) =~= pb@);
    true
}

/// The lowercase hexadecimal digit for `d` (0 to 15).
pub open spec fn hex_digit(d: nat) -> char {
    if d < 10 {
        ((48 + d) as u32) as char
    } else {
        ((87 + d) as u32) as char
    }
}

/// The `len` lowest hexadecimal digits of `v`, most significant first.
pub open spec fn hex_digits(v: nat, len: nat) -> Seq<char>
    decreases len,
{
    if len == 0 {
        seq![]
    } else {
        hex_digits(v / 16, (len - 1) as nat).push(hex_digit(v % 16))
    }
}

/// Hyphenated lowercase text of a UUID given by its 128-bit value:
/// 8-4-4-4-12 hexadecimal digits, most significant first.
pub open spec fn uuid_text(id: u128) -> Seq<char> {
    let h = hex_digits(id as nat, 32);
    h.subrange(0, 8) + seq!['-'] + h.subrange(8, 12) + seq!['-'] + h.subrange(12, 16) + seq!['-']
        + h.subrange(16, 20) + seq!['-'] + h.subrange(20, 32)
}

/// Calls `uuid::Uuid::from_u128` and formats the UUID with `Display`, which
/// writes the hyphenated lowercase form of the big-endian bytes.
#[verifier::external_body]
pub(crate) fn uuid_string(id: u128) -> (r: String)
    ensures
        r@ == uuid_text(id),
{
    uuid::Uuid::from_u128(id).to_string()
}

/// An optional string with its text as a character sequence.
pub open spec fn opt_view(o: Option<String>) -> Option<Seq<char>> {
    match o {
        Some(s) => Some(s@),
        None => None,
    }
}

/// The shape of an RFC 3339 time in UTC as chrono writes it: at least 25
/// characters (`YYYY-MM-DDTHH:MM:SS` and the offset), ending in the zero
/// offset `+00:00`.
pub open spec fn is_utc_rfc3339(s: Seq<char>) -> bool {
    s.len() >= 25 && s.subrange(s.len() - 6, s.len() as int) == "+00:00"@
}

/// Calls `chrono::Utc::now` and formats it with `to_rfc3339`. chrono writes
/// the date and time with zero-padded fields, seconds' fractions only when
/// they are not zero, and the offset as `+HH:MM`, which for UTC is
/// `+00:00`; the time shown depends on the clock and is not stated.
#[verifier::external_body]
pub(crate) fn now_rfc3339() -> (r: String)
    ensures
        is_utc_rfc3339(r@),
{
    chrono::Utc::now().to_rfc3339()
}

} // verus!
