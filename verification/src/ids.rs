//! Identifiers: random tokens in hexadecimal, and channel and session UUIDs as 128-bit numbers.
use vstd::arithmetic::power::pow;
use vstd::prelude::*;

verus! {

/// The lower-case hexadecimal digit of a number below sixteen.
pub open spec fn hex_digit(d: int) -> char {
    if d < 10 {
        (48 + d) as char
    } else {
        (87 + d) as char
    }
}

/// Two lower-case hexadecimal digits for each byte, the high half first.
pub open spec fn hex_text(bytes: Seq<u8>) -> Seq<char> {
    Seq::new(
        2 * bytes.len(),
        |i: int|
            if i % 2 == 0 {
                hex_digit(bytes[i / 2] as int / 16)
            } else {
                hex_digit(bytes[i / 2] as int % 16)
            },
    )
}

/// `hex::encode` writes each byte as two lower-case hexadecimal digits.
#[verifier::external_body]
fn hex_encode(bytes: &[u8]) -> (res: String)
    ensures
        res@ == hex_text(bytes@),
{
    hex::encode(bytes)
}

/// `rand::random` gives sixteen random bytes; any of their values may come.
#[verifier::external_body]
fn random_bytes() -> (res: [u8; 16]) {
    rand::random::<[u8; 16]>()
}

/// The token that stands for sixteen bytes.
pub fn token_of(bytes: &[u8; 16]) -> (res: String)
    ensures
        res@ == hex_text(bytes@),
        res@.len() == 32,
{
    hex_encode(bytes.as_slice())
}

/// A fresh random token: the hexadecimal form of some sixteen bytes.
pub fn new_token() -> (res: String)
    ensures
        exists|bytes: [u8; 16]| res@ == #[trigger] hex_text(bytes@),
        res@.len() == 32,
{
    let bytes = random_bytes();
    token_of(&bytes)
}

/// Two byte strings with the same hexadecimal form are the same.
pub proof fn hex_text_injective(a: Seq<u8>, b: Seq<u8>)
    requires
        hex_text(a) == hex_text(b),
    ensures
        a == b,
{
    assert(hex_text(a).len() == 2 * a.len() && hex_text(b).len() == 2 * b.len());
    assert forall|i: int| 0 <= i < a.len() implies a[i] == b[i] by {
        lemma_hex_text_at(a, i);
        lemma_hex_text_at(b, i);
        lemma_hex_digit(a[i] as int / 16, b[i] as int / 16);
        lemma_hex_digit(a[i] as int % 16, b[i] as int % 16);
    }
    assert(a =~= b);
}

proof fn lemma_hex_text_at(a: Seq<u8>, i: int)
    requires
        0 <= i < a.len(),
    ensures
        hex_text(a)[2 * i] == hex_digit(a[i] as int / 16),
        hex_text(a)[2 * i + 1] == hex_digit(a[i] as int % 16),
{
    let j: int = 2 * i;
    let k: int = 2 * i + 1;
    assert(j / 2 == i && j % 2 == 0 && k / 2 == i && k % 2 == 1);
    assert(0 <= j < k < hex_text(a).len());
    assert(hex_text(a)[j] == hex_digit(a[j / 2] as int / 16));
    assert(hex_text(a)[k] == hex_digit(a[k / 2] as int % 16));
}

proof fn lemma_hex_digit(x: int, y: int)
    requires
        0 <= x < 16,
        0 <= y < 16,
        hex_digit(x) == hex_digit(y),
    ensures
        x == y,
{
    assert(hex_digit(x) as int == if x < 10 {
        48 + x
    } else {
        87 + x
    });
    assert(hex_digit(y) as int == if y < 10 {
        48 + y
    } else {
        87 + y
    });
}

/// The hexadecimal digit number `i`, counted from the left, of a 128-bit number.
pub open spec fn uuid_digit(id: u128, i: int) -> char {
    hex_digit((id as int / pow(16, (31 - i) as nat)) % 16)
}

/// The hyphenated form of a UUID: groups of 8, 4, 4, 4 and 12 lower-case hexadecimal digits.
pub open spec fn uuid_text(id: u128) -> Seq<char> {
    Seq::new(
        36,
        |i: int|
            if i == 8 || i == 13 || i == 18 || i == 23 {
                '-'
            } else if i < 8 {
                uuid_digit(id, i)
            } else if i < 13 {
                uuid_digit(id, i - 1)
            } else if i < 18 {
                uuid_digit(id, i - 2)
            } else if i < 23 {
                uuid_digit(id, i - 3)
            } else {
                uuid_digit(id, i - 4)
            },
    )
}

/// The UUID that a text stands for, as `uuid::Uuid::parse_str` reads it.
pub uninterp spec fn uuid_named(s: Seq<char>) -> Option<u128>;

/// Whether a UUID has the version and the variant of those that are drawn at random.
pub open spec fn is_random_uuid(id: u128) -> bool {
    (id >> 76u128) & 0xfu128 == 4u128 && (id >> 62u128) & 0x3u128 == 2u128
}

/// `uuid::Uuid::new_v4` draws a random UUID; its version is 4 and its variant the RFC one.
#[verifier::external_body]
pub(crate) fn new_uuid() -> (res: u128)
    ensures
        is_random_uuid(res),
{
    uuid::Uuid::new_v4().as_u128()
}

/// `uuid::Uuid::parse_str` reads a UUID in simple, hyphenated, braced or URN form; what it
/// accepts and gives is a function of the text alone.
#[verifier::external_body]
fn uuid_parse(s: &str) -> (res: Option<u128>)
    ensures
        res == uuid_named(s@),
{
    uuid::Uuid::parse_str(s).ok().map(|u| u.as_u128())
}

/// `uuid::Uuid` prints in hyphenated lower-case form, and `uuid::Uuid::parse_str` reads that form
/// back.
#[verifier::external_body]
fn uuid_print(id: u128) -> (res: String)
    ensures
        res@ == uuid_text(id),
        uuid_named(res@) == Some(id),
{
    uuid::Uuid::from_u128(id).to_string()
}

/// The UUID a text stands for.
pub fn parse_uuid(s: &str) -> (res: Option<u128>)
    ensures
        res == uuid_named(s@),
{
    uuid_parse(s)
}

/// The text of a UUID, which reads back as the same UUID.
pub fn format_uuid(id: u128) -> (res: String)
    ensures
        res@ == uuid_text(id),
        uuid_named(res@) == Some(id),
{
    uuid_print(id)
}

/// A token has two digits for each byte, the higher one first, from `0` to `9` and `a` to `f`.
pub proof fn tokens_byte_by_byte(bytes: Seq<u8>, i: int)
    requires
        0 <= i < bytes.len(),
    ensures
        hex_text(bytes).len() == 2 * bytes.len(),
        ({
            let (hi, lo) = (bytes[i] as int / 16, bytes[i] as int % 16);
            &&& hi < 10 ==> hex_text(bytes)[2 * i] as int == '0' as int + hi
            &&& hi >= 10 ==> hex_text(bytes)[2 * i] as int == 'a' as int + hi - 10
            &&& lo < 10 ==> hex_text(bytes)[2 * i + 1] as int == '0' as int + lo
            &&& lo >= 10 ==> hex_text(bytes)[2 * i + 1] as int == 'a' as int + lo - 10
        }),
{
    let (hi, lo) = (bytes[i] as int / 16, bytes[i] as int % 16);
    assert(hex_text(bytes)[2 * i] == hex_digit(hi));
    assert(hex_text(bytes)[2 * i + 1] == hex_digit(lo));
}

/// The text of a UUID has its digits from the highest to the lowest, with a hyphen behind the eighth,
/// the twelfth, the sixteenth and the twentieth.
pub proof fn uuids_digit_by_digit(id: u128, i: int)
    requires
        0 <= i < 32,
    ensures
        uuid_text(id).len() == 36,
        uuid_text(id)[8] == '-',
        uuid_text(id)[13] == '-',
        uuid_text(id)[18] == '-',
        uuid_text(id)[23] == '-',
        ({
            let hyphens: int = if i < 8 {
                0
            } else if i < 12 {
                1
            } else if i < 16 {
                2
            } else if i < 20 {
                3
            } else {
                4
            };
            let d = (id as int / pow(16, (31 - i) as nat)) % 16;
            uuid_text(id)[i + hyphens] as int == (if d < 10 {
                '0' as int + d
            } else {
                'a' as int + d - 10
            })
        }),
{
}

/// A random UUID has the number 4 in its thirteenth digit and the bits of its variant in the
/// seventeenth.
pub proof fn random_uuids_are_marked(id: u128)
    ensures
        is_random_uuid(id) <==> id / 0x1000_0000_0000_0000_0000 % 16 == 4 && id
            / 0x4000_0000_0000_0000 % 4 == 2,
{
    assert((id >> 76u128) & 0xfu128 == id / 0x1000_0000_0000_0000_0000 % 16 && (id >> 62u128)
        & 0x3u128 == id / 0x4000_0000_0000_0000 % 4) by (bit_vector);
}

} // verus!
