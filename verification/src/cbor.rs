//! JSON values as CBOR.
use vstd::prelude::*;
use vstd::utf8::encode_utf8;

verus! {

/// A JSON value. A number with a fraction is held by the bits of its double precision form.
#[derive(Debug)]
pub enum JsonValue {
    Null,
    Bool(bool),
    Unsigned(u64),
    Signed(i64),
    Float(u64),
    Text(String),
    List(Vec<JsonValue>),
    Record(Vec<(String, JsonValue)>),
}

/// The `n` lowest bytes of a number, highest first.
pub open spec fn big_endian(value: nat, n: nat) -> Seq<u8>
    decreases n,
{
    if n == 0 {
        Seq::empty()
    } else {
        big_endian(value / 256, (n - 1) as nat).push((value % 256) as u8)
    }
}

/// The first byte of an item: its major type and what says how its argument is given.
pub open spec fn initial_byte(major: u8, info: nat) -> u8 {
    (major * 32 + info) as u8
}

/// An item's major type with its argument, in the fewest bytes.
pub open spec fn head(major: u8, value: nat) -> Seq<u8> {
    if value < 24 {
        seq![initial_byte(major, value)]
    } else if value < 0x100 {
        seq![initial_byte(major, 24)] + big_endian(value, 1)
    } else if value < 0x1_0000 {
        seq![initial_byte(major, 25)] + big_endian(value, 2)
    } else if value < 0x1_0000_0000 {
        seq![initial_byte(major, 26)] + big_endian(value, 4)
    } else {
        seq![initial_byte(major, 27)] + big_endian(value, 8)
    }
}

/// A text: its length in bytes, and its bytes.
pub open spec fn cbor_text(text: Seq<char>) -> Seq<u8> {
    head(3, encode_utf8(text).len()) + encode_utf8(text)
}

/// An integer.
pub open spec fn cbor_integer(n: int) -> Seq<u8> {
    if n >= 0 {
        head(0, n as nat)
    } else {
        head(1, (-n - 1) as nat)
    }
}

/// The bytes of a value.
pub open spec fn cbor(v: JsonValue) -> Seq<u8>
    decreases v, 0int,
{
    match v {
        JsonValue::Null => seq![0xf6u8],
        JsonValue::Bool(b) => if b {
            seq![0xf5u8]
        } else {
            seq![0xf4u8]
        },
        JsonValue::Unsigned(n) => cbor_integer(n as int),
        JsonValue::Signed(n) => cbor_integer(n as int),
        JsonValue::Float(bits) => seq![0xfbu8] + big_endian(bits as nat, 8),
        JsonValue::Text(text) => cbor_text(text@),
        JsonValue::List(items) => head(4, items@.len()) + cbor_items(items@, 0),
        JsonValue::Record(fields) => head(5, fields@.len()) + cbor_fields(fields@, 0),
    }
}

/// The bytes of the items of a list from the one at `k` on.
pub open spec fn cbor_items(items: Seq<JsonValue>, k: nat) -> Seq<u8>
    decreases items, items.len() - k,
{
    if k >= items.len() {
        Seq::empty()
    } else {
        cbor(items[k as int]) + cbor_items(items, k + 1)
    }
}

/// The bytes of the fields of a record from the one at `k` on: each name and its value.
pub open spec fn cbor_fields(fields: Seq<(String, JsonValue)>, k: nat) -> Seq<u8>
    decreases fields, fields.len() - k,
{
    if k >= fields.len() {
        Seq::empty()
    } else {
        cbor_text(fields[k as int].0@) + cbor(fields[k as int].1) + cbor_fields(fields, k + 1)
    }
}

fn push_big_endian(out: &mut Vec<u8>, value: u64, n: u32)
    ensures
        final(out)@ == old(out)@ + big_endian(value as nat, n as nat),
    decreases n,
{
    if n > 0 {
        push_big_endian(out, value / 256, n - 1);
        let ghost before = out@;
        out.push((value % 256) as u8);
        assert(out@ =~= old(out)@ + big_endian(value as nat, n as nat));
    } else {
        assert(out@ =~= old(out)@ + big_endian(value as nat, 0));
    }
}

/// Appends a major type with its argument.
pub fn encode_cbor_length(out: &mut Vec<u8>, major: u8, value: u64)
    requires
        major <= 7,
    ensures
        final(out)@ == old(out)@ + head(major, value as nat),
{
    let start: u8 = major * 32;
    if value < 24 {
        out.push(start + value as u8);
    } else if value < 0x100 {
        out.push(start + 24);
        push_big_endian(out, value, 1);
    } else if value < 0x1_0000 {
        out.push(start + 25);
        push_big_endian(out, value, 2);
    } else if value < 0x1_0000_0000 {
        out.push(start + 26);
        push_big_endian(out, value, 4);
    } else {
        out.push(start + 27);
        push_big_endian(out, value, 8);
    }
    assert(out@ =~= old(out)@ + head(major, value as nat));
}

fn encode_cbor_text(out: &mut Vec<u8>, text: &str)
    ensures
        final(out)@ == old(out)@ + cbor_text(text@),
{
    let bytes = text.as_bytes();
    encode_cbor_length(out, 3, bytes.len() as u64);
    out.extend_from_slice(bytes);
    assert(out@ =~= old(out)@ + cbor_text(text@));
}

/// Appends a value.
pub fn encode_cbor_json_value(out: &mut Vec<u8>, value: &JsonValue)
    ensures
        final(out)@ == old(out)@ + cbor(*value),
    decreases value,
{
    match value {
        JsonValue::Null => {
            out.push(0xf6);
        },
        JsonValue::Bool(b) => {
            out.push(
                if *b {
                    0xf5
                } else {
                    0xf4
                },
            );
        },
        JsonValue::Unsigned(n) => {
            encode_cbor_length(out, 0, *n);
        },
        JsonValue::Signed(n) => {
            if *n >= 0 {
                encode_cbor_length(out, 0, *n as u64);
            } else {
                encode_cbor_length(out, 1, (-(*n + 1)) as u64);
            }
        },
        JsonValue::Float(bits) => {
            out.push(0xfb);
            push_big_endian(out, *bits, 8);
        },
        JsonValue::Text(text) => {
            encode_cbor_text(out, text.as_str());
        },
        JsonValue::List(items) => {
            encode_cbor_length(out, 4, items.len() as u64);
            let ghost start = out@;
            let mut i: usize = 0;
            while i < items.len()
                invariant
                    i <= items@.len(),
                    out@ + cbor_items(items@, i as nat) == start + cbor_items(items@, 0),
                    *value == JsonValue::List(*items),
                decreases items@.len() - i,
            {
                let ghost before = out@;
                assert(decreases_to!(value => value->List_0));
                assert(decreases_to!(items => items@));
                assert(decreases_to!(items@ => items@[i as int]));
                encode_cbor_json_value(out, &items[i]);
                assert(out@ + cbor_items(items@, (i + 1) as nat) =~= before + cbor_items(
                    items@,
                    i as nat,
                ));
                i = i + 1;
            }
            assert(out@ + cbor_items(items@, i as nat) =~= out@);
        },
        JsonValue::Record(fields) => {
            encode_cbor_length(out, 5, fields.len() as u64);
            let ghost start = out@;
            let mut i: usize = 0;
            while i < fields.len()
                invariant
                    i <= fields@.len(),
                    out@ + cbor_fields(fields@, i as nat) == start + cbor_fields(fields@, 0),
                    *value == JsonValue::Record(*fields),
                decreases fields@.len() - i,
            {
                let ghost before = out@;
                assert(decreases_to!(value => value->Record_0));
                assert(decreases_to!(fields => fields@));
                assert(decreases_to!(fields@ => fields@[i as int]));
                assert(decreases_to!(fields@[i as int] => fields@[i as int].1));
                encode_cbor_text(out, fields[i].0.as_str());
                encode_cbor_json_value(out, &fields[i].1);
                assert(out@ + cbor_fields(fields@, (i + 1) as nat) =~= before + cbor_fields(
                    fields@,
                    i as nat,
                ));
                i = i + 1;
            }
            assert(out@ + cbor_fields(fields@, i as nat) =~= out@);
        },
    }
    assert(out@ =~= old(out)@ + cbor(*value));
}

// ---------------------------------------------------------------------------------------------
// No two values have the same bytes
// ---------------------------------------------------------------------------------------------

/// Whether two values say the same. Integers are compared by value.
pub open spec fn same(a: JsonValue, b: JsonValue) -> bool
    decreases a, 0int,
{
    match a {
        JsonValue::Null => b is Null,
        JsonValue::Bool(x) => b == JsonValue::Bool(x),
        JsonValue::Unsigned(x) => integer(b) == Some(x as int),
        JsonValue::Signed(x) => integer(b) == Some(x as int),
        JsonValue::Float(x) => b == JsonValue::Float(x),
        JsonValue::Text(x) => match b {
            JsonValue::Text(y) => x@ == y@,
            _ => false,
        },
        JsonValue::List(x) => match b {
            JsonValue::List(y) => x@.len() == y@.len() && same_items(x@, y@, 0),
            _ => false,
        },
        JsonValue::Record(x) => match b {
            JsonValue::Record(y) => x@.len() == y@.len() && same_fields(x@, y@, 0),
            _ => false,
        },
    }
}

/// The integer that a value is.
pub open spec fn integer(v: JsonValue) -> Option<int> {
    match v {
        JsonValue::Unsigned(n) => Some(n as int),
        JsonValue::Signed(n) => Some(n as int),
        _ => None,
    }
}

/// Whether the items of two lists of one length say the same from those at `k` on.
pub open spec fn same_items(a: Seq<JsonValue>, b: Seq<JsonValue>, k: nat) -> bool
    decreases a, a.len() - k,
{
    k < a.len() ==> same(a[k as int], b[k as int]) && same_items(a, b, k + 1)
}

/// Whether the fields of two records of one length say the same from those at `k` on.
pub open spec fn same_fields(
    a: Seq<(String, JsonValue)>,
    b: Seq<(String, JsonValue)>,
    k: nat,
) -> bool
    decreases a, a.len() - k,
{
    k < a.len() ==> a[k as int].0@ == b[k as int].0@ && same(a[k as int].1, b[k as int].1)
        && same_fields(a, b, k + 1)
}

/// The number of values that `n` bytes can hold.
spec fn capacity(n: nat) -> nat
    decreases n,
{
    if n == 0 {
        1
    } else {
        256 * capacity((n - 1) as nat)
    }
}

proof fn lemma_big_endian(a: nat, b: nat, n: nat)
    ensures
        big_endian(a, n).len() == n,
        a < capacity(n) && b < capacity(n) && big_endian(a, n) == big_endian(b, n) ==> a == b,
    decreases n,
{
    if n > 0 {
        lemma_big_endian(a / 256, b / 256, (n - 1) as nat);
        let x = big_endian(a, n);
        let y = big_endian(b, n);
        if a < capacity(n) && b < capacity(n) && x == y {
            lemma_big_endian(b / 256, a / 256, (n - 1) as nat);
            assert(x.drop_last() =~= big_endian(a / 256, (n - 1) as nat));
            assert(y.drop_last() =~= big_endian(b / 256, (n - 1) as nat));
            assert(x.last() == y.last());
        }
    }
}

/// The number of bytes of an argument behind the first byte.
spec fn argument_len(value: nat) -> nat {
    if value < 24 {
        0
    } else if value < 0x100 {
        1
    } else if value < 0x1_0000 {
        2
    } else if value < 0x1_0000_0000 {
        4
    } else {
        8
    }
}

/// What the first byte says beside the major type.
spec fn info(value: nat) -> nat {
    if value < 24 {
        value
    } else if value < 0x100 {
        24
    } else if value < 0x1_0000 {
        25
    } else if value < 0x1_0000_0000 {
        26
    } else {
        27
    }
}

proof fn lemma_head_shape(major: u8, value: nat)
    requires
        major <= 7,
    ensures
        head(major, value).len() == 1 + argument_len(value),
        head(major, value)[0] / 32 == major,
        head(major, value)[0] % 32 == info(value),
        head(major, value)[0] as int == major * 32 + info(value),
        value >= 24 ==> head(major, value).skip(1) == big_endian(value, argument_len(value)),
{
    lemma_big_endian(value, value, argument_len(value));
    if value >= 24 {
        assert(head(major, value).skip(1) =~= big_endian(value, argument_len(value)));
    }
}

proof fn lemma_head(m1: u8, v1: nat, r1: Seq<u8>, m2: u8, v2: nat, r2: Seq<u8>)
    requires
        m1 <= 7,
        m2 <= 7,
        v1 <= u64::MAX,
        v2 <= u64::MAX,
        head(m1, v1) + r1 == head(m2, v2) + r2,
    ensures
        m1 == m2,
        v1 == v2,
        r1 == r2,
{
    let h1 = head(m1, v1);
    let h2 = head(m2, v2);
    lemma_head_shape(m1, v1);
    lemma_head_shape(m2, v2);
    assert((h1 + r1)[0] == h1[0]);
    assert((h2 + r2)[0] == h2[0]);
    assert(argument_len(v1) == argument_len(v2));
    lemma_cut(h1, r1, h2, r2);
    if v1 >= 24 {
        reveal_with_fuel(capacity, 9);
        lemma_big_endian(v1, v2, argument_len(v1));
    }
}

proof fn lemma_cut(a: Seq<u8>, ra: Seq<u8>, b: Seq<u8>, rb: Seq<u8>)
    requires
        a + ra == b + rb,
        a.len() == b.len(),
    ensures
        a == b,
        ra == rb,
{
    assert(a =~= (a + ra).take(a.len() as int));
    assert(b =~= (b + rb).take(b.len() as int));
    assert(ra =~= (a + ra).skip(a.len() as int));
    assert(rb =~= (b + rb).skip(b.len() as int));
}

proof fn lemma_text(a: Seq<char>, ra: Seq<u8>, b: Seq<char>, rb: Seq<u8>)
    requires
        encode_utf8(a).len() <= u64::MAX,
        encode_utf8(b).len() <= u64::MAX,
        cbor_text(a) + ra == cbor_text(b) + rb,
    ensures
        a == b,
        ra == rb,
{
    let x = encode_utf8(a);
    let y = encode_utf8(b);
    assert(cbor_text(a) + ra =~= head(3, x.len()) + (x + ra));
    assert(cbor_text(b) + rb =~= head(3, y.len()) + (y + rb));
    lemma_head(3, x.len(), x + ra, 3, y.len(), y + rb);
    lemma_cut(x, ra, y, rb);
    vstd::utf8::encode_utf8_decode_utf8(a);
    vstd::utf8::encode_utf8_decode_utf8(b);
}

/// Whether all lengths in a value fit in 64 bits, as they do on every machine.
pub open spec fn fits(v: JsonValue) -> bool
    decreases v, 0int,
{
    match v {
        JsonValue::Text(x) => encode_utf8(x@).len() <= u64::MAX,
        JsonValue::List(x) => x@.len() <= u64::MAX && fits_items(x@, 0),
        JsonValue::Record(x) => x@.len() <= u64::MAX && fits_fields(x@, 0),
        _ => true,
    }
}

/// Whether all lengths in the items of a list from the one at `k` on fit.
pub open spec fn fits_items(items: Seq<JsonValue>, k: nat) -> bool
    decreases items, items.len() - k,
{
    k < items.len() ==> fits(items[k as int]) && fits_items(items, k + 1)
}

/// Whether all lengths in the fields of a record from the one at `k` on fit.
pub open spec fn fits_fields(fields: Seq<(String, JsonValue)>, k: nat) -> bool
    decreases fields, fields.len() - k,
{
    k < fields.len() ==> encode_utf8(fields[k as int].0@).len() <= u64::MAX && fits(
        fields[k as int].1,
    ) && fits_fields(fields, k + 1)
}

/// The major type of a value.
spec fn major_of(v: JsonValue) -> u8 {
    match v {
        JsonValue::Null => 7,
        JsonValue::Bool(_) => 7,
        JsonValue::Unsigned(_) => 0,
        JsonValue::Signed(n) => if n >= 0 {
            0
        } else {
            1
        },
        JsonValue::Float(_) => 7,
        JsonValue::Text(_) => 3,
        JsonValue::List(_) => 4,
        JsonValue::Record(_) => 5,
    }
}

proof fn lemma_first_byte(v: JsonValue)
    ensures
        cbor(v).len() > 0,
        cbor(v)[0] / 32 == major_of(v),
{
    match v {
        JsonValue::Unsigned(n) => {
            lemma_head_shape(0, n as nat);
        },
        JsonValue::Signed(n) => {
            if n >= 0 {
                lemma_head_shape(0, n as nat);
            } else {
                lemma_head_shape(1, (-n - 1) as nat);
            }
        },
        JsonValue::Text(x) => {
            lemma_head_shape(3, encode_utf8(x@).len());
        },
        JsonValue::List(x) => {
            lemma_head_shape(4, x@.len());
        },
        JsonValue::Record(x) => {
            lemma_head_shape(5, x@.len());
        },
        _ => {},
    }
}

/// Values can be told apart by their bytes, and the bytes show where a value ends: where the bytes
/// of two values, each with something behind it, are the same, the values say the same, and so does
/// what is behind them.
pub proof fn cbor_is_unambiguous(a: JsonValue, ra: Seq<u8>, b: JsonValue, rb: Seq<u8>)
    requires
        fits(a),
        fits(b),
        cbor(a) + ra == cbor(b) + rb,
    ensures
        same(a, b),
        ra == rb,
    decreases a, 0int,
{
    lemma_first_byte(a);
    lemma_first_byte(b);
    assert((cbor(a) + ra)[0] == cbor(a)[0]);
    assert((cbor(b) + rb)[0] == cbor(b)[0]);
    assert(major_of(a) == major_of(b));
    match a {
        JsonValue::Null => {
            lemma_simple(a, ra, b, rb);
        },
        JsonValue::Bool(_) => {
            lemma_simple(a, ra, b, rb);
        },
        JsonValue::Float(_) => {
            lemma_simple(a, ra, b, rb);
        },
        JsonValue::Unsigned(x) => {
            lemma_integers(x as int, ra, integer(b)->Some_0, rb);
        },
        JsonValue::Signed(x) => {
            lemma_integers(x as int, ra, integer(b)->Some_0, rb);
        },
        JsonValue::Text(x) => {
            lemma_text(x@, ra, b->Text_0@, rb);
        },
        JsonValue::List(x) => {
            let y = b->List_0;
            let ha = head(4, x@.len());
            let hb = head(4, y@.len());
            let ia = cbor_items(x@, 0);
            let ib = cbor_items(y@, 0);
            assert(cbor(a) + ra =~= ha + (ia + ra));
            assert(cbor(b) + rb =~= hb + (ib + rb));
            lemma_head(4, x@.len(), ia + ra, 4, y@.len(), ib + rb);
            lemma_items(x@, ra, y@, rb, 0);
        },
        JsonValue::Record(x) => {
            let y = b->Record_0;
            let ha = head(5, x@.len());
            let hb = head(5, y@.len());
            let ia = cbor_fields(x@, 0);
            let ib = cbor_fields(y@, 0);
            assert(cbor(a) + ra =~= ha + (ia + ra));
            assert(cbor(b) + rb =~= hb + (ib + rb));
            lemma_head(5, x@.len(), ia + ra, 5, y@.len(), ib + rb);
            lemma_fields(x@, ra, y@, rb, 0);
        },
    }
}

proof fn lemma_items(a: Seq<JsonValue>, ra: Seq<u8>, b: Seq<JsonValue>, rb: Seq<u8>, k: nat)
    requires
        a.len() == b.len(),
        fits_items(a, k),
        fits_items(b, k),
        cbor_items(a, k) + ra == cbor_items(b, k) + rb,
    ensures
        same_items(a, b, k),
        ra == rb,
    decreases a, a.len() - k,
{
    if k < a.len() {
        let x = cbor(a[k as int]);
        let y = cbor(b[k as int]);
        let ta = cbor_items(a, k + 1);
        let tb = cbor_items(b, k + 1);
        assert(cbor_items(a, k) + ra =~= x + (ta + ra));
        assert(cbor_items(b, k) + rb =~= y + (tb + rb));
        cbor_is_unambiguous(a[k as int], ta + ra, b[k as int], tb + rb);
        lemma_items(a, ra, b, rb, k + 1);
    } else {
        assert(cbor_items(a, k) + ra =~= ra);
        assert(cbor_items(b, k) + rb =~= rb);
    }
}

proof fn lemma_fields(
    a: Seq<(String, JsonValue)>,
    ra: Seq<u8>,
    b: Seq<(String, JsonValue)>,
    rb: Seq<u8>,
    k: nat,
)
    requires
        a.len() == b.len(),
        fits_fields(a, k),
        fits_fields(b, k),
        cbor_fields(a, k) + ra == cbor_fields(b, k) + rb,
    ensures
        same_fields(a, b, k),
        ra == rb,
    decreases a, a.len() - k,
{
    if k < a.len() {
        let na = a[k as int].0@;
        let nb = b[k as int].0@;
        let x = cbor(a[k as int].1);
        let y = cbor(b[k as int].1);
        let ta = cbor_fields(a, k + 1);
        let tb = cbor_fields(b, k + 1);
        assert(cbor_fields(a, k) + ra =~= cbor_text(na) + (x + (ta + ra)));
        assert(cbor_fields(b, k) + rb =~= cbor_text(nb) + (y + (tb + rb)));
        lemma_text(na, x + (ta + ra), nb, y + (tb + rb));
        assert(decreases_to!(a => a[k as int]));
        assert(decreases_to!(a[k as int] => a[k as int].1));
        cbor_is_unambiguous(a[k as int].1, ta + ra, b[k as int].1, tb + rb);
        lemma_fields(a, ra, b, rb, k + 1);
    } else {
        assert(cbor_fields(a, k) + ra =~= ra);
        assert(cbor_fields(b, k) + rb =~= rb);
    }
}

proof fn lemma_integers(a: int, ra: Seq<u8>, b: int, rb: Seq<u8>)
    requires
        i64::MIN <= a <= u64::MAX,
        i64::MIN <= b <= u64::MAX,
        cbor_integer(a) + ra == cbor_integer(b) + rb,
    ensures
        a == b,
        ra == rb,
{
    let (m1, v1) = if a >= 0 {
        (0u8, a as nat)
    } else {
        (1u8, (-a - 1) as nat)
    };
    let (m2, v2) = if b >= 0 {
        (0u8, b as nat)
    } else {
        (1u8, (-b - 1) as nat)
    };
    lemma_head(m1, v1, ra, m2, v2, rb);
}

proof fn lemma_simple(a: JsonValue, ra: Seq<u8>, b: JsonValue, rb: Seq<u8>)
    requires
        major_of(a) == 7,
        major_of(b) == 7,
        cbor(a) + ra == cbor(b) + rb,
    ensures
        same(a, b),
        ra == rb,
{
    assert((cbor(a) + ra)[0] == cbor(a)[0]);
    assert((cbor(b) + rb)[0] == cbor(b)[0]);
    if a is Float {
        let x = a->Float_0 as nat;
        let y = b->Float_0 as nat;
        lemma_big_endian(x, y, 8);
        lemma_big_endian(y, x, 8);
        lemma_cut(cbor(a), ra, cbor(b), rb);
        assert(cbor(a).skip(1) =~= big_endian(x, 8));
        assert(cbor(b).skip(1) =~= big_endian(y, 8));
        reveal_with_fuel(capacity, 9);
    } else {
        lemma_cut(cbor(a), ra, cbor(b), rb);
    }
}

/// A number is written from its highest byte to its lowest.
pub proof fn highest_byte_first(value: nat, b: u8, n: nat)
    ensures
        big_endian(256 * value + b as nat, n + 1) == big_endian(value, n).push(b),
        big_endian(value, 0).len() == 0,
{
    assert((256 * value + b as nat) % 256 == b as nat);
    assert((256 * value + b as nat) / 256 == value);
}

/// A head has its kind in the three highest bits. A small number stands in the rest; a larger one
/// follows in the least of one, two, four and eight bytes that hold it.
pub proof fn heads_of_values(major: u8, value: nat)
    requires
        major <= 7,
        value <= u64::MAX,
    ensures
        head(major, value)[0] / 32 == major,
        value < 24 ==> head(major, value).len() == 1 && head(major, value)[0] % 32 == value,
        24 <= value <= 255 ==> head(major, value).len() == 2 && head(major, value)[0] % 32 == 24,
        255 < value <= 65_535 ==> head(major, value).len() == 3 && head(major, value)[0] % 32 == 25,
        65_535 < value <= 4_294_967_295 ==> head(major, value).len() == 5 && head(major, value)[0]
            % 32 == 26,
        4_294_967_295 < value ==> head(major, value).len() == 9 && head(major, value)[0] % 32 == 27,
        value >= 24 ==> head(major, value).skip(1) == big_endian(
            value,
            (head(major, value).len() - 1) as nat,
        ),
{
    lemma_big_endian_len(value, 1);
    lemma_big_endian_len(value, 2);
    lemma_big_endian_len(value, 4);
    lemma_big_endian_len(value, 8);
    let h = head(major, value);
    if value >= 24 {
        assert(h.skip(1) =~= big_endian(value, (h.len() - 1) as nat));
    }
}

proof fn lemma_big_endian_len(value: nat, n: nat)
    ensures
        big_endian(value, n).len() == n,
    decreases n,
{
    if n > 0 {
        lemma_big_endian_len(value / 256, (n - 1) as nat);
    }
}

/// What each value is written as.
pub proof fn values_as_bytes(
    n: u64,
    s: i64,
    bits: u64,
    text: String,
    items: Vec<JsonValue>,
    fields: Vec<(String, JsonValue)>,
)
    ensures
        cbor(JsonValue::Null) == seq![0xf6u8],
        cbor(JsonValue::Bool(true)) == seq![0xf5u8],
        cbor(JsonValue::Bool(false)) == seq![0xf4u8],
        cbor(JsonValue::Unsigned(n)) == head(0, n as nat),
        s >= 0 ==> cbor(JsonValue::Signed(s)) == head(0, s as nat),
        s < 0 ==> cbor(JsonValue::Signed(s)) == head(1, (-1 - s) as nat),
        cbor(JsonValue::Float(bits)) == seq![0xfbu8] + big_endian(bits as nat, 8),
        cbor(JsonValue::Text(text)) == head(3, encode_utf8(text@).len()) + encode_utf8(text@),
        cbor(JsonValue::List(items)) == head(4, items@.len()) + cbor_items(items@, 0),
        cbor(JsonValue::Record(fields)) == head(5, fields@.len()) + cbor_fields(fields@, 0),
{
}

/// The items of a list stand in their order, and so do the fields of a record, each behind its name.
pub proof fn items_in_order(items: Seq<JsonValue>, fields: Seq<(String, JsonValue)>, k: nat)
    ensures
        k < items.len() ==> cbor_items(items, k) == cbor(items[k as int]) + cbor_items(items, k + 1),
        cbor_items(items, items.len()).len() == 0,
        k < fields.len() ==> cbor_fields(fields, k) == head(
            3,
            encode_utf8(fields[k as int].0@).len(),
        ) + encode_utf8(fields[k as int].0@) + cbor(fields[k as int].1) + cbor_fields(
            fields,
            k + 1,
        ),
        cbor_fields(fields, fields.len()).len() == 0,
{
}

} // verus!
