//! Base64 with the standard alphabet and padding, without line breaks.
use vstd::prelude::*;

verus! {

/// The letter for a number below 64.
pub open spec fn letter(i: int) -> char {
    if i < 26 {
        (i + 'A' as int) as char
    } else if i < 52 {
        (i - 26 + 'a' as int) as char
    } else if i < 62 {
        (i - 52 + '0' as int) as char
    } else if i == 62 {
        '+'
    } else {
        '/'
    }
}

/// The number that a letter stands for.
pub open spec fn letter_value(c: char) -> int {
    if 'A' <= c <= 'Z' {
        c as int - 'A' as int
    } else if 'a' <= c <= 'z' {
        c as int - 'a' as int + 26
    } else if '0' <= c <= '9' {
        c as int - '0' as int + 52
    } else if c == '+' {
        62
    } else {
        63
    }
}

/// The number that up to three bytes stand for; missing ones count as zero.
pub open spec fn group(data: Seq<u8>) -> int {
    let b1 = if data.len() > 1 {
        data[1] as int
    } else {
        0
    };
    let b2 = if data.len() > 2 {
        data[2] as int
    } else {
        0
    };
    data[0] * 65536 + b1 * 256 + b2
}

/// The four letters for up to three bytes.
pub open spec fn quad(data: Seq<u8>) -> Seq<char> {
    let n = group(data);
    seq![
        letter(n / 262144),
        letter(n / 4096 % 64),
        if data.len() > 1 {
            letter(n / 64 % 64)
        } else {
            '='
        },
        if data.len() > 2 {
            letter(n % 64)
        } else {
            '='
        },
    ]
}

/// The text for bytes: four letters for each three of them, and for what is left at the end.
pub open spec fn encoded(data: Seq<u8>) -> Seq<char>
    decreases data.len(),
{
    if data.len() == 0 {
        Seq::empty()
    } else if data.len() <= 3 {
        quad(data)
    } else {
        quad(data.take(3)) + encoded(data.skip(3))
    }
}

/// The bytes that a text stands for.
pub open spec fn decoded(text: Seq<char>) -> Seq<u8>
    decreases text.len(),
{
    if text.len() < 4 {
        Seq::empty()
    } else {
        let n = letter_value(text[0]) * 262144 + letter_value(text[1]) * 4096 + (if text[2]
            == '=' {
            0
        } else {
            letter_value(text[2])
        }) * 64 + (if text[3] == '=' {
            0
        } else {
            letter_value(text[3])
        });
        let bytes = if text[2] == '=' {
            seq![(n / 65536) as u8]
        } else if text[3] == '=' {
            seq![(n / 65536) as u8, (n / 256 % 256) as u8]
        } else {
            seq![(n / 65536) as u8, (n / 256 % 256) as u8, (n % 256) as u8]
        };
        bytes + decoded(text.skip(4))
    }
}

fn letter_of(i: u32) -> (res: char)
    requires
        i < 64,
    ensures
        res == letter(i as int),
{
    if i < 26 {
        (i as u8 + 65u8) as char
    } else if i < 52 {
        (i as u8 - 26 + 97u8) as char
    } else if i < 62 {
        (i as u8 - 52 + 48u8) as char
    } else if i == 62 {
        '+'
    } else {
        '/'
    }
}

/// The text for bytes.
pub fn base64_encode(data: &[u8]) -> (res: String)
    ensures
        res@ == encoded(data@),
{
    let mut out = String::new();
    let len: usize = data.len();
    let mut i: usize = 0;
    assert(data@.skip(0) =~= data@);
    assert(out@ =~= Seq::<char>::empty());
    while i < len
        invariant
            i <= len,
            len == data@.len(),
            encoded(data@) == out@ + encoded(data@.skip(i as int)),
        decreases len - i,
    {
        let ghost rest = data@.skip(i as int);
        let ghost before = out@;
        let left: usize = len - i;
        let b0: u32 = data[i] as u32;
        let b1: u32 = if left > 1 {
            data[i + 1] as u32
        } else {
            0
        };
        let b2: u32 = if left > 2 {
            data[i + 2] as u32
        } else {
            0
        };
        let n: u32 = b0 * 65536 + b1 * 256 + b2;
        let ghost chunk = if rest.len() <= 3 {
            rest
        } else {
            rest.take(3)
        };
        assert(n == group(chunk));
        out.push(letter_of(n / 262144));
        out.push(letter_of(n / 4096 % 64));
        out.push(
            if left > 1 {
                letter_of(n / 64 % 64)
            } else {
                '='
            },
        );
        out.push(
            if left > 2 {
                letter_of(n % 64)
            } else {
                '='
            },
        );
        assert(out@ =~= before + quad(chunk));
        if left <= 3 {
            assert(data@.skip(len as int) =~= Seq::<u8>::empty());
            assert(out@ + encoded(data@.skip(len as int)) =~= before + quad(chunk));
            i = len;
        } else {
            assert(rest.skip(3) =~= data@.skip(i + 3));
            assert(out@ + encoded(data@.skip(i + 3)) =~= before + (quad(chunk) + encoded(
                rest.skip(3),
            )));
            i = i + 3;
        }
    }
    assert(data@.skip(i as int) =~= Seq::<u8>::empty());
    assert(out@ + encoded(data@.skip(i as int)) =~= out@);
    out
}

proof fn lemma_letter(i: int)
    requires
        0 <= i < 64,
    ensures
        letter_value(letter(i)) == i,
        letter(i) != '=',
{
}

proof fn lemma_alphabet(i: int)
    requires
        0 <= i < 64,
    ensures
        is_letter(letter(i)),
        letter(i) != '=',
{
}

proof fn lemma_split(b0: u32, b1: u32, b2: u32, n: u32)
    by (bit_vector)
    requires
        b0 < 256,
        b1 < 256,
        b2 < 256,
        n == b0 * 65536 + b1 * 256 + b2,
    ensures
        n / 262144 < 64,
        n / 262144 * 262144 + n / 4096 % 64 * 4096 + n / 64 % 64 * 64 + n % 64 == n,
        n / 65536 == b0,
        n / 256 % 256 == b1,
        n % 256 == b2,
        b2 == 0 ==> n % 64 == 0,
        b1 == 0 && b2 == 0 ==> n / 64 % 64 == 0,
{
}

proof fn lemma_quad(data: Seq<u8>)
    requires
        1 <= data.len() <= 3,
    ensures
        decoded(quad(data)) == data,
{
    let n = group(data);
    let q = quad(data);
    let b1 = if data.len() > 1 {
        data[1] as int
    } else {
        0
    };
    let b2 = if data.len() > 2 {
        data[2] as int
    } else {
        0
    };
    lemma_split(data[0] as u32, b1 as u32, b2 as u32, n as u32);
    lemma_letter(n / 262144);
    lemma_letter(n / 4096 % 64);
    lemma_letter(n / 64 % 64);
    lemma_letter(n % 64);
    assert(q.skip(4) =~= Seq::<char>::empty());
    assert(decoded(q.skip(4)) =~= Seq::<u8>::empty());
    let v2 = if q[2] == '=' {
        0
    } else {
        letter_value(q[2])
    };
    let v3 = if q[3] == '=' {
        0
    } else {
        letter_value(q[3])
    };
    assert(v2 == n / 64 % 64);
    assert(v3 == n % 64);
    assert(letter_value(q[0]) * 262144 + letter_value(q[1]) * 4096 + v2 * 64 + v3 == n);
    assert(decoded(q) =~= data);
}

/// The bytes can be read back from their text.
pub proof fn base64_reads_back(data: Seq<u8>)
    ensures
        decoded(encoded(data)) == data,
    decreases data.len(),
{
    if data.len() == 0 {
    } else if data.len() <= 3 {
        lemma_quad(data);
    } else {
        let head = data.take(3);
        let q = quad(head);
        let text = encoded(data);
        lemma_quad(head);
        base64_reads_back(data.skip(3));
        assert(text.skip(4) =~= encoded(data.skip(3)));
        assert(q.skip(4) =~= Seq::<char>::empty());
        assert(decoded(q.skip(4)) =~= Seq::<u8>::empty());
        assert(text[0] == q[0] && text[1] == q[1] && text[2] == q[2] && text[3] == q[3]);
        let n = letter_value(q[0]) * 262144 + letter_value(q[1]) * 4096 + (if q[2] == '=' {
            0
        } else {
            letter_value(q[2])
        }) * 64 + (if q[3] == '=' {
            0
        } else {
            letter_value(q[3])
        });
        lemma_letter(group(head) / 64 % 64);
        lemma_letter(group(head) % 64);
        let bytes = seq![(n / 65536) as u8, (n / 256 % 256) as u8, (n % 256) as u8];
        assert(bytes + decoded(q.skip(4)) =~= bytes);
        assert(bytes == head);
        assert(decoded(text) =~= head + data.skip(3));
        assert(head + data.skip(3) =~= data);
    }
}

/// The text has four letters for each three bytes begun.
pub proof fn encoded_length(data: Seq<u8>)
    ensures
        encoded(data).len() == (data.len() + 2) / 3 * 4,
    decreases data.len(),
{
    if data.len() > 3 {
        encoded_length(data.skip(3));
    }
}

/// Whether a character is one of the letters that the text is made of.
pub open spec fn is_letter(c: char) -> bool {
    ||| 'A' <= c <= 'Z'
    ||| 'a' <= c <= 'z'
    ||| '0' <= c <= '9'
    ||| c == '+'
    ||| c == '/'
}

/// How many equals signs end the text: as many as bytes are missing in the last group of three.
pub open spec fn padding(data: Seq<u8>) -> int {
    (3 - data.len() as int % 3) % 3
}

/// The text is made of letters, but for the equals signs at its end.
pub proof fn padding_ends_the_text(data: Seq<u8>, i: int)
    requires
        0 <= i < encoded(data).len(),
    ensures
        encoded(data)[i] == '=' <==> i >= encoded(data).len() - padding(data),
        encoded(data)[i] != '=' ==> is_letter(encoded(data)[i]),
    decreases data.len(),
{
    encoded_length(data);
    let chunk = if data.len() <= 3 {
        data
    } else {
        data.take(3)
    };
    let n = group(chunk);
    if i >= 4 {
        encoded_length(data.skip(3));
        padding_ends_the_text(data.skip(3), i - 4);
    } else {
        lemma_alphabet(n / 262144);
        lemma_alphabet(n / 4096 % 64);
        lemma_alphabet(n / 64 % 64);
        lemma_alphabet(n % 64);
    }
}

/// The letters stand for the numbers in the order of the alphabet: capitals, small letters, digits, the
/// plus sign and the slash.
pub proof fn letters_in_order(i: int)
    ensures
        0 <= i < 26 ==> letter(i) as int == 65 + i,
        26 <= i < 52 ==> letter(i) as int == 97 + (i - 26),
        52 <= i < 62 ==> letter(i) as int == 48 + (i - 52),
        letter(62) == '+',
        letter(63) == '/',
{
}

/// Three bytes give four letters, six bits to a letter, the highest first; what follows is encoded by
/// itself.
pub proof fn three_bytes_to_four_letters(
    a: u8,
    b: u8,
    c: u8,
    w: int,
    x: int,
    y: int,
    z: int,
    rest: Seq<u8>,
)
    requires
        0 <= w < 64,
        0 <= x < 64,
        0 <= y < 64,
        0 <= z < 64,
        a * 65536 + b * 256 + c == w * 262144 + x * 4096 + y * 64 + z,
    ensures
        encoded(seq![a, b, c] + rest) == seq![letter(w), letter(x), letter(y), letter(z)] + encoded(
            rest,
        ),
{
    let all = seq![a, b, c] + rest;
    let three = seq![a, b, c];
    let n = group(three);
    assert(n / 262144 == w);
    assert(n / 4096 % 64 == x);
    assert(n / 64 % 64 == y);
    assert(n % 64 == z);
    assert(quad(three) =~= seq![letter(w), letter(x), letter(y), letter(z)]);
    if rest.len() == 0 {
        assert(all =~= three);
        assert(encoded(rest) =~= Seq::empty());
    } else {
        assert(all.take(3) =~= three);
        assert(all.skip(3) =~= rest);
    }
}

} // verus!
