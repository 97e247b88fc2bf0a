//! SHA-256 digests in hexadecimal.
use vstd::prelude::*;

verus! {

/// The SHA-256 digest of some bytes.
pub uninterp spec fn sha256_digest(data: Seq<u8>) -> Seq<u8>;

/// Calls [`sha2::Digest::digest`] of [`sha2::Sha256`]. The contract says that the
/// digest is fixed by the bytes and has 32 bytes.
#[verifier::external_body]
fn sha256(data: &[u8]) -> (d: Vec<u8>)
    ensures
        d@ == sha256_digest(data@),
        d@.len() == 32,
{
    <sha2::Sha256 as sha2::Digest>::digest(data).to_vec()
}

/// The lower-case hexadecimal digit of a number below sixteen.
pub open spec fn hex_digit_of(n: int) -> char {
    if n < 10 {
        ('0' as u32 + n) as char
    } else {
        ('a' as u32 + (n - 10)) as char
    }
}

/// Bytes in lower-case hexadecimal, two digits for each.
pub open spec fn hex_of(data: Seq<u8>) -> Seq<char> {
    Seq::new(
        2 * data.len(),
        |i: int|
            if i % 2 == 0 {
                hex_digit_of(data[i / 2] as int / 16)
            } else {
                hex_digit_of(data[i / 2] as int % 16)
            },
    )
}

/// Whether a character is a lower-case hexadecimal digit.
pub open spec fn is_hex_digit(c: char) -> bool {
    '0' <= c <= '9' || 'a' <= c <= 'f'
}

/// Bytes in hexadecimal are hexadecimal digits.
pub proof fn lemma_hex_digits(data: Seq<u8>)
    ensures
        forall|i: int| 0 <= i < hex_of(data).len() ==> is_hex_digit(#[trigger] hex_of(data)[i]),
{
}

fn hex_digit(n: u8) -> (c: char)
    requires
        n < 16,
    ensures
        c == hex_digit_of(n as int),
{
    match n {
        0 => '0',
        1 => '1',
        2 => '2',
        3 => '3',
        4 => '4',
        5 => '5',
        6 => '6',
        7 => '7',
        8 => '8',
        9 => '9',
        10 => 'a',
        11 => 'b',
        12 => 'c',
        13 => 'd',
        14 => 'e',
        _ => 'f',
    }
}

/// Bytes in lower-case hexadecimal.
pub fn hex(data: &Vec<u8>) -> (s: String)
    ensures
        s@ == hex_of(data@),
{
    let mut s: String = String::new();
    for i in 0..data.len()
        invariant
            s@.len() == 2 * i,
            forall|j: int| 0 <= j < 2 * i ==> #[trigger] s@[j] == hex_of(data@)[j],
    {
        s.push(hex_digit(data[i] / 16));
        s.push(hex_digit(data[i] % 16));
    }
    assert(s@ =~= hex_of(data@));
    s
}

/// The SHA-256 digest of some bytes in hexadecimal.
pub fn sha256_hex(data: &Vec<u8>) -> (s: String)
    ensures
        s@ == hex_of(sha256_digest(data@)),
        s@.len() == 64,
{
    hex(&sha256(data.as_slice()))
}

/// The value of a lower-case hexadecimal digit.
pub open spec fn hex_value(c: char) -> int {
    if c <= '9' {
        c as u32 - 48
    } else {
        c as u32 - 87
    }
}

/// Bytes in hexadecimal have two lower-case digits for each byte, in their order and the
/// higher first: sixteen times the first and the second make the byte.
pub proof fn law_hexadecimal(data: Seq<u8>)
    ensures
        hex_of(data).len() == 2 * data.len(),
        forall|i: int|
            0 <= i < hex_of(data).len() ==> {
                ||| '0' <= #[trigger] hex_of(data)[i] <= '9'
                ||| 'a' <= hex_of(data)[i] <= 'f'
            },
        forall|i: int|
            0 <= i < data.len() ==> 16 * hex_value(hex_of(data)[2 * i]) + hex_value(
                hex_of(data)[2 * i + 1],
            ) == #[trigger] data[i],
{
    assert forall|i: int| 0 <= i < data.len() implies 16 * hex_value(hex_of(data)[2 * i])
        + hex_value(hex_of(data)[2 * i + 1]) == #[trigger] data[i] by {
        assert((2 * i) / 2 == i && (2 * i + 1) / 2 == i);
        assert((2 * i) % 2 == 0 && (2 * i + 1) % 2 == 1);
        let b = data[i] as int;
        assert(0 <= b / 16 < 16 && 0 <= b % 16 < 16);
        assert(hex_value(hex_digit_of(b / 16)) == b / 16);
        assert(hex_value(hex_digit_of(b % 16)) == b % 16);
    }
}

} // verus!
