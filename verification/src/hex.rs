use vstd::prelude::*;

verus! {

/// The lowercase hexadecimal digit for a nibble value.
pub open spec fn hex_digit(n: u8) -> u8
    recommends
        n < 16,
{
    if n < 10 {
        (48 + n) as u8
    } else {
        (87 + n) as u8
    }
}

/// The lowercase hexadecimal rendering of a byte sequence:
/// two digits per byte, high nibble first.
pub open spec fn hex_of(s: Seq<u8>) -> Seq<u8> {
    Seq::new(
        s.len() * 2,
        |j: int| if j % 2 == 0 {
            hex_digit(s[j / 2] / 16)
        } else {
            hex_digit(s[j / 2] % 16)
        },
    )
}

/// Whether a byte is a lowercase hexadecimal digit.
pub open spec fn is_hex_char(c: u8) -> bool {
    (48 <= c <= 57) || (97 <= c <= 102)
}

/// Every byte of a hexadecimal rendering is a lowercase hex digit;
/// in particular it is never a newline and never a hyphen.
pub proof fn lemma_hex_charset(s: Seq<u8>)
    ensures
        forall|j: int| 0 <= j < hex_of(s).len() ==> is_hex_char(#[trigger] hex_of(s)[j]),
{
    assert forall|j: int| 0 <= j < hex_of(s).len() implies is_hex_char(#[trigger] hex_of(s)[j]) by {
        let b = s[j / 2];
        assert(b / 16 < 16);
        assert(b % 16 < 16);
    }
}

/// Renders bytes as lowercase hexadecimal, two digits per byte.
pub fn to_hex(s: &Vec<u8>) -> (r: Vec<u8>)
    requires
        s@.len() * 2 <= usize::MAX,
    ensures
        r@ == hex_of(s@),
{
    let mut r: Vec<u8> = Vec::new();
    let mut i: usize = 0;
    while i < s.len()
        invariant
            i <= s@.len(),
            s@.len() * 2 <= usize::MAX,
            r@ =~= hex_of(s@.subrange(0, i as int)),
        decreases s@.len() - i,
    {
        let b = s[i];
        let hi = b / 16;
        let lo = b % 16;
        r.push(hex_digit_exec(hi));
        r.push(hex_digit_exec(lo));
        i = i + 1;
        proof {
            assert(s@.subrange(0, i as int)[i - 1] == s@[i - 1]);
            assert(r@ =~= hex_of(s@.subrange(0, i as int)));
        }
    }
    proof {
        assert(s@.subrange(0, s@.len() as int) =~= s@);
    }
    r
}

/// The lowercase hexadecimal digit for a nibble value.
fn hex_digit_exec(n: u8) -> (r: u8)
    requires
        n < 16,
    ensures
        r == hex_digit(n),
{
    if n < 10 {
        48 + n
    } else {
        87 + n
    }
}

} // verus!
