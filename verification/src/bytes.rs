//! Byte strings: comparison, concatenation, hexadecimal text.

use vstd::prelude::*;

use crate::text;

verus! {

/// The hexadecimal digit of `n`, in lower case.
pub open spec fn hex_digit(n: nat) -> char {
    if n < 10 {
        ('0' as u8 + n) as char
    } else {
        ('a' as u8 + n - 10) as char
    }
}

/// Two lower-case hexadecimal digits for each byte.
pub open spec fn hex(b: Seq<u8>) -> Seq<char> {
    Seq::new(
        b.len() * 2,
        |i: int|
            hex_digit(
                if i % 2 == 0 {
                    b[i / 2] as nat / 16
                } else {
                    b[i / 2] as nat % 16
                },
            ),
    )
}

/// The hexadecimal digit of `n`, in lower case.
pub fn digit_of(n: u8) -> (r: char)
    requires
        n < 16,
    ensures
        r == hex_digit(n as nat),
{
    if n < 10 {
        (48 + n) as char
    } else {
        (87 + n) as char
    }
}

/// Two lower-case hexadecimal digits for each byte.
pub fn to_hex(b: &[u8]) -> (r: String)
    ensures
        r@ == hex(b@),
{
    let mut s = String::new();
    let mut i: usize = 0;
    while i < b.len()
        invariant
            i <= b@.len(),
            s@ == hex(b@).take(i * 2),
        decreases b@.len() - i,
    {
        let x: u8 = b[i];
        s.push(digit_of(x / 16));
        s.push(digit_of(x % 16));
        proof {
            assert(hex(b@)[i * 2] == hex_digit(x as nat / 16));
            assert(hex(b@)[i * 2 + 1] == hex_digit(x as nat % 16));
            assert(s@ =~= hex(b@).take((i + 1) * 2));
        }
        i += 1;
    }
    assert(hex(b@).take(i * 2) =~= hex(b@));
    s
}

/// Different byte strings have different hexadecimal texts.
pub proof fn lemma_hex_injective(a: Seq<u8>, b: Seq<u8>)
    requires
        hex(a) == hex(b),
    ensures
        a == b,
{
    assert(hex(a).len() == a.len() * 2);
    assert(hex(b).len() == b.len() * 2);
    assert forall|i: int| 0 <= i < a.len() implies a[i] == b[i] by {
        assert(hex(a)[i * 2] == hex(b)[i * 2]);
        assert(hex(a)[i * 2 + 1] == hex(b)[i * 2 + 1]);
        assert(hex(a)[i * 2] == hex_digit(a[i] as nat / 16));
        assert(hex(b)[i * 2] == hex_digit(b[i] as nat / 16));
        assert(hex(a)[i * 2 + 1] == hex_digit(a[i] as nat % 16));
        assert(hex(b)[i * 2 + 1] == hex_digit(b[i] as nat % 16));
    }
    assert(a =~= b);
}

/// Every character of a hexadecimal text is a digit or a letter from `a` to `f`.
pub proof fn lemma_hex_chars(b: Seq<u8>)
    ensures
        hex(b).len() == b.len() * 2,
        forall|i: int|
            0 <= i < hex(b).len() ==> text::is_digit(#[trigger] hex(b)[i]) || 'a' <= hex(b)[i] <= 'f',
{
}

/// Whether two byte strings are equal. Every byte is looked at, wherever they first differ.
pub fn ct_eq(a: &[u8], b: &[u8]) -> (r: bool)
    ensures
        r == (a@ == b@),
{
    if a.len() != b.len() {
        return false;
    }
    let mut diff: u8 = 0;
    let mut i: usize = 0;
    assert(a@.take(0) =~= b@.take(0));
    while i < a.len()
        invariant
            a@.len() == b@.len(),
            i <= a@.len(),
            diff == 0 <==> a@.take(i as int) == b@.take(i as int),
        decreases a@.len() - i,
    {
        let x: u8 = a[i];
        let y: u8 = b[i];
        assert((diff | (x ^ y)) == 0 <==> diff == 0 && x == y) by (bit_vector);
        diff = diff | (x ^ y);
        proof {
            let p = a@.take(i + 1);
            let q = b@.take(i + 1);
            assert(p.drop_last() =~= a@.take(i as int));
            assert(q.drop_last() =~= b@.take(i as int));
            if a@.take(i as int) == b@.take(i as int) && x == y {
                assert(p =~= q);
            }
            if p == q {
                assert(p.last() == x && q.last() == y);
            }
        }
        i += 1;
    }
    assert(a@.take(a@.len() as int) =~= a@);
    assert(b@.take(b@.len() as int) =~= b@);
    diff == 0
}

/// `a` followed by `b`.
pub fn concat(a: &[u8], b: &[u8]) -> (r: Vec<u8>)
    ensures
        r@ == a@ + b@,
{
    let mut r: Vec<u8> = vstd::slice::slice_to_vec(a);
    let mut tail: Vec<u8> = vstd::slice::slice_to_vec(b);
    r.append(&mut tail);
    r
}

/// The bytes `v[from..to]`.
pub fn range(v: &[u8], from: usize, to: usize) -> (r: Vec<u8>)
    requires
        from <= to <= v@.len(),
    ensures
        r@ == v@.subrange(from as int, to as int),
{
    vstd::slice::slice_to_vec(vstd::slice::slice_subrange(v, from, to))
}

/// The first 32 bytes of `v` as an array.
pub fn array32(v: &[u8], from: usize) -> (r: [u8; 32])
    requires
        from + 32 <= v@.len(),
    ensures
        r@ == v@.subrange(from as int, from + 32),
{
    let mut a = [0u8; 32];
    let n: usize = v.len();
    let mut i: usize = 0;
    while i < 32
        invariant
            i <= 32,
            n == v@.len(),
            from + 32 <= n,
            forall|k: int| 0 <= k < i ==> a@[k] == v@[from + k],
        decreases 32 - i,
    {
        a[i] = v[from + i];
        i += 1;
    }
    assert(a@ =~= v@.subrange(from as int, from + 32));
    a
}

/// Each byte is written as two digits, the upper four bits first; digits from ten on are the letters from
/// `a`.
pub proof fn law_bytes_are_two_digits(b: Seq<u8>, i: int, n: nat)
    requires
        0 <= i < b.len(),
        n < 16,
    ensures
        hex(b).len() == 2 * b.len(),
        hex(b)[2 * i] == hex_digit(b[i] as nat / 16),
        hex(b)[2 * i + 1] == hex_digit(b[i] as nat % 16),
        n < 10 ==> hex_digit(n) as int == 48 + n,
        n >= 10 ==> hex_digit(n) as int == 87 + n,
{
}

} // verus!
