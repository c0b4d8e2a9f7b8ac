//! Text building blocks: decimal rendering of integers, lowercase hex
//! encoding of bytes, and character-level string equality. The chain hashes
//! textual serializations, so these conversions carry exact specifications.

use vstd::prelude::*;
use vstd::string::StrSliceExecFns;
use vstd::utf8::is_ascii_chars;

verus! {

/// The decimal digit character for a value below ten.
pub open spec fn dec_digit(d: u8) -> char {
    if d == 0 {
        '0'
    } else if d == 1 {
        '1'
    } else if d == 2 {
        '2'
    } else if d == 3 {
        '3'
    } else if d == 4 {
        '4'
    } else if d == 5 {
        '5'
    } else if d == 6 {
        '6'
    } else if d == 7 {
        '7'
    } else if d == 8 {
        '8'
    } else {
        '9'
    }
}

/// The decimal rendering of a natural number, most significant digit first.
pub open spec fn u64_dec_of(n: nat) -> Seq<char>
    decreases n,
{
    if n < 10 {
        seq![dec_digit(n as u8)]
    } else {
        u64_dec_of(n / 10) + seq![dec_digit((n % 10) as u8)]
    }
}

fn dec_digit_char(d: u8) -> (c: char)
    requires
        d < 10,
    ensures
        c == dec_digit(d),
{
    if d == 0 {
        '0'
    } else if d == 1 {
        '1'
    } else if d == 2 {
        '2'
    } else if d == 3 {
        '3'
    } else if d == 4 {
        '4'
    } else if d == 5 {
        '5'
    } else if d == 6 {
        '6'
    } else if d == 7 {
        '7'
    } else if d == 8 {
        '8'
    } else {
        '9'
    }
}

/// Relies on std's String::push: appends exactly one character.
#[verifier::external_body]
pub fn string_push(s: &mut String, c: char)
    ensures
        final(s)@ == old(s)@.push(c),
{
    s.push(c);
}

/// Renders an unsigned integer in decimal.
pub fn u64_to_string(n: u64) -> (s: String)
    ensures
        s@ == u64_dec_of(n as nat),
    decreases n,
{
    if n < 10 {
        let mut s = String::new();
        string_push(&mut s, dec_digit_char(n as u8));
        s
    } else {
        let mut s = u64_to_string(n / 10);
        string_push(&mut s, dec_digit_char((n % 10) as u8));
        s
    }
}

/// The lowercase hex digit character for a value below sixteen.
pub open spec fn hex_digit(d: u8) -> char {
    if d == 0 {
        '0'
    } else if d == 1 {
        '1'
    } else if d == 2 {
        '2'
    } else if d == 3 {
        '3'
    } else if d == 4 {
        '4'
    } else if d == 5 {
        '5'
    } else if d == 6 {
        '6'
    } else if d == 7 {
        '7'
    } else if d == 8 {
        '8'
    } else if d == 9 {
        '9'
    } else if d == 10 {
        'a'
    } else if d == 11 {
        'b'
    } else if d == 12 {
        'c'
    } else if d == 13 {
        'd'
    } else if d == 14 {
        'e'
    } else {
        'f'
    }
}

/// The lowercase hex rendering of a byte sequence, two digits per byte.
pub open spec fn hex_of(bytes: Seq<u8>) -> Seq<char>
    decreases bytes.len(),
{
    if bytes.len() == 0 {
        Seq::empty()
    } else {
        seq![hex_digit(bytes.first() / 16), hex_digit(bytes.first() % 16)] + hex_of(
            bytes.drop_first(),
        )
    }
}

pub proof fn lemma_hex_of_len(bytes: Seq<u8>)
    ensures
        hex_of(bytes).len() == 2 * bytes.len(),
    decreases bytes.len(),
{
    if bytes.len() > 0 {
        lemma_hex_of_len(bytes.drop_first());
    }
}

pub proof fn lemma_hex_of_ascii(bytes: Seq<u8>)
    ensures
        is_ascii_chars(hex_of(bytes)),
    decreases bytes.len(),
{
    if bytes.len() > 0 {
        lemma_hex_of_ascii(bytes.drop_first());
    }
}

fn hex_digit_char(d: u8) -> (c: char)
    requires
        d < 16,
    ensures
        c == hex_digit(d),
{
    if d == 0 {
        '0'
    } else if d == 1 {
        '1'
    } else if d == 2 {
        '2'
    } else if d == 3 {
        '3'
    } else if d == 4 {
        '4'
    } else if d == 5 {
        '5'
    } else if d == 6 {
        '6'
    } else if d == 7 {
        '7'
    } else if d == 8 {
        '8'
    } else if d == 9 {
        '9'
    } else if d == 10 {
        'a'
    } else if d == 11 {
        'b'
    } else if d == 12 {
        'c'
    } else if d == 13 {
        'd'
    } else if d == 14 {
        'e'
    } else {
        'f'
    }
}

/// Renders bytes as a lowercase hex string.
pub fn hex_encode(data: &[u8]) -> (s: String)
    ensures
        s@ == hex_of(data@),
{
    let mut s = String::new();
    let len = data.len();
    let mut i: usize = 0;
    assert(data@.skip(0) == data@);
    while i < len
        invariant
            len == data@.len(),
            i <= len,
            s@ + hex_of(data@.skip(i as int)) == hex_of(data@),
        decreases len - i,
    {
        let b = data[i];
        string_push(&mut s, hex_digit_char(b / 16));
        string_push(&mut s, hex_digit_char(b % 16));
        proof {
            assert(data@.skip(i as int).first() == data@[i as int]);
            assert(data@.skip(i as int).drop_first() =~= data@.skip(i + 1));
        }
        i += 1;
    }
    proof {
        assert(data@.skip(len as int) =~= Seq::empty());
        assert(s@ + Seq::<char>::empty() =~= s@);
    }
    s
}

/// Character-for-character equality of two string slices.
pub fn str_eq(a: &str, b: &str) -> (r: bool)
    ensures
        r == (a@ == b@),
{
    let alen = a.unicode_len();
    let blen = b.unicode_len();
    if alen != blen {
        return false;
    }
    let mut i: usize = 0;
    while i < alen
        invariant
            alen == a@.len(),
            alen == b@.len(),
            i <= alen,
            forall|j: int| 0 <= j < i ==> a@[j] == b@[j],
        decreases alen - i,
    {
        if a.get_char(i) != b.get_char(i) {
            return false;
        }
        i += 1;
    }
    proof {
        assert(a@ =~= b@);
    }
    true
}


/// The comma-separated decimal items of a byte sequence, as std's debug
/// formatting renders them between the brackets.
pub open spec fn bytes_debug_items(data: Seq<u8>) -> Seq<char>
    decreases data.len(),
{
    if data.len() == 0 {
        Seq::empty()
    } else if data.len() == 1 {
        u64_dec_of(data.first() as nat)
    } else {
        u64_dec_of(data.first() as nat) + seq![',', ' '] + bytes_debug_items(data.drop_first())
    }
}

/// The debug rendering of a byte sequence: its decimal items between
/// square brackets.
pub open spec fn bytes_debug_of(data: Seq<u8>) -> Seq<char> {
    seq!['['] + bytes_debug_items(data) + seq![']']
}

proof fn lemma_bytes_debug_snoc(s: Seq<u8>, b: u8)
    requires
        s.len() >= 1,
    ensures
        bytes_debug_items(s.push(b)) =~= bytes_debug_items(s) + seq![',', ' '] + u64_dec_of(
            b as nat,
        ),
    decreases s.len(),
{
    let t = s.push(b);
    assert(t.drop_first() =~= s.drop_first().push(b));
    if s.len() == 1 {
        assert(bytes_debug_items(t.drop_first()) == u64_dec_of(b as nat));
    } else {
        lemma_bytes_debug_snoc(s.drop_first(), b);
    }
}

/// Renders bytes as std's debug formatting of a byte vector does.
pub fn bytes_debug(data: &[u8]) -> (s: String)
    ensures
        s@ == bytes_debug_of(data@),
{
    let mut s = String::new();
    string_push(&mut s, '[');
    let n = data.len();
    let mut i: usize = 0;
    while i < n
        invariant
            i <= n,
            n == data@.len(),
            i == 0 ==> s@ == seq!['['],
            i > 0 ==> s@ == seq!['['] + bytes_debug_items(data@.take(i as int)),
        decreases n - i,
    {
        if i > 0 {
            string_push(&mut s, ',');
            string_push(&mut s, ' ');
        }
        let ghost s_mid = s@;
        let d = u64_to_string(data[i] as u64);
        s.append(d.as_str());
        proof {
            if i == 0 {
                assert(data@.take(1) =~= seq![data@[0]]);
                assert(s@ =~= seq!['['] + bytes_debug_items(data@.take(1)));
            } else {
                lemma_bytes_debug_snoc(data@.take(i as int), data@[i as int]);
                assert(data@.take(i as int).push(data@[i as int]) =~= data@.take(i + 1));
                assert(s@ =~= seq!['['] + bytes_debug_items(data@.take(i + 1)));
            }
        }
        i += 1;
    }
    string_push(&mut s, ']');
    proof {
        if n == 0 {
            assert(s@ =~= bytes_debug_of(data@));
        } else {
            assert(data@.take(n as int) =~= data@);
            assert(s@ =~= bytes_debug_of(data@));
        }
    }
    s
}

} // verus!
