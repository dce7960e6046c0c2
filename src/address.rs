use crypto::digest::Digest;
use std::cmp::Ordering;
use vstd::arithmetic::power::pow;
use vstd::arithmetic::power2::{lemma_pow2, lemma_pow2_unfold, pow2};
use vstd::prelude::*;

verus! {

/// Number of bits in an identifier.
pub const LENGTH: usize = 160;

/// Number of bytes in an identifier.
pub const BYTES: usize = 20;

/// A fixed-width 160-bit identifier naming a peer or a piece of content.
#[derive(Clone, Copy, Debug, Hash, Eq)]
pub struct Address {
    pub data: [u8; 20],
}

impl PartialEq for Address {
    fn eq(&self, other: &Address) -> (r: bool)
        ensures
            r == (self.data@ == other.data@),
    {
        let mut i: usize = 0;
        while i < BYTES
            invariant
                i <= BYTES,
                forall|j: int| 0 <= j < i ==> self.data@[j] == other.data@[j],
            decreases BYTES - i,
        {
            if self.data[i] != other.data[i] {
                return false;
            }
            i = i + 1;
        }
        assert(self.data@ =~= other.data@);
        true
    }
}

impl vstd::std_specs::cmp::PartialEqSpecImpl for Address {
    open spec fn obeys_eq_spec() -> bool {
        true
    }

    open spec fn eq_spec(&self, other: &Address) -> bool {
        self.data@ == other.data@
    }
}

/// A bit is 0 or 1.
pub proof fn lemma_bit_values(s: Seq<u8>, i: int)
    requires
        0 <= i < 8 * s.len(),
    ensures
        bit_at(s, i) == 0 || bit_at(s, i) == 1,
{
    let x = s[i / 8];
    let k = (7 - i % 8) as u8;
    assert((x >> k) & 1u8 == 0u8 || (x >> k) & 1u8 == 1u8) by (bit_vector);
}

/// The first `n` bits' value depends on those bits alone.
proof fn lemma_bits_value_prefix(a: Seq<u8>, b: Seq<u8>, n: int)
    requires
        0 <= n,
        same_prefix(a, b, n),
    ensures
        bits_value(a, n) == bits_value(b, n),
    decreases n,
{
    if n > 0 {
        assert(bit_at(a, n - 1) == bit_at(b, n - 1));
        lemma_bits_value_prefix(a, b, n - 1);
    }
}

/// Two bit strings have the same value exactly when they have the same bits.
pub proof fn lemma_bits_value_injective(a: Seq<u8>, b: Seq<u8>, n: int)
    requires
        0 <= n <= 8 * a.len(),
        0 <= n <= 8 * b.len(),
    ensures
        (bits_value(a, n) == bits_value(b, n)) == same_prefix(a, b, n),
    decreases n,
{
    if n > 0 {
        lemma_bits_value_injective(a, b, n - 1);
        lemma_bit_values(a, n - 1);
        lemma_bit_values(b, n - 1);
        let va = bits_value(a, n - 1);
        let vb = bits_value(b, n - 1);
        let x = bit_at(a, n - 1) as nat;
        let y = bit_at(b, n - 1) as nat;
        assert(va * 2 + x == vb * 2 + y && x <= 1 && y <= 1 ==> va == vb && x == y)
            by (nonlinear_arith);
        if same_prefix(a, b, n) {
            assert(bit_at(a, n - 1) == bit_at(b, n - 1));
            assert(same_prefix(a, b, n - 1));
        }
        if bits_value(a, n) == bits_value(b, n) {
            assert forall|i: int| 0 <= i < n implies #[trigger] bit_at(a, i) == bit_at(b, i) by {
                if i < n - 1 {
                    assert(same_prefix(a, b, n - 1));
                }
            }
        }
    } else {
        assert(same_prefix(a, b, n));
    }
}

/// The value of `N` bits lies within the block of width 2^(N - n) that the
/// value of their first `n` bits picks.
pub proof fn lemma_bits_value_block(s: Seq<u8>, n: int, big_n: int)
    requires
        0 <= n <= big_n <= 8 * s.len(),
    ensures
        bits_value(s, n) * pow2((big_n - n) as nat) <= bits_value(s, big_n),
        bits_value(s, big_n) < (bits_value(s, n) + 1) * pow2((big_n - n) as nat),
    decreases big_n - n,
{
    if big_n == n {
        assert(pow2(0) == 1) by {
            lemma_pow2(0);
            reveal(pow);
        }
    } else {
        lemma_bits_value_block(s, n, big_n - 1);
        lemma_bit_values(s, big_n - 1);
        let v = bits_value(s, n);
        let w = pow2((big_n - 1 - n) as nat);
        let u = bits_value(s, big_n - 1);
        let b = bit_at(s, big_n - 1) as nat;
        lemma_pow2_unfold((big_n - n) as nat);
        assert(pow2((big_n - n) as nat) == 2 * w);
        assert(v * (2 * w) <= u * 2 + b && u * 2 + b < (v + 1) * (2 * w)) by (nonlinear_arith)
            requires
                v * w <= u,
                u < (v + 1) * w,
                b <= 1,
        ;
    }
}

proof fn lemma_byte_step(x: u8, j: u8)
    requires
        j < 8,
    ensures
        (x >> ((7 - j) as u8)) as nat == ((x >> ((8 - j) as u8)) as nat) * 2 + ((x >> ((7
            - j) as u8)) & 1u8) as nat,
{
    assert(j < 8 ==> (x >> ((8 - j) as u8)) < 128u8) by (bit_vector);
    assert(j < 8 ==> (x >> ((7 - j) as u8)) == (x >> ((8 - j) as u8)) * 2u8 + ((x >> ((7 - j) as u8))
        & 1u8)) by (bit_vector);
}

proof fn lemma_bits_in_byte(s: Seq<u8>, m: int, j: int)
    requires
        0 <= m < s.len(),
        0 <= j <= 8,
    ensures
        bits_value(s, 8 * m + j) == bits_value(s, 8 * m) * pow2(j as nat) + (s[m] >> ((8
            - j) as u8)) as nat,
    decreases j,
{
    let x = s[m];
    if j == 0 {
        assert(x >> 8u8 == 0u8) by (bit_vector);
        assert(pow2(0) == 1) by {
            lemma_pow2(0);
            reveal(pow);
        }
    } else {
        lemma_bits_in_byte(s, m, j - 1);
        let i = 8 * m + j - 1;
        assert(i / 8 == m && i % 8 == j - 1) by (nonlinear_arith)
            requires
                i == 8 * m + j - 1,
                1 <= j <= 8,
        ;
        assert(bit_at(s, i) == (x >> ((7 - (j - 1)) as u8)) & 1u8);
        lemma_byte_step(x, (j - 1) as u8);
        lemma_pow2_unfold(j as nat);
        let v = bits_value(s, 8 * m);
        let w = pow2((j - 1) as nat);
        let lo = (x >> ((8 - (j - 1)) as u8)) as nat;
        let b = ((x >> ((7 - (j - 1)) as u8)) & 1u8) as nat;
        assert((v * w + lo) * 2 + b == v * (2 * w) + (lo * 2 + b)) by (nonlinear_arith);
        assert(bits_value(s, 8 * m + j) == bits_value(s, i) * 2 + bit_at(s, i) as nat);
        assert(bits_value(s, i) == v * w + lo);
        assert(bit_at(s, i) as nat == b);
        assert((x >> ((8 - j) as u8)) as nat == lo * 2 + b);
        assert(pow2(j as nat) == 2 * w);
    }
}

/// The big-endian value of a byte string is the value of all its bits.
pub proof fn lemma_be_value_bits(s: Seq<u8>)
    ensures
        be_value(s) == bits_value(s, 8 * s.len() as int),
    decreases s.len(),
{
    if s.len() > 0 {
        let s2 = s.drop_last();
        let m = s.len() - 1;
        lemma_be_value_bits(s2);
        assert forall|i: int| 0 <= i < 8 * m implies #[trigger] bit_at(s, i) == bit_at(s2, i) by {
            assert(i / 8 < m) by (nonlinear_arith)
                requires
                    0 <= i < 8 * m,
            ;
            assert(s[i / 8] == s2[i / 8]);
        }
        lemma_bits_value_prefix(s, s2, 8 * m);
        lemma_bits_in_byte(s, m, 8);
        assert(pow2(8) == 256) by {
            vstd::arithmetic::power2::lemma2_to64();
        }
        assert(s[m] >> 0u8 == s[m]) by {
            let x = s[m];
            assert(x >> 0u8 == x) by (bit_vector);
        }
        assert(8 * m + 8 == 8 * s.len());
    }
}

/// Identifiers with the same bytes are the same identifier.
pub proof fn lemma_address_ext(a: Address, b: Address)
    requires
        a.data@ == b.data@,
    ensures
        a == b,
{
    broadcast use vstd::array::group_array_axioms;
    assert forall|i: int| 0 <= i < 20 implies a.data[i] == b.data[i] by {
        assert(a.data@[i] == b.data@[i]);
    }
    assert(a.data =~= b.data);
}

/// The unsigned integer that a byte string denotes when read big-endian.
pub open spec fn be_value(s: Seq<u8>) -> nat
    decreases s.len(),
{
    if s.len() == 0 {
        0
    } else {
        be_value(s.drop_last()) * 256 + s.last() as nat
    }
}

/// Bytewise exclusive or of two identifiers.
pub open spec fn xor_bytes(a: Seq<u8>, b: Seq<u8>) -> Seq<u8> {
    Seq::new(a.len(), |i: int| a[i] ^ b[i])
}

/// XOR distance between two identifiers, as an unsigned integer.
pub open spec fn distance(a: Address, b: Address) -> nat {
    be_value(xor_bytes(a.data@, b.data@))
}

/// Bit `i` of an identifier, counting from the most significant bit.
pub open spec fn bit_at(s: Seq<u8>, i: int) -> u8 {
    (s[i / 8] >> ((7 - i % 8) as u8)) & 1u8
}

/// The unsigned integer that the first `n` bits of `s` denote.
pub open spec fn bits_value(s: Seq<u8>, n: int) -> nat
    decreases n,
{
    if n <= 0 {
        0
    } else {
        bits_value(s, n - 1) * 2 + bit_at(s, n - 1) as nat
    }
}

/// Whether `a` and `b` agree on their first `n` bits.
pub open spec fn same_prefix(a: Seq<u8>, b: Seq<u8>, n: int) -> bool {
    forall|i: int| 0 <= i < n ==> #[trigger] bit_at(a, i) == bit_at(b, i)
}

/// A byte string compares below another of the same length, lexicographically,
/// exactly when its big-endian value is smaller.
pub proof fn lemma_lex_less(s: Seq<u8>, t: Seq<u8>, i: int)
    requires
        s.len() == t.len(),
        0 <= i < s.len(),
        forall|j: int| 0 <= j < i ==> s[j] == t[j],
        s[i] < t[i],
    ensures
        be_value(s) < be_value(t),
    decreases s.len(),
{
    let n = s.len() as int;
    let s2 = s.drop_last();
    let t2 = t.drop_last();
    if i == n - 1 {
        assert(s2 =~= t2);
    } else {
        lemma_lex_less(s2, t2, i);
        let a = be_value(s2);
        let b = be_value(t2);
        let x = s.last() as nat;
        let y = t.last() as nat;
        assert(a * 256 + x < b * 256 + y) by (nonlinear_arith)
            requires
                a < b,
                x < 256,
        ;
    }
}

/// Byte strings of one length with equal big-endian values are equal.
pub proof fn lemma_value_injective(s: Seq<u8>, t: Seq<u8>)
    requires
        s.len() == t.len(),
        be_value(s) == be_value(t),
    ensures
        s == t,
{
    if s != t {
        assert(!(s =~= t));
        let i = choose|i: int| 0 <= i < s.len() && s[i] != t[i];
        lemma_first_difference(s, t, i);
    }
}

proof fn lemma_first_difference(s: Seq<u8>, t: Seq<u8>, i: int)
    requires
        s.len() == t.len(),
        0 <= i < s.len(),
        s[i] != t[i],
    ensures
        be_value(s) != be_value(t),
    decreases i,
{
    if exists|j: int| 0 <= j < i && s[j] != t[j] {
        let j = choose|j: int| 0 <= j < i && s[j] != t[j];
        lemma_first_difference(s, t, j);
    } else if s[i] < t[i] {
        lemma_lex_less(s, t, i);
    } else {
        lemma_lex_less(t, s, i);
    }
}

/// A byte string has big-endian value zero exactly when all its bytes are zero.
pub proof fn lemma_value_zero(s: Seq<u8>)
    ensures
        (be_value(s) == 0) == (forall|i: int| 0 <= i < s.len() ==> s[i] == 0),
    decreases s.len(),
{
    if s.len() > 0 {
        lemma_value_zero(s.drop_last());
        let a = be_value(s.drop_last());
        assert(a * 256 + s.last() as nat == 0 ==> a == 0 && s.last() == 0) by (nonlinear_arith);
        if forall|i: int| 0 <= i < s.len() ==> s[i] == 0 {
            assert(s.last() == s[s.len() - 1]);
            assert forall|i: int| 0 <= i < s.drop_last().len() implies s.drop_last()[i] == 0 by {
                assert(s.drop_last()[i] == s[i]);
            }
        }
        if be_value(s) == 0 {
            assert forall|i: int| 0 <= i < s.len() implies s[i] == 0 by {
                if i < s.len() - 1 {
                    assert(s.drop_last()[i] == s[i]);
                }
            }
        }
    }
}

/// The distance from an identifier to itself is zero; distance is symmetric;
/// distinct identifiers are at a positive distance.
pub proof fn lemma_distance_metric(a: Address, b: Address)
    ensures
        distance(a, a) == 0,
        distance(a, b) == distance(b, a),
        a != b ==> distance(a, b) > 0,
{
    let z = xor_bytes(a.data@, a.data@);
    assert forall|i: int| 0 <= i < z.len() implies z[i] == 0 by {
        let x = a.data@[i];
        assert(x ^ x == 0) by (bit_vector);
    }
    lemma_value_zero(z);
    let ab = xor_bytes(a.data@, b.data@);
    let ba = xor_bytes(b.data@, a.data@);
    assert forall|i: int| 0 <= i < ab.len() implies ab[i] == ba[i] by {
        let x = a.data@[i];
        let y = b.data@[i];
        assert(x ^ y == y ^ x) by (bit_vector);
    }
    assert(ab =~= ba);
    if a != b {
        if a.data@ =~= b.data@ {
            lemma_address_ext(a, b);
        }
        let i = choose|i: int| 0 <= i < 20 && a.data@[i] != b.data@[i];
        let x = a.data@[i];
        let y = b.data@[i];
        assert(x != y ==> x ^ y != 0) by (bit_vector);
        assert(ab[i] != 0);
        lemma_value_zero(ab);
    }
}

/// Two identifiers at the same distance from a target are equal.
pub proof fn lemma_distance_injective(a: Address, b: Address, target: Address)
    requires
        distance(a, target) == distance(b, target),
    ensures
        a == b,
{
    let x = xor_bytes(a.data@, target.data@);
    let y = xor_bytes(b.data@, target.data@);
    lemma_value_injective(x, y);
    assert forall|i: int| 0 <= i < 20 implies a.data@[i] == b.data@[i] by {
        let p = a.data@[i];
        let q = b.data@[i];
        let t = target.data@[i];
        assert(x[i] == y[i]);
        assert(p ^ t == q ^ t ==> p == q) by (bit_vector);
    }
    assert(a.data@ =~= b.data@);
    lemma_address_ext(a, b);
}

/// Whether a character is a hexadecimal digit, in either case.
pub open spec fn is_hex_digit(c: char) -> bool {
    ('0' <= c && c <= '9') || ('a' <= c && c <= 'f') || ('A' <= c && c <= 'F')
}

/// The value of a hexadecimal digit.
pub open spec fn hex_value(c: char) -> u8 {
    if '0' <= c && c <= '9' {
        (c as u32 - '0' as u32) as u8
    } else if 'a' <= c && c <= 'f' {
        (c as u32 - 'a' as u32 + 10) as u8
    } else {
        (c as u32 - 'A' as u32 + 10) as u8
    }
}

/// The lowercase hexadecimal digit for a value below 16.
pub open spec fn hex_char(n: u8) -> char {
    if n < 10 {
        (n as u32 + '0' as u32) as char
    } else {
        (n as u32 - 10 + 'a' as u32) as char
    }
}

/// A hexadecimal digit written in lowercase.
pub open spec fn lower_hex_digit(c: char) -> char {
    if 'A' <= c && c <= 'F' {
        (c as u32 - 'A' as u32 + 'a' as u32) as char
    } else {
        c
    }
}

/// Whether every character of `s` is a hexadecimal digit.
pub open spec fn all_hex(s: Seq<char>) -> bool {
    forall|i: int| 0 <= i < s.len() ==> #[trigger] is_hex_digit(s[i])
}

/// The lowercase hexadecimal rendering of a byte string, two digits per byte,
/// high nibble first.
pub open spec fn hex_of(b: Seq<u8>) -> Seq<char> {
    Seq::new(
        2 * b.len(),
        |i: int|
            if i % 2 == 0 {
                hex_char(b[i / 2] >> 4u8)
            } else {
                hex_char(b[i / 2] & 15u8)
            },
    )
}

/// The bytes that a string of hexadecimal digit pairs denotes.
pub open spec fn hex_decode(s: Seq<char>) -> Seq<u8> {
    Seq::new(
        s.len() / 2,
        |i: int| (hex_value(s[2 * i]) * 16 + hex_value(s[2 * i + 1])) as u8,
    )
}

proof fn lemma_hex_digit(c: char)
    requires
        is_hex_digit(c),
    ensures
        hex_value(c) < 16,
        hex_char(hex_value(c)) == lower_hex_digit(c),
{
}

proof fn lemma_hex_char(n: u8)
    requires
        n < 16,
    ensures
        is_hex_digit(hex_char(n)),
        hex_value(hex_char(n)) == n,
        lower_hex_digit(hex_char(n)) == hex_char(n),
{
}

/// Rendering a string of hexadecimal digit pairs after decoding it gives the
/// same digits, in lowercase.
pub proof fn lemma_hex_round_trip(s: Seq<char>)
    requires
        s.len() % 2 == 0,
        all_hex(s),
    ensures
        hex_of(hex_decode(s)) == s.map_values(|c: char| lower_hex_digit(c)),
{
    let d = hex_decode(s);
    let h = hex_of(d);
    assert forall|i: int| 0 <= i < s.len() implies h[i] == lower_hex_digit(s[i]) by {
        let k = i / 2;
        assert(is_hex_digit(s[2 * k]));
        assert(is_hex_digit(s[2 * k + 1]));
        lemma_hex_digit(s[2 * k]);
        lemma_hex_digit(s[2 * k + 1]);
        let hi = hex_value(s[2 * k]);
        let lo = hex_value(s[2 * k + 1]);
        let b = d[k];
        assert(b == (hi * 16 + lo) as u8);
        assert(hi < 16 && lo < 16 ==> ((hi * 16 + lo) as u8) >> 4u8 == hi) by (bit_vector);
        assert(hi < 16 && lo < 16 ==> ((hi * 16 + lo) as u8) & 15u8 == lo) by (bit_vector);
    }
    assert(h =~= s.map_values(|c: char| lower_hex_digit(c)));
}

/// Decoding the hexadecimal rendering of a byte string gives back the bytes.
pub proof fn lemma_bytes_round_trip(b: Seq<u8>)
    ensures
        all_hex(hex_of(b)),
        hex_decode(hex_of(b)) == b,
{
    let h = hex_of(b);
    assert forall|i: int| 0 <= i < h.len() implies #[trigger] is_hex_digit(h[i]) by {
        let x = b[i / 2];
        assert(x >> 4u8 < 16u8) by (bit_vector);
        assert(x & 15u8 < 16u8) by (bit_vector);
        lemma_hex_char(x >> 4u8);
        lemma_hex_char(x & 15u8);
    }
    let d = hex_decode(h);
    assert forall|k: int| 0 <= k < b.len() implies d[k] == b[k] by {
        let x = b[k];
        assert(x >> 4u8 < 16u8) by (bit_vector);
        assert(x & 15u8 < 16u8) by (bit_vector);
        lemma_hex_char(x >> 4u8);
        lemma_hex_char(x & 15u8);
        assert((2 * k) / 2 == k);
        assert((2 * k + 1) / 2 == k);
        assert(((x >> 4u8) * 16 + (x & 15u8)) as u8 == x) by (bit_vector);
    }
    assert(d =~= b);
}

/// The identifier was not exactly forty hexadecimal digits.
#[derive(Clone, Copy, Debug, PartialEq, Eq, Structural)]
pub struct MalformedIdentifier;

/// What SHA-1 makes of the UTF-8 encoding of a string.
pub uninterp spec fn sha1_digest(s: Seq<char>) -> Seq<u8>;

/// Relies on rust-crypto's `Sha1` digest: the 20-byte SHA-1 of the string's
/// bytes, which depends on the string alone.
#[verifier::external_body]
fn sha1(content: &str) -> (r: [u8; 20])
    ensures
        r@ == sha1_digest(content@),
{
    let mut hasher = crypto::sha1::Sha1::new();
    hasher.input_str(content);
    let mut data = [0u8; 20];
    hasher.result(&mut data);
    data
}

/// Relies on rustc-serialize's `ToHex` for byte slices: two lowercase digits
/// per byte, high nibble first.
#[verifier::external_body]
fn hex_encode(data: &[u8; 20]) -> (r: String)
    ensures
        r@ == hex_of(data@),
{
    rustc_serialize::hex::ToHex::to_hex(&data[..])
}

#[verifier::external_type_specification]
#[verifier::external_body]
pub struct ExFromHexError(rustc_serialize::hex::FromHexError);

/// Relies on rustc-serialize's `FromHex` for str: a string made only of
/// hexadecimal digits, of even length, decodes pair by pair, high nibble first.
#[verifier::external_body]
fn hex_decode_str(s: &str) -> (r: Result<Vec<u8>, rustc_serialize::hex::FromHexError>)
    ensures
        all_hex(s@) && s@.len() % 2 == 0 ==> r is Ok && r->Ok_0@ == hex_decode(s@),
{
    rustc_serialize::hex::FromHex::from_hex(s)
}

/// Whether a character is a hexadecimal digit.
fn hex_digit(c: char) -> (r: bool)
    ensures
        r == is_hex_digit(c),
{
    ('0' <= c && c <= '9') || ('a' <= c && c <= 'f') || ('A' <= c && c <= 'F')
}

impl Address {
    /// The identifier derived from a piece of content by SHA-1.
    pub fn for_content(content: &str) -> (r: Address)
        ensures
            r.data@ == sha1_digest(content@),
    {
        Address { data: sha1(content) }
    }

    /// Parses exactly forty hexadecimal digits, in either case.
    pub fn from_str(string: &str) -> (r: Result<Address, MalformedIdentifier>)
        ensures
            r is Ok <==> (string@.len() == 40 && all_hex(string@)),
            r is Ok ==> r->Ok_0.data@ == hex_decode(string@),
    {
        let n = string.unicode_len();
        if n != 40 {
            return Err(MalformedIdentifier);
        }
        let mut i: usize = 0;
        while i < n
            invariant
                n == string@.len(),
                i <= n,
                forall|j: int| 0 <= j < i ==> is_hex_digit(#[trigger] string@[j]),
            decreases n - i,
        {
            if !hex_digit(string.get_char(i)) {
                return Err(MalformedIdentifier);
            }
            i = i + 1;
        }
        match hex_decode_str(string) {
            Ok(bytes) => {
                let mut data = [0u8; 20];
                let mut k: usize = 0;
                while k < BYTES
                    invariant
                        bytes@ == hex_decode(string@),
                        bytes@.len() == 20,
                        k <= BYTES,
                        forall|j: int| 0 <= j < k ==> data@[j] == bytes@[j],
                    decreases BYTES - k,
                {
                    data[k] = bytes[k];
                    k = k + 1;
                }
                assert(data@ =~= bytes@);
                Ok(Address { data })
            },
            Err(_) => Err(MalformedIdentifier),
        }
    }

    /// The identifier as forty lowercase hexadecimal digits.
    pub fn to_str(&self) -> (r: String)
        ensures
            r@ == hex_of(self.data@),
    {
        hex_encode(&self.data)
    }

    /// The all-zero identifier, which anonymous bootstrap peers carry.
    pub fn null() -> (r: Address)
        ensures
            forall|i: int| 0 <= i < 20 ==> r.data@[i] == 0,
    {
        Address { data: [0u8; 20] }
    }

    /// Bit `i` of the identifier, counting from the most significant bit.
    pub fn bit(&self, i: usize) -> (r: u8)
        requires
            i < LENGTH,
        ensures
            r == bit_at(self.data@, i as int),
    {
        (self.data[i / 8] >> ((7 - i % 8) as u8)) & 1u8
    }

    /// The bytewise XOR of two identifiers, whose big-endian value is their distance.
    pub fn distance_from(&self, other: &Address) -> (r: [u8; 20])
        ensures
            r@ == xor_bytes(self.data@, other.data@),
            be_value(r@) == distance(*self, *other),
    {
        let mut out = [0u8; 20];
        let mut k: usize = 0;
        while k < BYTES
            invariant
                k <= BYTES,
                forall|j: int| 0 <= j < k ==> out@[j] == self.data@[j] ^ other.data@[j],
            decreases BYTES - k,
        {
            out[k] = self.data[k] ^ other.data[k];
            k = k + 1;
        }
        assert(out@ =~= xor_bytes(self.data@, other.data@));
        out
    }

    /// Orders `a` and `b` by their XOR distance to this identifier.
    pub fn compare_distances(&self, a: &Address, b: &Address) -> (r: Ordering)
        ensures
            (r == Ordering::Less) == (distance(*a, *self) < distance(*b, *self)),
            (r == Ordering::Equal) == (distance(*a, *self) == distance(*b, *self)),
            (r == Ordering::Greater) == (distance(*a, *self) > distance(*b, *self)),
    {
        let ghost xa = xor_bytes(a.data@, self.data@);
        let ghost xb = xor_bytes(b.data@, self.data@);
        let mut k: usize = 0;
        while k < BYTES
            invariant
                k <= BYTES,
                xa == xor_bytes(a.data@, self.data@),
                xb == xor_bytes(b.data@, self.data@),
                forall|j: int| 0 <= j < k ==> xa[j] == xb[j],
            decreases BYTES - k,
        {
            let x = a.data[k] ^ self.data[k];
            let y = b.data[k] ^ self.data[k];
            if x < y {
                proof {
                    lemma_lex_less(xa, xb, k as int);
                }
                return Ordering::Less;
            }
            if x > y {
                proof {
                    lemma_lex_less(xb, xa, k as int);
                }
                return Ordering::Greater;
            }
            k = k + 1;
        }
        assert(xa =~= xb);
        Ordering::Equal
    }
}

} // verus!
