//! Identifiers: 128-bit UUIDs and their canonical on-disk names.
use vstd::prelude::*;

verus! {

/// The sixteen lower-case hexadecimal digits, by value.
pub open spec fn hex_alphabet() -> Seq<char> {
    seq!['0', '1', '2', '3', '4', '5', '6', '7', '8', '9', 'a', 'b', 'c', 'd', 'e', 'f']
}

/// The lower-case hexadecimal digit of a value below 16.
pub open spec fn hex_char(d: nat) -> char {
    hex_alphabet()[d as int]
}

/// The last `n` hexadecimal digits of `v`, most significant first.
pub open spec fn hex_digits(v: nat, n: nat) -> Seq<char>
    decreases n,
{
    if n == 0 {
        Seq::empty()
    } else {
        hex_digits(v / 16, (n - 1) as nat).push(hex_char(v % 16))
    }
}

/// The last `n` hexadecimal digits of `v` in upper case, most significant
/// first.
pub open spec fn hex_digits_upper(v: nat, n: nat) -> Seq<char>
    decreases n,
{
    if n == 0 {
        Seq::empty()
    } else {
        hex_digits_upper(v / 16, (n - 1) as nat).push(
            seq!['0', '1', '2', '3', '4', '5', '6', '7', '8', '9', 'A', 'B', 'C', 'D', 'E', 'F'][(v % 16) as int],
        )
    }
}

pub open spec fn pow16(n: nat) -> nat
    decreases n,
{
    if n == 0 {
        1
    } else {
        16 * pow16((n - 1) as nat)
    }
}

/// The canonical name of an identifier: 32 lower-case hexadecimal digits,
/// big-endian, without separators.
pub open spec fn canonical_name_spec(id: u128) -> Seq<char> {
    hex_digits(id as nat, 32)
}

/// The simple form of an identifier with upper-case digits.
pub open spec fn upper_name_spec(id: u128) -> Seq<char> {
    hex_digits_upper(id as nat, 32)
}

/// What the UUID parser makes of a string (hyphenated, simple, braced or URN
/// form, digits in either case), or `None` where it is not a UUID.
pub uninterp spec fn parsed_identifier(s: Seq<char>) -> Option<u128>;

/// Relies on `uuid::Uuid::try_parse`: the result depends on the text alone, and
/// the simple form of an identifier, in lower or upper case, parses back to
/// that identifier.
#[verifier::external_body]
pub(crate) fn parse_identifier(s: &str) -> (r: Option<u128>)
    ensures
        r == parsed_identifier(s@),
        forall|v: u128| s@ == #[trigger] canonical_name_spec(v) ==> r == Some(v),
        forall|v: u128| s@ == #[trigger] upper_name_spec(v) ==> r == Some(v),
{
    uuid::Uuid::try_parse(s).ok().map(|u| u.as_u128())
}

/// Relies on `uuid::fmt::Simple::encode_lower`: the 32 lower-case hexadecimal
/// digits of the identifier, most significant first.
#[verifier::external_body]
pub(crate) fn canonical_name(id: u128) -> (r: String)
    ensures
        r@ == canonical_name_spec(id),
{
    let mut buffer = uuid::Uuid::encode_buffer();
    uuid::Uuid::from_u128(id).simple().encode_lower(&mut buffer).to_string()
}

proof fn lemma_hex_char_injective(a: nat, b: nat)
    requires
        a < 16,
        b < 16,
        hex_char(a) == hex_char(b),
    ensures
        a == b,
{
    let h = hex_alphabet();
    assert(h[0] == '0' && h[1] == '1' && h[2] == '2' && h[3] == '3' && h[4] == '4' && h[5] == '5'
        && h[6] == '6' && h[7] == '7' && h[8] == '8' && h[9] == '9' && h[10] == 'a' && h[11] == 'b'
        && h[12] == 'c' && h[13] == 'd' && h[14] == 'e' && h[15] == 'f');
}

proof fn lemma_hex_digits_len(v: nat, n: nat)
    ensures
        hex_digits(v, n).len() == n,
    decreases n,
{
    if n > 0 {
        lemma_hex_digits_len(v / 16, (n - 1) as nat);
    }
}

proof fn lemma_hex_digits_injective(a: nat, b: nat, n: nat)
    requires
        a < pow16(n),
        b < pow16(n),
        hex_digits(a, n) == hex_digits(b, n),
    ensures
        a == b,
    decreases n,
{
    if n > 0 {
        let m = (n - 1) as nat;
        lemma_hex_digits_len(a / 16, m);
        lemma_hex_digits_len(b / 16, m);
        let sa = hex_digits(a, n);
        assert(sa.last() == hex_char(a % 16));
        assert(hex_digits(b, n).last() == hex_char(b % 16));
        lemma_hex_char_injective(a % 16, b % 16);
        assert(hex_digits(a / 16, m) =~= sa.drop_last());
        assert(hex_digits(b / 16, m) =~= hex_digits(b, n).drop_last());
        assert(a / 16 < pow16(m)) by (nonlinear_arith)
            requires a < pow16(n), pow16(n) == 16 * pow16(m);
        assert(b / 16 < pow16(m)) by (nonlinear_arith)
            requires b < pow16(n), pow16(n) == 16 * pow16(m);
        lemma_hex_digits_injective(a / 16, b / 16, m);
        assert(a == 16 * (a / 16) + a % 16);
        assert(b == 16 * (b / 16) + b % 16);
    } else {
        assert(a == 0 && b == 0);
    }
}

/// A canonical name has 32 characters.
pub proof fn lemma_canonical_name_len(id: u128)
    ensures
        canonical_name_spec(id).len() == 32,
{
    lemma_hex_digits_len(id as nat, 32);
}

/// Distinct identifiers have distinct canonical names.
pub proof fn lemma_canonical_name_injective(a: u128, b: u128)
    requires
        a != b,
    ensures
        canonical_name_spec(a) != canonical_name_spec(b),
{
    reveal_with_fuel(pow16, 33);
    assert(pow16(32) == 0x1_0000_0000_0000_0000_0000_0000_0000_0000nat);
    if canonical_name_spec(a) == canonical_name_spec(b) {
        lemma_hex_digits_injective(a as nat, b as nat, 32);
    }
}

} // verus!
