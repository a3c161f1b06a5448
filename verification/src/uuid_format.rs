//! The hyphenated hexadecimal text form of a 128-bit identifier value.
//!
//! The database form of an identifier is exactly 36 characters: 32 hex
//! digits in five groups of 8, 4, 4, 4 and 12, separated by hyphens.
//! Parsing accepts both upper- and lower-case digits; rendering always
//! produces lower-case digits.

use vstd::arithmetic::div_mod::{
    lemma_div_denominator, lemma_fundamental_div_mod, lemma_div_is_ordered,
};
use vstd::arithmetic::mul::lemma_mul_strict_inequality;
use vstd::prelude::*;

use crate::error::IdError;

verus! {

/// 16 to the power `k`.
pub open spec fn pow16(k: nat) -> nat
    decreases k,
{
    if k == 0 {
        1
    } else {
        16 * pow16((k - 1) as nat)
    }
}

/// The numeric value of a hex digit character, either case, or -1 if the
/// character is no hex digit.
pub open spec fn hex_char_val(c: char) -> int {
    let u = c as int;
    if 48 <= u && u <= 57 {
        u - 48
    } else if 97 <= u && u <= 102 {
        u - 87
    } else if 65 <= u && u <= 70 {
        u - 55
    } else {
        -1
    }
}

/// Whether `c` is a hex digit, in either case.
pub open spec fn is_hex_char(c: char) -> bool {
    hex_char_val(c) >= 0
}

/// The canonical lower-case hex digit character for a value in `0..16`.
pub open spec fn lower_hex_char(d: int) -> char {
    if d == 0 { '0' } else if d == 1 { '1' } else if d == 2 { '2' } else if d == 3 { '3' }
    else if d == 4 { '4' } else if d == 5 { '5' } else if d == 6 { '6' } else if d == 7 { '7' }
    else if d == 8 { '8' } else if d == 9 { '9' } else if d == 10 { 'a' } else if d == 11 { 'b' }
    else if d == 12 { 'c' } else if d == 13 { 'd' } else if d == 14 { 'e' } else if d == 15 { 'f' }
    else { '?' }
}

/// The four text positions that hold a hyphen.
pub open spec fn is_hyphen_pos(i: int) -> bool {
    i == 8 || i == 13 || i == 18 || i == 23
}

/// How many hex-digit positions lie strictly before text position `i`.
pub open spec fn nibs_before(i: int) -> int {
    if i <= 8 {
        i
    } else if i <= 13 {
        i - 1
    } else if i <= 18 {
        i - 2
    } else if i <= 23 {
        i - 3
    } else {
        i - 4
    }
}

/// The text position of hex digit number `k` (most significant first).
pub open spec fn pos_of_nib(k: int) -> int {
    if k < 8 {
        k
    } else if k < 12 {
        k + 1
    } else if k < 16 {
        k + 2
    } else if k < 20 {
        k + 3
    } else {
        k + 4
    }
}

/// Hex digit number `k` of the value `v`, most significant first.
pub open spec fn nibble(v: u128, k: int) -> int {
    (((v as nat) / pow16((31 - k) as nat)) % 16) as int
}

/// The canonical (lower-case) 36-character database text of the value `v`.
pub open spec fn db_chars(v: u128) -> Seq<char> {
    Seq::new(
        36,
        |i: int|
            if is_hyphen_pos(i) {
                '-'
            } else {
                lower_hex_char(nibble(v, nibs_before(i)))
            },
    )
}

/// What must hold of character `i` of a well-formed database text.
pub open spec fn db_char_ok(s: Seq<char>, i: int) -> bool {
    if is_hyphen_pos(i) {
        s[i] == '-'
    } else {
        is_hex_char(s[i])
    }
}

/// Whether `s` is a well-formed hyphenated 128-bit value, in either case.
pub open spec fn is_db_text(s: Seq<char>) -> bool {
    &&& s.len() == 36
    &&& forall|i: int| 0 <= i < 36 ==> #[trigger] db_char_ok(s, i)
}

/// The value of the first `n` hex digits of the text `s`.
pub open spec fn value_prefix(s: Seq<char>, n: int) -> int
    decreases n,
{
    if n <= 0 {
        0
    } else {
        16 * value_prefix(s, n - 1) + hex_char_val(s[pos_of_nib(n - 1)])
    }
}

/// The 128-bit value a well-formed database text denotes.
pub open spec fn db_text_value(s: Seq<char>) -> int {
    value_prefix(s, 32)
}

/// `pow16` is positive.
pub proof fn lemma_pow16_pos(a: nat)
    ensures
        0 < pow16(a),
    decreases a,
{
    if a > 0 {
        lemma_pow16_pos((a - 1) as nat);
    }
}

/// `pow16` grows with its exponent.
pub proof fn lemma_pow16_le(a: nat, b: nat)
    requires
        a <= b,
    ensures
        0 < pow16(a) <= pow16(b),
    decreases b,
{
    lemma_pow16_pos(a);
    if a < b {
        lemma_pow16_le(a, (b - 1) as nat);
        assert(pow16(b) == 16 * pow16((b - 1) as nat));
    }
}

/// Powers of 16 multiply when their exponents add.
pub proof fn lemma_pow16_add(a: nat, b: nat)
    ensures
        pow16(a + b) == pow16(a) * pow16(b),
    decreases a,
{
    if a == 0 {
        vstd::arithmetic::mul::lemma_mul_basics(pow16(b) as int);
    } else {
        lemma_pow16_add((a - 1) as nat, b);
        assert(pow16(a + b) == 16 * pow16(((a - 1) as nat + b) as nat));
        assert(pow16(a + b) == 16 * (pow16((a - 1) as nat) * pow16(b)));
        vstd::arithmetic::mul::lemma_mul_is_associative(16, pow16((a - 1) as nat) as int, pow16(b) as int);
        assert(pow16(a) == 16 * pow16((a - 1) as nat));
        assert(pow16(a + b) == (16 * pow16((a - 1) as nat)) * pow16(b));
        assert(pow16(a + b) == pow16(a) * pow16(b));
    }
}

/// 16^32 is exactly one more than the largest 128-bit value.
pub proof fn lemma_pow16_32()
    ensures
        pow16(32) == 0x100000000000000000000000000000000,
{
    assert(pow16(0) == 1);
    assert(pow16(1) == 16);
    assert(pow16(2) == 256);
    lemma_pow16_add(2, 2);
    assert(pow16(4) == 0x10000);
    lemma_pow16_add(4, 4);
    assert(pow16(8) == 0x100000000);
    lemma_pow16_add(8, 8);
    assert(pow16(16) == 0x10000000000000000);
    lemma_pow16_add(16, 16);
    assert(pow16(32) == 0x100000000000000000000000000000000);
}

/// Computes 16^e.
fn pow16_exec(e: usize) -> (r: u128)
    requires
        e <= 31,
    ensures
        r as nat == pow16(e as nat),
{
    let mut r: u128 = 1;
    let mut j: usize = 0;
    while j < e
        invariant
            j <= e <= 31,
            r as nat == pow16(j as nat),
        decreases e - j,
    {
        proof {
            lemma_pow16_le((j + 1) as nat, 31);
            lemma_pow16_32();
            assert(pow16((j + 1) as nat) == 16 * pow16(j as nat));
            assert(16 * pow16(31) == pow16(32));
            assert(16 * (r as nat) <= pow16(31));
        }
        r = r * 16;
        j = j + 1;
    }
    r
}

/// Extracts hex digit number `k` of `v`, most significant first.
fn nibble_exec(v: u128, k: usize) -> (d: u8)
    requires
        k < 32,
    ensures
        d as int == nibble(v, k as int),
        d < 16,
{
    let p = pow16_exec(31 - k);
    proof {
        lemma_pow16_le(0, (31 - k) as nat);
    }
    ((v / p) % 16) as u8
}

/// The numeric value of a hex digit character, or `None` for any other
/// character.
fn hex_val_exec(c: char) -> (r: Option<u8>)
    ensures
        r is Some <==> is_hex_char(c),
        r is Some ==> r->0 as int == hex_char_val(c) && r->0 < 16,
{
    let u = c as u32;
    if 48 <= u && u <= 57 {
        Some((u - 48) as u8)
    } else if 97 <= u && u <= 102 {
        Some((u - 87) as u8)
    } else if 65 <= u && u <= 70 {
        Some((u - 55) as u8)
    } else {
        None
    }
}

/// The one-character string holding the canonical lower-case hex digit for
/// a value in `0..16`.
fn hex_lit(d: u8) -> (r: &'static str)
    requires
        d < 16,
    ensures
        r@.len() == 1,
        r@[0] == lower_hex_char(d as int),
{
    proof {
        reveal_strlit("0");
        reveal_strlit("1");
        reveal_strlit("2");
        reveal_strlit("3");
        reveal_strlit("4");
        reveal_strlit("5");
        reveal_strlit("6");
        reveal_strlit("7");
        reveal_strlit("8");
        reveal_strlit("9");
        reveal_strlit("a");
        reveal_strlit("b");
        reveal_strlit("c");
        reveal_strlit("d");
        reveal_strlit("e");
        reveal_strlit("f");
    }
    if d == 0 { "0" } else if d == 1 { "1" } else if d == 2 { "2" } else if d == 3 { "3" }
    else if d == 4 { "4" } else if d == 5 { "5" } else if d == 6 { "6" } else if d == 7 { "7" }
    else if d == 8 { "8" } else if d == 9 { "9" } else if d == 10 { "a" } else if d == 11 { "b" }
    else if d == 12 { "c" } else if d == 13 { "d" } else if d == 14 { "e" } else { "f" }
}

/// A hex-digit position lies inside the text, is no hyphen position, and
/// `nibs_before` undoes `pos_of_nib`.
proof fn lemma_pos_of_nib(k: int)
    requires
        0 <= k < 32,
    ensures
        0 <= pos_of_nib(k) < 36,
        !is_hyphen_pos(pos_of_nib(k)),
        nibs_before(pos_of_nib(k)) == k,
{
}

/// `pos_of_nib` undoes `nibs_before` on non-hyphen positions.
proof fn lemma_nib_pos_inverse(i: int)
    requires
        0 <= i < 36,
        !is_hyphen_pos(i),
    ensures
        0 <= nibs_before(i) < 32,
        pos_of_nib(nibs_before(i)) == i,
{
}

/// Earlier hex digits stand at earlier text positions.
proof fn lemma_pos_of_nib_mono(j: int, k: int)
    requires
        0 <= j < k < 32,
    ensures
        pos_of_nib(j) < pos_of_nib(k),
{
}

/// A nibble is a hex-digit value.
proof fn lemma_nibble_range(v: u128, k: int)
    ensures
        0 <= nibble(v, k) < 16,
{
}

/// The canonical digit of a value in `0..16` is a hex digit and reads back
/// as that value.
proof fn lemma_lower_hex_props(d: int)
    requires
        0 <= d < 16,
    ensures
        is_hex_char(lower_hex_char(d)),
        hex_char_val(lower_hex_char(d)) == d,
{
}

/// Canonical digits are ordered exactly as their values.
proof fn lemma_lower_hex_mono(d1: int, d2: int)
    requires
        0 <= d1 < 16,
        0 <= d2 < 16,
    ensures
        d1 < d2 <==> (lower_hex_char(d1) as int) < (lower_hex_char(d2) as int),
{
}

/// One step of base-16 place arithmetic: the quotient by 16^e splits into
/// the quotient by 16^(e+1) and the digit between them.
proof fn lemma_quot_step(v: u128, e: nat)
    ensures
        (((v as nat) / pow16(e)) as int) == 16 * (((v as nat) / pow16((e + 1) as nat)) as int) + (
        (((v as nat) / pow16(e)) % 16) as int),
{
    lemma_pow16_pos(e);
    let q = ((v as nat) / pow16(e)) as int;
    lemma_div_denominator(v as int, pow16(e) as int, 16);
    assert(pow16((e + 1) as nat) == 16 * pow16(e));
    lemma_fundamental_div_mod(q, 16);
}

/// The value of the first `n` canonical digits of `db_chars(v)` is the
/// value `v` shorn of its last `32 - n` digits.
proof fn lemma_value_prefix_db(v: u128, n: int)
    requires
        0 <= n <= 32,
    ensures
        value_prefix(db_chars(v), n) == ((v as nat) / pow16((32 - n) as nat)) as int,
    decreases n,
{
    if n == 0 {
        lemma_pow16_32();
        vstd::arithmetic::div_mod::lemma_basic_div(v as int, pow16(32) as int);
    } else {
        lemma_value_prefix_db(v, n - 1);
        let s = db_chars(v);
        let k = n - 1;
        lemma_pos_of_nib(k);
        lemma_nibble_range(v, k);
        assert(s[pos_of_nib(k)] == lower_hex_char(nibble(v, k)));
        lemma_lower_hex_props(nibble(v, k));
        lemma_quot_step(v, (32 - n) as nat);
        assert((32 - (n - 1)) as nat == ((32 - n) as nat + 1) as nat);
    }
}

/// Rendering a value yields a well-formed text that reads back as the
/// same value.
pub proof fn lemma_db_round_trip(v: u128)
    ensures
        is_db_text(db_chars(v)),
        db_text_value(db_chars(v)) == v as int,
{
    lemma_value_prefix_db(v, 32);
    assert(pow16(0) == 1);
    vstd::arithmetic::div_mod::lemma_div_basics(v as int);
    assert forall|i: int| 0 <= i < 36 implies #[trigger] db_char_ok(db_chars(v), i) by {
        if !is_hyphen_pos(i) {
            lemma_nibble_range(v, nibs_before(i));
            lemma_lower_hex_props(nibble(v, nibs_before(i)));
        }
    }
}

/// Two values with the same first `n` digits have the same quotient by
/// 16^(32-n).
proof fn lemma_equal_nibbles_equal_quot(v1: u128, v2: u128, n: int)
    requires
        0 <= n <= 32,
        forall|j: int| 0 <= j < n ==> #[trigger] nibble(v1, j) == nibble(v2, j),
    ensures
        (v1 as nat) / pow16((32 - n) as nat) == (v2 as nat) / pow16((32 - n) as nat),
    decreases n,
{
    if n == 0 {
        lemma_pow16_32();
        vstd::arithmetic::div_mod::lemma_basic_div(v1 as int, pow16(32) as int);
        vstd::arithmetic::div_mod::lemma_basic_div(v2 as int, pow16(32) as int);
    } else {
        lemma_equal_nibbles_equal_quot(v1, v2, n - 1);
        lemma_quot_step(v1, (32 - n) as nat);
        lemma_quot_step(v2, (32 - n) as nat);
        assert((32 - (n - 1)) as nat == ((32 - n) as nat + 1) as nat);
        assert(nibble(v1, n - 1) == nibble(v2, n - 1));
    }
}

/// If the digits agree before position `k` and digit `k` of `v1` is
/// smaller, then `v1` is smaller.
proof fn lemma_nibble_lt(v1: u128, v2: u128, k: int)
    requires
        0 <= k < 32,
        forall|j: int| 0 <= j < k ==> #[trigger] nibble(v1, j) == nibble(v2, j),
        nibble(v1, k) < nibble(v2, k),
    ensures
        v1 < v2,
{
    lemma_equal_nibbles_equal_quot(v1, v2, k);
    let e = (31 - k) as nat;
    lemma_pow16_pos(e);
    lemma_quot_step(v1, e);
    lemma_quot_step(v2, e);
    assert((32 - k) as nat == (e + 1) as nat);
    let q1 = ((v1 as nat) / pow16(e)) as int;
    let q2 = ((v2 as nat) / pow16(e)) as int;
    assert(q1 < q2);
    if v1 >= v2 {
        lemma_div_is_ordered(v2 as int, v1 as int, pow16(e) as int);
        assert(false);
    }
}

/// The value of the first `n` digits of a well-formed text is below 16^n.
proof fn lemma_value_prefix_bound(s: Seq<char>, n: int)
    requires
        is_db_text(s),
        0 <= n <= 32,
    ensures
        0 <= value_prefix(s, n) < pow16(n as nat),
    decreases n,
{
    if n > 0 {
        lemma_value_prefix_bound(s, n - 1);
        lemma_pos_of_nib(n - 1);
        assert(db_char_ok(s, pos_of_nib(n - 1)));
    }
}

/// The value of a well-formed text, shorn of its last `32 - n` digits,
/// is the value of the first `n` digits.
proof fn lemma_value_quot(s: Seq<char>, v: u128, n: int)
    requires
        is_db_text(s),
        v as int == db_text_value(s),
        0 <= n <= 32,
    ensures
        (((v as nat) / pow16((32 - n) as nat)) as int) == value_prefix(s, n),
    decreases 32 - n,
{
    if n == 32 {
        vstd::arithmetic::div_mod::lemma_div_basics(v as int);
    } else {
        lemma_value_quot(s, v, n + 1);
        lemma_pow16_pos((31 - n) as nat);
        lemma_div_denominator(v as int, pow16((31 - n) as nat) as int, 16);
        assert(pow16((32 - n) as nat) == 16 * pow16((31 - n) as nat));
        lemma_pos_of_nib(n);
        assert(db_char_ok(s, pos_of_nib(n)));
        lemma_value_prefix_bound(s, n);
        vstd::arithmetic::div_mod::lemma_fundamental_div_mod_converse(
            value_prefix(s, n + 1),
            16,
            value_prefix(s, n),
            hex_char_val(s[pos_of_nib(n)]),
        );
    }
}

/// Parsing determines every digit: digit `k` of the parsed value is the
/// value of hex digit `k` of the text.
proof fn lemma_nibble_of_value(s: Seq<char>, v: u128, k: int)
    requires
        is_db_text(s),
        v as int == db_text_value(s),
        0 <= k < 32,
    ensures
        nibble(v, k) == hex_char_val(s[pos_of_nib(k)]),
{
    lemma_value_quot(s, v, k + 1);
    lemma_pos_of_nib(k);
    assert(db_char_ok(s, pos_of_nib(k)));
    lemma_value_prefix_bound(s, k);
    vstd::arithmetic::div_mod::lemma_fundamental_div_mod_converse(
        value_prefix(s, k + 1),
        16,
        value_prefix(s, k),
        hex_char_val(s[pos_of_nib(k)]),
    );
    assert((32 - (k + 1)) as nat == (31 - k) as nat);
}

/// Law: on the database boundary's own output, encode after decode is
/// the identity. A well-formed text whose digits are all canonical
/// (lower-case) renders back from its value unchanged.
pub proof fn lemma_db_encode_decode(s: Seq<char>, v: u128)
    requires
        is_db_text(s),
        v as int == db_text_value(s),
        forall|i: int|
            0 <= i < 36 && !is_hyphen_pos(i) ==> #[trigger] s[i] == lower_hex_char(
                hex_char_val(s[i]),
            ),
    ensures
        db_chars(v) == s,
{
    assert forall|i: int| 0 <= i < 36 implies db_chars(v)[i] == s[i] by {
        if is_hyphen_pos(i) {
            assert(db_char_ok(s, i));
        } else {
            lemma_nib_pos_inverse(i);
            lemma_nibble_of_value(s, v, nibs_before(i));
        }
    }
    assert(db_chars(v) =~= s);
}

/// Strict lexicographic order on character sequences, by code point.
pub open spec fn lex_lt(a: Seq<char>, b: Seq<char>) -> bool
    decreases a.len(),
{
    if b.len() == 0 {
        false
    } else if a.len() == 0 {
        true
    } else if (a[0] as int) < (b[0] as int) {
        true
    } else if a[0] == b[0] {
        lex_lt(a.drop_first(), b.drop_first())
    } else {
        false
    }
}

/// A position where the sequences first differ, the earlier one smaller,
/// witnesses lexicographic order.
pub proof fn lemma_lex_from_witness(a: Seq<char>, b: Seq<char>, i: int)
    requires
        0 <= i < a.len(),
        i < b.len(),
        forall|j: int| 0 <= j < i ==> a[j] == b[j],
        (a[i] as int) < (b[i] as int),
    ensures
        lex_lt(a, b),
    decreases i,
{
    if i == 0 {
    } else {
        lemma_lex_from_witness(a.drop_first(), b.drop_first(), i - 1);
    }
}

/// For sequences of one length, lexicographic order yields a witness
/// position.
pub proof fn lemma_lex_to_witness(a: Seq<char>, b: Seq<char>) -> (i: int)
    requires
        a.len() == b.len(),
        lex_lt(a, b),
    ensures
        0 <= i < a.len(),
        forall|j: int| 0 <= j < i ==> a[j] == b[j],
        (a[i] as int) < (b[i] as int),
    decreases a.len(),
{
    if (a[0] as int) < (b[0] as int) {
        0
    } else {
        let i0 = lemma_lex_to_witness(a.drop_first(), b.drop_first());
        let i = i0 + 1;
        assert forall|j: int| 0 <= j < i implies a[j] == b[j] by {
            if j > 0 {
                assert(a.drop_first()[j - 1] == b.drop_first()[j - 1]);
            }
        }
        i
    }
}

/// Lexicographic order is asymmetric.
pub proof fn lemma_lex_asym(a: Seq<char>, b: Seq<char>)
    requires
        lex_lt(a, b),
    ensures
        !lex_lt(b, a),
    decreases a.len(),
{
    if b.len() == 0 {
    } else if a.len() == 0 {
    } else if (a[0] as int) < (b[0] as int) {
    } else if a[0] == b[0] {
        lemma_lex_asym(a.drop_first(), b.drop_first());
    }
}

/// The position where two distinct same-length sequences first differ.
proof fn lemma_first_diff(a: Seq<char>, b: Seq<char>) -> (i: int)
    requires
        a.len() == b.len(),
        exists|k: int| 0 <= k < a.len() && a[k] != b[k],
    ensures
        0 <= i < a.len(),
        a[i] != b[i],
        forall|j: int| 0 <= j < i ==> a[j] == b[j],
    decreases a.len(),
{
    if a[0] != b[0] {
        0
    } else {
        let k = choose|k: int| 0 <= k < a.len() && a[k] != b[k];
        assert(a.drop_first()[k - 1] != b.drop_first()[k - 1]);
        let i0 = lemma_first_diff(a.drop_first(), b.drop_first());
        let i = i0 + 1;
        assert forall|j: int| 0 <= j < i implies a[j] == b[j] by {
            if j > 0 {
                assert(a.drop_first()[j - 1] == b.drop_first()[j - 1]);
            }
        }
        assert(a[i] == a.drop_first()[i0]);
        i
    }
}

/// Rendering is injective: distinct values render to distinct texts.
proof fn lemma_db_chars_ne(v1: u128, v2: u128)
    requires
        v1 != v2,
    ensures
        exists|k: int| 0 <= k < 36 && db_chars(v1)[k] != db_chars(v2)[k],
{
    if forall|k: int| 0 <= k < 36 ==> #[trigger] db_chars(v1)[k] == db_chars(v2)[k] {
        assert(db_chars(v1) =~= db_chars(v2));
        lemma_db_round_trip(v1);
        lemma_db_round_trip(v2);
        assert(false);
    }
}

/// The raw 128-bit order and the lexicographic order of the canonical
/// database texts agree.
pub proof fn lemma_db_chars_order(v1: u128, v2: u128)
    ensures
        v1 < v2 <==> lex_lt(db_chars(v1), db_chars(v2)),
{
    let a = db_chars(v1);
    let b = db_chars(v2);
    if v1 == v2 {
        lemma_lex_same(a);
    } else {
        lemma_db_chars_ne(v1, v2);
        let i = lemma_first_diff(a, b);
        assert(!is_hyphen_pos(i));
        lemma_nib_pos_inverse(i);
        let k = nibs_before(i);
        lemma_nibble_range(v1, k);
        lemma_nibble_range(v2, k);
        assert forall|j: int| 0 <= j < k implies #[trigger] nibble(v1, j) == nibble(v2, j) by {
            lemma_pos_of_nib(j);
            lemma_pos_of_nib_mono(j, k);
            assert(a[pos_of_nib(j)] == b[pos_of_nib(j)]);
            lemma_nibble_range(v1, j);
            lemma_nibble_range(v2, j);
            lemma_lower_hex_mono(nibble(v1, j), nibble(v2, j));
            lemma_lower_hex_mono(nibble(v2, j), nibble(v1, j));
        }
        lemma_lower_hex_mono(nibble(v1, k), nibble(v2, k));
        lemma_lower_hex_mono(nibble(v2, k), nibble(v1, k));
        assert(nibble(v1, k) != nibble(v2, k));
        if nibble(v1, k) < nibble(v2, k) {
            lemma_nibble_lt(v1, v2, k);
            lemma_lex_from_witness(a, b, i);
        } else {
            lemma_nibble_lt(v2, v1, k);
            lemma_lex_from_witness(b, a, i);
            lemma_lex_asym(b, a);
        }
    }
}

/// A sequence is not lexicographically below itself.
proof fn lemma_lex_same(a: Seq<char>)
    ensures
        !lex_lt(a, a),
    decreases a.len(),
{
    if a.len() > 0 {
        lemma_lex_same(a.drop_first());
    }
}

/// Prepending one common prefix to both sides leaves lexicographic order
/// unchanged.
pub proof fn lemma_lex_append_common(p: Seq<char>, a: Seq<char>, b: Seq<char>)
    ensures
        lex_lt(p + a, p + b) <==> lex_lt(a, b),
    decreases p.len(),
{
    if p.len() == 0 {
        assert(p + a =~= a);
        assert(p + b =~= b);
    } else {
        lemma_lex_append_common(p.drop_first(), a, b);
        assert((p + a).drop_first() =~= p.drop_first() + a);
        assert((p + b).drop_first() =~= p.drop_first() + b);
    }
}

/// Comparing two concatenations whose leading blocks have one length:
/// the leading blocks decide, and the tails only break a tie.
pub proof fn lemma_lex_blocks(a1: Seq<char>, r1: Seq<char>, a2: Seq<char>, r2: Seq<char>)
    requires
        a1.len() == a2.len(),
    ensures
        lex_lt(a1 + r1, a2 + r2) <==> (if a1 == a2 {
            lex_lt(r1, r2)
        } else {
            lex_lt(a1, a2)
        }),
{
    if a1 == a2 {
        lemma_lex_append_common(a1, r1, r2);
        assert(a2 + r2 =~= a1 + r2);
    } else {
        if forall|k: int| 0 <= k < a1.len() ==> #[trigger] a1[k] == a2[k] {
            assert(a1 =~= a2);
            assert(false);
        }
        let i = lemma_first_diff(a1, a2);
        assert((a1 + r1)[i] == a1[i]);
        assert((a2 + r2)[i] == a2[i]);
        assert forall|j: int| 0 <= j < i implies (a1 + r1)[j] == (a2 + r2)[j] by {
            assert((a1 + r1)[j] == a1[j]);
            assert((a2 + r2)[j] == a2[j]);
        }
        if (a1[i] as int) < (a2[i] as int) {
            lemma_lex_from_witness(a1, a2, i);
            lemma_lex_from_witness(a1 + r1, a2 + r2, i);
        } else {
            lemma_lex_from_witness(a2, a1, i);
            lemma_lex_asym(a2, a1);
            lemma_lex_from_witness(a2 + r2, a1 + r1, i);
            lemma_lex_asym(a2 + r2, a1 + r1);
        }
    }
}

/// Renders `v` as its canonical database text: 36 characters, lower-case
/// hex, hyphens after the 8th, 12th, 16th and 20th digit.
pub fn db_string(v: u128) -> (s: String)
    ensures
        s@ == db_chars(v),
{
    let mut s = String::new();
    let mut i: usize = 0;
    while i < 36
        invariant
            i <= 36,
            s@.len() == i,
            forall|j: int| 0 <= j < i ==> s@[j] == db_chars(v)[j],
        decreases 36 - i,
    {
        if i == 8 || i == 13 || i == 18 || i == 23 {
            proof {
                reveal_strlit("-");
            }
            s.append("-");
        } else {
            let k = if i < 8 {
                i
            } else if i < 13 {
                i - 1
            } else if i < 18 {
                i - 2
            } else if i < 23 {
                i - 3
            } else {
                i - 4
            };
            proof {
                assert(k as int == nibs_before(i as int));
            }
            let d = nibble_exec(v, k);
            s.append(hex_lit(d));
        }
        i = i + 1;
    }
    proof {
        assert(s@ =~= db_chars(v));
    }
    s
}

/// Parses a database text: exactly the 36-character hyphenated layout,
/// hex digits in either case. Returns `InvalidFormat` for anything else.
pub fn parse_db_string(s: &str) -> (r: Result<u128, IdError>)
    ensures
        r is Ok <==> is_db_text(s@),
        r is Ok ==> r->Ok_0 as int == db_text_value(s@),
        r is Err ==> r->Err_0 == IdError::InvalidFormat,
{
    let n = s.unicode_len();
    if n != 36 {
        return Err(IdError::InvalidFormat);
    }
    let mut acc: u128 = 0;
    let mut i: usize = 0;
    while i < 36
        invariant
            i <= 36,
            s@.len() == 36,
            forall|j: int| 0 <= j < i ==> #[trigger] db_char_ok(s@, j),
            acc as int == value_prefix(s@, nibs_before(i as int)),
            (acc as nat) < pow16(nibs_before(i as int) as nat),
        decreases 36 - i,
    {
        let c = s.get_char(i);
        if i == 8 || i == 13 || i == 18 || i == 23 {
            if c != '-' {
                proof {
                    assert(!db_char_ok(s@, i as int));
                }
                return Err(IdError::InvalidFormat);
            }
        } else {
            match hex_val_exec(c) {
                None => {
                    proof {
                        assert(!db_char_ok(s@, i as int));
                    }
                    return Err(IdError::InvalidFormat);
                },
                Some(d) => {
                    proof {
                        let nb = nibs_before(i as int);
                        assert(pos_of_nib(nb) == i as int);
                        lemma_pow16_le((nb + 1) as nat, 32);
                        lemma_pow16_32();
                        assert(16 * (acc as int) + (d as int) < 16 * pow16(nb as nat)) by {
                            lemma_mul_strict_inequality(
                                acc as int,
                                pow16(nb as nat) as int,
                                16,
                            );
                        }
                        assert(16 * pow16(nb as nat) == pow16((nb + 1) as nat));
                    }
                    acc = acc * 16 + (d as u128);
                },
            }
        }
        i = i + 1;
    }
    Ok(acc)
}

} // verus!
