//! The 16-bit one's-complement Internet checksum, and the reading of
//! addresses written as numbers between separators.
//!
//! The checksum reads bytes as big-endian 16-bit words, the order in which
//! they travel on the wire; a trailing odd byte is padded with a zero byte on
//! its right.

use vstd::prelude::*;
use vstd::string::StringExecFns;
use vstd::utf8::is_ascii_chars;

verus! {

/// The `k`-th big-endian 16-bit word of `data`. A word that reaches past the
/// end of `data` is completed with a zero byte.
pub open spec fn word16(data: Seq<u8>, k: int) -> nat {
    let hi = data[2 * k] as nat;
    let lo = if 2 * k + 1 < data.len() {
        data[2 * k + 1] as nat
    } else {
        0nat
    };
    hi * 256 + lo
}

/// The number of 16-bit words that `len` bytes occupy.
pub open spec fn word_count(len: nat) -> nat {
    (len + 1) / 2
}

/// The sum of the first `n` words of `data`.
pub open spec fn word_sum(data: Seq<u8>, n: nat) -> nat
    decreases n,
{
    if n == 0 {
        0
    } else {
        word_sum(data, (n - 1) as nat) + word16(data, n - 1)
    }
}

/// The sum of all 16-bit words of `data`.
pub open spec fn sum16(data: Seq<u8>) -> nat {
    word_sum(data, word_count(data.len()))
}

/// Folds the carries above bit 15 back into the low 16 bits until none is left.
pub open spec fn fold16(sum: nat) -> nat
    decreases sum,
{
    if sum < 0x1_0000 {
        sum
    } else {
        fold16(sum / 0x1_0000 + sum % 0x1_0000)
    }
}

/// The one's-complement sum of the words of `data` and the seed `init`.
pub open spec fn ones_complement_sum(data: Seq<u8>, init: u32) -> nat {
    fold16(init as nat + sum16(data))
}

/// The Internet checksum of `data` with seed `init`: the complement of the
/// one's-complement sum.
pub open spec fn checksum16_spec(data: Seq<u8>, init: u32) -> u16 {
    (0xffff - ones_complement_sum(data, init)) as u16
}

/// The two bytes of `value`, most significant first.
pub open spec fn be_bytes(value: u16) -> Seq<u8> {
    seq![(value / 256) as u8, (value % 256) as u8]
}

/// A folded sum fits in 16 bits.
pub proof fn lemma_fold16_bound(sum: nat)
    ensures
        fold16(sum) <= 0xffff,
    decreases sum,
{
    if sum >= 0x1_0000 {
        lemma_fold16_bound(sum / 0x1_0000 + sum % 0x1_0000);
    }
}

/// Folding is the residue modulo 0xffff that lies in `1..=0xffff`, and zero
/// only for zero.
pub proof fn lemma_fold16_closed_form(sum: nat)
    ensures
        fold16(sum) == if sum == 0 {
            0nat
        } else {
            ((sum - 1) % 0xffff + 1) as nat
        },
    decreases sum,
{
    if sum >= 0x1_0000 {
        let q = sum / 0x1_0000;
        let r = sum % 0x1_0000;
        lemma_fold16_closed_form(q + r);
        assert(sum == 0x1_0000 * q + r);
        assert((sum - 1) == (q + r - 1) + 0xffff * q);
        vstd::arithmetic::div_mod::lemma_mod_multiples_vanish(q as int, q + r - 1, 0xffff);
    }
}

/// Folding a sum one of whose terms was folded before gives the same result.
pub proof fn lemma_fold16_absorbs(a: nat, b: nat)
    ensures
        fold16(fold16(a) + b) == fold16(a + b),
{
    lemma_fold16_closed_form(a);
    lemma_fold16_closed_form(a + b);
    lemma_fold16_closed_form(fold16(a) + b);
    if a > 0 {
        let f = (a - 1) % 0xffff;
        let k = (a - 1) / 0xffff;
        assert(a - 1 == 0xffff * k + f);
        assert(a + b - 1 == (f + b) + 0xffff * k);
        vstd::arithmetic::div_mod::lemma_mod_multiples_vanish(k, f + b, 0xffff);
    }
}

/// The first `n` words of `a + b` are those of `a`, as long as they lie in `a`.
proof fn lemma_word_sum_prefix(a: Seq<u8>, b: Seq<u8>, n: nat)
    requires
        a.len() % 2 == 0,
        2 * n <= a.len(),
    ensures
        word_sum(a + b, n) == word_sum(a, n),
    decreases n,
{
    if n > 0 {
        lemma_word_sum_prefix(a, b, (n - 1) as nat);
        assert((a + b)[2 * (n - 1)] == a[2 * (n - 1)]);
        assert((a + b)[2 * (n - 1) + 1] == a[2 * (n - 1) + 1]);
    }
}

/// Past an even number of bytes `a`, the words of `a + b` are those of `b`.
proof fn lemma_word_sum_concat(a: Seq<u8>, b: Seq<u8>, n: nat)
    requires
        a.len() % 2 == 0,
        n <= word_count(b.len()),
    ensures
        word_sum(a + b, a.len() / 2 + n) == word_sum(a, a.len() / 2) + word_sum(b, n),
    decreases n,
{
    let h = a.len() / 2;
    if n == 0 {
        lemma_word_sum_prefix(a, b, h);
    } else {
        lemma_word_sum_concat(a, b, (n - 1) as nat);
        let k = h + n - 1;
        assert((a + b)[2 * k] == b[2 * (n - 1)]);
        if 2 * (n - 1) + 1 < b.len() {
            assert((a + b)[2 * k + 1] == b[2 * (n - 1) + 1]);
        }
        assert(word16(a + b, k) == word16(b, n - 1));
    }
}

/// The word sum of a concatenation is the sum of the parts' word sums, where
/// the first part has an even number of bytes.
pub proof fn lemma_sum16_concat(a: Seq<u8>, b: Seq<u8>)
    requires
        a.len() % 2 == 0,
    ensures
        sum16(a + b) == sum16(a) + sum16(b),
{
    lemma_word_sum_concat(a, b, word_count(b.len()));
    assert(word_count((a + b).len()) == a.len() / 2 + word_count(b.len()));
    assert(word_count(a.len()) == a.len() / 2);
}

/// The two bytes of a 16-bit value sum to that value.
pub proof fn lemma_sum16_be_bytes(value: u16)
    ensures
        be_bytes(value).len() == 2,
        sum16(be_bytes(value)) == value,
{
    let s = be_bytes(value);
    assert(word_count(s.len()) == 1);
    assert(word_sum(s, 1) == word_sum(s, 0) + word16(s, 0));
    assert(word_sum(s, 0) == 0);
}

/// A sequence that carries its own checksum, at any even offset, has
/// checksum zero: with `c` the checksum of `head + tail`, the checksum of
/// `head + c + tail` is zero. With an empty `tail` the checksum is appended.
pub proof fn lemma_checksum16_verifies(head: Seq<u8>, tail: Seq<u8>, init: u32)
    requires
        head.len() % 2 == 0,
    ensures
        checksum16_spec(head + be_bytes(checksum16_spec(head + tail, init)) + tail, init) == 0,
{
    let c = checksum16_spec(head + tail, init);
    let s = ones_complement_sum(head + tail, init);
    lemma_fold16_bound(init as nat + sum16(head + tail));
    assert(c == 0xffff - s);
    lemma_sum16_be_bytes(c);
    lemma_sum16_concat(head, tail);
    lemma_sum16_concat(head, be_bytes(c));
    lemma_sum16_concat(head + be_bytes(c), tail);
    let total = init as nat + sum16(head + tail);
    assert(init as nat + sum16(head + be_bytes(c) + tail) == total + c);
    lemma_fold16_absorbs(total, c as nat);
    assert(fold16(total) + c == 0xffff);
    assert(fold16(0xffff) == 0xffff);
}

/// A sequence of even length followed by its checksum has checksum zero.
pub proof fn lemma_checksum16_appended(data: Seq<u8>, init: u32)
    requires
        data.len() % 2 == 0,
    ensures
        checksum16_spec(data + be_bytes(checksum16_spec(data, init)), init) == 0,
{
    let empty = Seq::<u8>::empty();
    assert(data + empty == data);
    let c = be_bytes(checksum16_spec(data, init));
    assert(data + c + empty == data + c);
    lemma_checksum16_verifies(data, empty, init);
}

/// Computes the Internet checksum of `data` with the seed `init`.
pub fn checksum16(data: &[u8], init: u32) -> (sum: u16)
    ensures
        sum == checksum16_spec(data@, init),
{
    let len: usize = data.len();
    let words: usize = len / 2;
    let mut acc: u128 = init as u128;
    let mut k: usize = 0;
    while k < words
        invariant
            len == data@.len(),
            words == len / 2,
            k <= words,
            acc == init as nat + word_sum(data@, k as nat),
            acc <= init as nat + k * 0xffff,
        decreases words - k,
    {
        let hi: u128 = data[2 * k] as u128;
        let lo: u128 = data[2 * k + 1] as u128;
        acc = acc + hi * 256 + lo;
        k = k + 1;
    }
    if len % 2 == 1 {
        let hi: u128 = data[len - 1] as u128;
        acc = acc + hi * 256;
        assert(word_sum(data@, (words + 1) as nat) == word_sum(data@, words as nat) + word16(
            data@,
            words as int,
        ));
    }
    assert(acc == init as nat + sum16(data@));
    let ghost total: nat = acc as nat;
    while acc >> 16 > 0
        invariant
            fold16(acc as nat) == fold16(total),
            acc <= total,
        decreases acc,
    {
        assert(acc >> 16 == acc / 0x1_0000 && acc & 0xffff == acc % 0x1_0000 && (acc >> 16 > 0
            ==> acc >= 0x1_0000)) by (bit_vector);
        acc = (acc & 0xffff) + (acc >> 16);
    }
    assert(acc < 0x1_0000) by (bit_vector)
        requires
            !(acc >> 16 > 0),
    ;
    let low: u16 = acc as u16;
    assert(!low == 0xffff - low) by (bit_vector);
    !low
}

/// The base of decimal or of hexadecimal numbers.
pub open spec fn base_of(hexadecimal: bool) -> nat {
    if hexadecimal {
        16
    } else {
        10
    }
}

/// The value of the ASCII character `b` as a digit, if it is one: `0` to
/// `9`, and in hexadecimal numbers also `a` to `f` and `A` to `F`.
pub open spec fn digit_value(b: u8, hexadecimal: bool) -> Option<nat> {
    if 0x30 <= b <= 0x39 {
        Some((b - 0x30) as nat)
    } else if hexadecimal && 0x61 <= b <= 0x66 {
        Some((b - 0x61 + 10) as nat)
    } else if hexadecimal && 0x41 <= b <= 0x46 {
        Some((b - 0x41 + 10) as nat)
    } else {
        None
    }
}

/// Whether every byte of `field` is a digit.
pub open spec fn all_digits(field: Seq<u8>, hexadecimal: bool) -> bool {
    forall|i: int| 0 <= i < field.len() ==> digit_value(#[trigger] field[i], hexadecimal) is Some
}

/// The number that the digits of `field` write, most significant first.
pub open spec fn digits_value(field: Seq<u8>, hexadecimal: bool) -> nat
    decreases field.len(),
{
    if field.len() == 0 {
        0
    } else {
        digits_value(field.drop_last(), hexadecimal) * base_of(hexadecimal) + digit_value(
            field.last(),
            hexadecimal,
        ).unwrap_or(0)
    }
}

/// The byte that `field` writes: one or more digits whose number is at most 255.
pub open spec fn field_value(field: Seq<u8>, hexadecimal: bool) -> Option<u8> {
    if field.len() > 0 && all_digits(field, hexadecimal) && digits_value(field, hexadecimal)
        <= 255 {
        Some(digits_value(field, hexadecimal) as u8)
    } else {
        None
    }
}

/// The fields of `text` between separators `sep`. A text without separator is
/// one field; `n` separators make `n + 1` fields, empty ones included.
pub open spec fn split_fields(text: Seq<u8>, sep: u8) -> Seq<Seq<u8>>
    decreases text.len(),
{
    if text.len() == 0 {
        seq![Seq::<u8>::empty()]
    } else {
        let before = split_fields(text.drop_last(), sep);
        if text.last() == sep {
            before.push(Seq::<u8>::empty())
        } else {
            before.update(before.len() - 1, before.last().push(text.last()))
        }
    }
}

/// The bytes that the fields of `text` write, if each field writes one.
pub open spec fn parse_fields_spec(text: Seq<u8>, sep: u8, hexadecimal: bool) -> Option<Seq<u8>> {
    let fields = split_fields(text, sep);
    if forall|k: int|
        0 <= k < fields.len() ==> field_value(#[trigger] fields[k], hexadecimal) is Some {
        Some(Seq::new(fields.len(), |k: int| field_value(fields[k], hexadecimal).unwrap()))
    } else {
        None
    }
}

/// A text has at least one field.
pub proof fn lemma_split_fields_nonempty(text: Seq<u8>, sep: u8)
    ensures
        split_fields(text, sep).len() >= 1,
    decreases text.len(),
{
    if text.len() > 0 {
        lemma_split_fields_nonempty(text.drop_last(), sep);
    }
}

/// What a scan has seen so far is sound: the fields before the last write a
/// byte each, and the last, still open, holds digits only that stay in range.
spec fn scan_ok(fields: Seq<Seq<u8>>, hexadecimal: bool) -> bool {
    &&& forall|k: int|
        0 <= k < fields.len() - 1 ==> field_value(#[trigger] fields[k], hexadecimal) is Some
    &&& all_digits(fields.last(), hexadecimal)
    &&& digits_value(fields.last(), hexadecimal) <= 255
}

/// The digit that the byte `b` writes, or `None`.
fn digit_of(b: u8, hexadecimal: bool) -> (d: Option<u8>)
    ensures
        d matches Some(v) ==> digit_value(b, hexadecimal) == Some(v as nat),
        d is None ==> digit_value(b, hexadecimal) is None,
{
    if 0x30 <= b && b <= 0x39 {
        Some(b - 0x30)
    } else if hexadecimal && 0x61 <= b && b <= 0x66 {
        Some(b - 0x61 + 10)
    } else if hexadecimal && 0x41 <= b && b <= 0x46 {
        Some(b - 0x41 + 10)
    } else {
        None
    }
}

/// Reads `text` as decimal or hexadecimal numbers between separators `sep`,
/// and returns the byte that each field writes. Fails where a field is empty,
/// holds anything but digits, or writes a number above 255.
pub fn parse_fields(text: &[u8], sep: u8, hexadecimal: bool) -> (values: Option<Vec<u8>>)
    ensures
        values is Some <==> parse_fields_spec(text@, sep, hexadecimal) is Some,
        values matches Some(v) ==> v@ == parse_fields_spec(text@, sep, hexadecimal).unwrap(),
{
    let base: u16 = if hexadecimal {
        16
    } else {
        10
    };
    let mut done: Vec<u8> = Vec::new();
    let mut ok: bool = true;
    let mut cur: u16 = 0;
    let mut cur_len: usize = 0;
    let mut i: usize = 0;
    proof {
        assert(text@.take(0).len() == 0);
    }
    while i < text.len()
        invariant
            base == base_of(hexadecimal),
            i <= text@.len(),
            ok == scan_ok(split_fields(text@.take(i as int), sep), hexadecimal),
            ok ==> done@.len() + 1 == split_fields(text@.take(i as int), sep).len(),
            ok ==> forall|k: int|
                0 <= k < done@.len() ==> field_value(
                    #[trigger] split_fields(text@.take(i as int), sep)[k],
                    hexadecimal,
                ) == Some(done@[k]),
            ok ==> cur == digits_value(split_fields(text@.take(i as int), sep).last(), hexadecimal),
            ok ==> cur_len == split_fields(text@.take(i as int), sep).last().len(),
            cur <= 255,
            cur_len <= i,
        decreases text@.len() - i,
    {
        let b: u8 = text[i];
        let ghost before = split_fields(text@.take(i as int), sep);
        let ghost after = split_fields(text@.take(i + 1), sep);
        proof {
            lemma_split_fields_nonempty(text@.take(i as int), sep);
            assert(text@.take(i + 1).drop_last() == text@.take(i as int));
            assert(text@.take(i + 1).last() == b);
            if b == sep {
                assert(after == before.push(Seq::<u8>::empty()));
            } else {
                assert(after == before.update(before.len() - 1, before.last().push(b)));
                assert(after.last().drop_last() == before.last());
                assert(forall|k: int| 0 <= k < after.len() - 1 ==> after[k] == before[k]);
            }
        }
        if b == sep {
            if ok && cur_len > 0 {
                done.push(cur as u8);
                proof {
                    assert(field_value(before.last(), hexadecimal) == Some(cur as u8));
                    assert(after[before.len() - 1] == before.last());
                    assert forall|k: int| 0 <= k < after.len() - 1 implies field_value(
                        #[trigger] after[k],
                        hexadecimal,
                    ) is Some by {
                        assert(after[k] == before[k]);
                    }
                    assert(scan_ok(after, hexadecimal));
                    assert forall|k: int| 0 <= k < done@.len() implies field_value(
                        #[trigger] after[k],
                        hexadecimal,
                    ) == Some(done@[k]) by {
                        assert(after[k] == before[k]);
                    }
                }
            } else {
                proof {
                    if ok {
                        assert(after[before.len() - 1] == before.last());
                        assert(field_value(after[before.len() - 1], hexadecimal) is None);
                    } else {
                        assert(after[before.len() - 1] == before.last());
                        if forall|k: int|
                            0 <= k < before.len() - 1 ==> field_value(
                                #[trigger] before[k],
                                hexadecimal,
                            ) is Some {
                            assert(field_value(after[before.len() - 1], hexadecimal) is None);
                        } else {
                            let k = choose|k: int|
                                0 <= k < before.len() - 1 && !(field_value(
                                    #[trigger] before[k],
                                    hexadecimal,
                                ) is Some);
                            assert(after[k] == before[k]);
                        }
                    }
                    assert(!scan_ok(after, hexadecimal));
                }
                ok = false;
            }
            cur = 0;
            cur_len = 0;
        } else {
            match digit_of(b, hexadecimal) {
                Some(d) => {
                    let next: u16 = cur * base + (d as u16);
                    proof {
                        assert(digits_value(after.last(), hexadecimal) == digits_value(
                            before.last(),
                            hexadecimal,
                        ) * base_of(hexadecimal) + d as nat);
                        assert(digits_value(after.last(), hexadecimal) >= digits_value(
                            before.last(),
                            hexadecimal,
                        )) by (nonlinear_arith)
                            requires
                                digits_value(after.last(), hexadecimal) == digits_value(
                                    before.last(),
                                    hexadecimal,
                                ) * base_of(hexadecimal) + d as nat,
                                base_of(hexadecimal) >= 1,
                        ;
                        if all_digits(before.last(), hexadecimal) {
                            assert forall|j: int| 0 <= j < after.last().len() implies digit_value(
                                #[trigger] after.last()[j],
                                hexadecimal,
                            ) is Some by {
                                if j < before.last().len() {
                                    assert(after.last()[j] == before.last()[j]);
                                }
                            }
                        } else {
                            let j = choose|j: int|
                                0 <= j < before.last().len() && !(digit_value(
                                    #[trigger] before.last()[j],
                                    hexadecimal,
                                ) is Some);
                            assert(after.last()[j] == before.last()[j]);
                        }
                        if !(forall|k: int|
                            0 <= k < before.len() - 1 ==> field_value(
                                #[trigger] before[k],
                                hexadecimal,
                            ) is Some) {
                            let k = choose|k: int|
                                0 <= k < before.len() - 1 && !(field_value(
                                    #[trigger] before[k],
                                    hexadecimal,
                                ) is Some);
                            assert(after[k] == before[k]);
                        }
                    }
                    if ok && next <= 255 {
                        cur = next;
                        cur_len = cur_len + 1;
                        proof {
                            assert forall|k: int| 0 <= k < done@.len() implies field_value(
                                #[trigger] after[k],
                                hexadecimal,
                            ) == Some(done@[k]) by {
                                assert(after[k] == before[k]);
                            }
                        }
                    } else {
                        ok = false;
                        cur = 0;
                        cur_len = 0;
                    }
                },
                None => {
                    proof {
                        assert(after.last()[after.last().len() - 1] == b);
                        assert(!all_digits(after.last(), hexadecimal));
                    }
                    ok = false;
                    cur = 0;
                    cur_len = 0;
                },
            }
        }
        i = i + 1;
    }
    proof {
        assert(text@.take(i as int) == text@);
        lemma_split_fields_nonempty(text@, sep);
    }
    let ghost fields = split_fields(text@, sep);
    if ok && cur_len > 0 {
        done.push(cur as u8);
        proof {
            assert forall|k: int| 0 <= k < fields.len() implies field_value(
                #[trigger] fields[k],
                hexadecimal,
            ) is Some by {
                if k < fields.len() - 1 {
                } else {
                    assert(fields[k] == fields.last());
                }
            }
            let want = parse_fields_spec(text@, sep, hexadecimal).unwrap();
            assert(done@.len() == want.len());
            assert forall|k: int| 0 <= k < done@.len() implies done@[k] == want[k] by {
                if k < fields.len() - 1 {
                    assert(field_value(fields[k], hexadecimal) == Some(done@[k]));
                } else {
                    assert(fields[k] == fields.last());
                }
            }
            assert(done@ == want);
        }
        Some(done)
    } else {
        proof {
            if ok {
                assert(field_value(fields[fields.len() - 1], hexadecimal) is None);
            } else if forall|k: int|
                0 <= k < fields.len() - 1 ==> field_value(
                    #[trigger] fields[k],
                    hexadecimal,
                ) is Some {
                assert(field_value(fields[fields.len() - 1], hexadecimal) is None);
            }
        }
        None
    }
}

/// The character that writes the digit `d`, below 16; the digits above 9
/// are letters, capital ones if asked for.
pub open spec fn digit_char(d: u8, capital: bool) -> char {
    if d == 0 {
        '0'
    } else if d == 1 {
        '1'
    } else if d == 2 {
        '2'
    } else if d == 3 {
        '3'
    } else if d == 4 {
        '4'
    } else if d == 5 {
        '5'
    } else if d == 6 {
        '6'
    } else if d == 7 {
        '7'
    } else if d == 8 {
        '8'
    } else if d == 9 {
        '9'
    } else if d == 10 {
        if capital {
            'A'
        } else {
            'a'
        }
    } else if d == 11 {
        if capital {
            'B'
        } else {
            'b'
        }
    } else if d == 12 {
        if capital {
            'C'
        } else {
            'c'
        }
    } else if d == 13 {
        if capital {
            'D'
        } else {
            'd'
        }
    } else if d == 14 {
        if capital {
            'E'
        } else {
            'e'
        }
    } else {
        if capital {
            'F'
        } else {
            'f'
        }
    }
}

/// The decimal digits of `value`, without leading zeros.
pub open spec fn decimal_text(value: u8) -> Seq<char> {
    let ones = digit_char(value % 10, false);
    let tens = digit_char((value / 10) % 10, false);
    let hundreds = digit_char(value / 100, false);
    if value >= 100 {
        seq![hundreds, tens, ones]
    } else if value >= 10 {
        seq![tens, ones]
    } else {
        seq![ones]
    }
}

/// The hexadecimal digits of `value`, in capital letters and without a
/// leading zero.
pub open spec fn hex_text(value: u8) -> Seq<char> {
    if value >= 16 {
        seq![digit_char(value / 16, true), digit_char(value % 16, true)]
    } else {
        seq![digit_char(value, true)]
    }
}

/// The number of hexadecimal digits that `value` takes, without leading zeros.
pub open spec fn hex_digits(value: u16) -> nat {
    if value >= 0x1000 {
        4
    } else if value >= 0x100 {
        3
    } else if value >= 0x10 {
        2
    } else {
        1
    }
}

/// The hexadecimal digits of `value` in small letters, with zeros in front
/// of them up to `width` digits, four at most.
pub open spec fn hex16_text(value: u16, width: usize) -> Seq<char> {
    let all = seq![
        digit_char((value / 0x1000) as u8, false),
        digit_char(((value / 0x100) % 16) as u8, false),
        digit_char(((value / 0x10) % 16) as u8, false),
        digit_char((value % 16) as u8, false),
    ];
    let shown = if width >= 4 {
        4
    } else if width > hex_digits(value) {
        width as nat
    } else {
        hex_digits(value)
    };
    all.skip(4 - shown)
}

/// The text of one digit.
fn digit_str(d: u8, capital: bool) -> (s: &'static str)
    requires
        d < 16,
    ensures
        s@ == seq![digit_char(d, capital)],
{
    proof {
        reveal_strlit("0");
        reveal_strlit("1");
        reveal_strlit("2");
        reveal_strlit("3");
        reveal_strlit("4");
        reveal_strlit("5");
        reveal_strlit("6");
        reveal_strlit("7");
        reveal_strlit("8");
        reveal_strlit("9");
        reveal_strlit("A");
        reveal_strlit("B");
        reveal_strlit("C");
        reveal_strlit("D");
        reveal_strlit("E");
        reveal_strlit("F");
        reveal_strlit("a");
        reveal_strlit("b");
        reveal_strlit("c");
        reveal_strlit("d");
        reveal_strlit("e");
        reveal_strlit("f");
    }
    let s: &'static str = if d == 0 {
        "0"
    } else if d == 1 {
        "1"
    } else if d == 2 {
        "2"
    } else if d == 3 {
        "3"
    } else if d == 4 {
        "4"
    } else if d == 5 {
        "5"
    } else if d == 6 {
        "6"
    } else if d == 7 {
        "7"
    } else if d == 8 {
        "8"
    } else if d == 9 {
        "9"
    } else if d == 10 {
        if capital {
            "A"
        } else {
            "a"
        }
    } else if d == 11 {
        if capital {
            "B"
        } else {
            "b"
        }
    } else if d == 12 {
        if capital {
            "C"
        } else {
            "c"
        }
    } else if d == 13 {
        if capital {
            "D"
        } else {
            "d"
        }
    } else if d == 14 {
        if capital {
            "E"
        } else {
            "e"
        }
    } else {
        if capital {
            "F"
        } else {
            "f"
        }
    };
    assert(s@ =~= seq![digit_char(d, capital)]);
    s
}

/// Appends the decimal digits of `value` to `text`.
pub fn push_decimal(text: &mut String, value: u8)
    ensures
        final(text)@ == old(text)@ + decimal_text(value),
{
    if value >= 100 {
        text.append(digit_str(value / 100, false));
    }
    if value >= 10 {
        text.append(digit_str((value / 10) % 10, false));
    }
    text.append(digit_str(value % 10, false));
    assert(text@ =~= old(text)@ + decimal_text(value));
}

/// Appends the hexadecimal digits of `value`, in capital letters, to `text`.
pub fn push_hex(text: &mut String, value: u8)
    ensures
        final(text)@ == old(text)@ + hex_text(value),
{
    if value >= 16 {
        text.append(digit_str(value / 16, true));
    }
    text.append(digit_str(value % 16, true));
    assert(text@ =~= old(text)@ + hex_text(value));
}

/// Appends the hexadecimal digits of `value`, in small letters and with
/// zeros in front of them up to `width` digits, to `text`.
pub fn push_hex16(text: &mut String, value: u16, width: usize)
    ensures
        final(text)@ == old(text)@ + hex16_text(value, width),
{
    if value >= 0x1000 || width >= 4 {
        text.append(digit_str((value / 0x1000) as u8, false));
    }
    if value >= 0x100 || width >= 3 {
        text.append(digit_str(((value / 0x100) % 16) as u8, false));
    }
    if value >= 0x10 || width >= 2 {
        text.append(digit_str(((value / 0x10) % 16) as u8, false));
    }
    text.append(digit_str((value % 16) as u8, false));
    assert(text@ =~= old(text)@ + hex16_text(value, width));
}

/// The bytes of a text of ASCII characters.
pub open spec fn ascii(text: Seq<char>) -> Seq<u8> {
    text.map_values(|c: char| c as u8)
}

/// ASCII texts in a row are an ASCII text, with the bytes of each in a row.
pub proof fn lemma_ascii_concat(a: Seq<char>, b: Seq<char>)
    requires
        is_ascii_chars(a),
        is_ascii_chars(b),
    ensures
        is_ascii_chars(a + b),
        ascii(a + b) == ascii(a) + ascii(b),
{
    assert forall|i: int| 0 <= i < (a + b).len() implies '\0' <= #[trigger] (a + b)[i]
        <= '\u{7f}' by {
        if i < a.len() {
            assert((a + b)[i] == a[i]);
        } else {
            assert((a + b)[i] == b[i - a.len()]);
        }
    }
    assert(ascii(a + b) =~= ascii(a) + ascii(b));
}

/// The text that writes `fields` with the separator `sep` between them.
pub open spec fn join_fields(fields: Seq<Seq<u8>>, sep: u8) -> Seq<u8>
    decreases fields.len(),
{
    if fields.len() == 0 {
        Seq::empty()
    } else if fields.len() == 1 {
        fields[0]
    } else {
        join_fields(fields.drop_last(), sep).push(sep) + fields.last()
    }
}

/// A text that ends with bytes that are no separators has its last field
/// longer by those bytes.
proof fn lemma_split_fields_extend(text: Seq<u8>, field: Seq<u8>, sep: u8)
    requires
        forall|i: int| 0 <= i < field.len() ==> field[i] != sep,
    ensures
        split_fields(text + field, sep).len() == split_fields(text, sep).len(),
        split_fields(text + field, sep) == split_fields(text, sep).update(
            split_fields(text, sep).len() - 1,
            split_fields(text, sep).last() + field,
        ),
    decreases field.len(),
{
    lemma_split_fields_nonempty(text, sep);
    let before = split_fields(text, sep);
    if field.len() == 0 {
        assert(text + field =~= text);
        assert(before.last() + field =~= before.last());
        assert(before.update(before.len() - 1, before.last()) =~= before);
    } else {
        let shorter = field.drop_last();
        lemma_split_fields_extend(text, shorter, sep);
        assert((text + field).drop_last() =~= text + shorter);
        assert((text + field).last() == field.last());
        let mid = split_fields(text + shorter, sep);
        assert(mid.last() == before.last() + shorter);
        assert((before.last() + shorter).push(field.last()) =~= before.last() + field);
        assert(mid.update(mid.len() - 1, mid.last().push(field.last())) =~= before.update(
            before.len() - 1,
            before.last() + field,
        ));
    }
}

/// Splitting takes apart what joining has put together: fields that hold
/// no separator, one at least, are the fields of their joined text.
pub proof fn lemma_split_joined(fields: Seq<Seq<u8>>, sep: u8)
    requires
        fields.len() >= 1,
        forall|k: int, i: int|
            0 <= k < fields.len() && 0 <= i < fields[k].len() ==> #[trigger] fields[k][i] != sep,
    ensures
        split_fields(join_fields(fields, sep), sep) == fields,
    decreases fields.len(),
{
    let empty = Seq::<u8>::empty();
    if fields.len() == 1 {
        assert(empty + fields[0] =~= fields[0]);
        lemma_split_fields_extend(empty, fields[0], sep);
        assert(split_fields(empty, sep) =~= seq![empty]);
        assert(split_fields(fields[0], sep) =~= fields);
    } else {
        let earlier = fields.drop_last();
        assert forall|k: int, i: int|
            0 <= k < earlier.len() && 0 <= i < earlier[k].len() implies #[trigger] earlier[k][i]
            != sep by {
            assert(fields[k][i] != sep);
        }
        lemma_split_joined(earlier, sep);
        let joined = join_fields(earlier, sep);
        assert(joined.push(sep).drop_last() =~= joined);
        assert(split_fields(joined.push(sep), sep) == earlier.push(empty));
        lemma_split_fields_extend(joined.push(sep), fields.last(), sep);
        assert(empty + fields.last() =~= fields.last());
        assert(earlier.push(empty).update(earlier.len() as int, fields.last()) =~= fields);
    }
}

/// The number that up to three digits write.
proof fn lemma_digits_value(digits: Seq<u8>, hexadecimal: bool)
    requires
        1 <= digits.len() <= 3,
        all_digits(digits, hexadecimal),
    ensures
        digits.len() == 1 ==> digits_value(digits, hexadecimal) == digit_value(
            digits[0],
            hexadecimal,
        ).unwrap(),
        digits.len() == 2 ==> digits_value(digits, hexadecimal) == digit_value(
            digits[0],
            hexadecimal,
        ).unwrap() * base_of(hexadecimal) + digit_value(digits[1], hexadecimal).unwrap(),
        digits.len() == 3 ==> digits_value(digits, hexadecimal) == (digit_value(
            digits[0],
            hexadecimal,
        ).unwrap() * base_of(hexadecimal) + digit_value(digits[1], hexadecimal).unwrap())
            * base_of(hexadecimal) + digit_value(digits[2], hexadecimal).unwrap(),
    decreases digits.len(),
{
    assert(digit_value(digits.last(), hexadecimal) is Some);
    if digits.len() == 1 {
        assert(digits.drop_last().len() == 0);
        assert(digits_value(digits.drop_last(), hexadecimal) == 0);
    } else {
        let shorter = digits.drop_last();
        assert forall|i: int| 0 <= i < shorter.len() implies digit_value(
            #[trigger] shorter[i],
            hexadecimal,
        ) is Some by {
            assert(shorter[i] == digits[i]);
        }
        lemma_digits_value(shorter, hexadecimal);
    }
}

/// A digit's character is read back as the digit, and is no dot and no colon.
pub proof fn lemma_digit_round_trip(d: u8, capital: bool)
    requires
        d < 16,
    ensures
        digit_value(digit_char(d, capital) as u8, true) == Some(d as nat),
        d < 10 ==> digit_value(digit_char(d, capital) as u8, false) == Some(d as nat),
        digit_char(d, capital) as u8 != 0x2e,
        digit_char(d, capital) as u8 != 0x3a,
        (digit_char(d, capital) as u8) < 0x80,
{
}

/// The decimal digits of a byte are read back as the byte; there is no dot
/// among them.
pub proof fn lemma_decimal_round_trip(value: u8)
    ensures
        field_value(ascii(decimal_text(value)), false) == Some(value),
        forall|i: int|
            0 <= i < decimal_text(value).len() ==> #[trigger] ascii(decimal_text(value))[i]
                != 0x2e,
        is_ascii_chars(decimal_text(value)),
{
    let text = decimal_text(value);
    let bytes = ascii(text);
    lemma_digit_round_trip(value % 10, false);
    lemma_digit_round_trip((value / 10) % 10, false);
    lemma_digit_round_trip(value / 100, false);
    assert(all_digits(bytes, false));
    lemma_digits_value(bytes, false);
}

/// The hexadecimal digits of a byte are read back as the byte; there is no
/// colon among them.
pub proof fn lemma_hex_round_trip(value: u8)
    ensures
        field_value(ascii(hex_text(value)), true) == Some(value),
        forall|i: int|
            0 <= i < hex_text(value).len() ==> #[trigger] ascii(hex_text(value))[i] != 0x3a,
        is_ascii_chars(hex_text(value)),
{
    let text = hex_text(value);
    let bytes = ascii(text);
    lemma_digit_round_trip(value % 16, true);
    lemma_digit_round_trip(value / 16, true);
    assert(all_digits(bytes, true));
    lemma_digits_value(bytes, true);
}

} // verus!
