//! Arbitrary-precision integers cross between the engines as a sign and
//! little-endian 64-bit limbs on one side and a hexadecimal magnitude on the
//! other. Both conversions are exact.
use vstd::prelude::*;
use vstd::string::*;
use vstd::utf8::{encode_utf8, is_ascii_chars, is_char_boundary};

verus! {

broadcast use vstd::string::group_string_axioms;

/// The number that little-endian limbs stand for.
pub open spec fn magnitude(words: Seq<u64>) -> nat
    decreases words.len(),
{
    if words.len() == 0 {
        0
    } else {
        words[0] as nat + 0x1_0000_0000_0000_0000 * magnitude(words.skip(1))
    }
}

/// The lower-case hexadecimal digit `d`.
pub open spec fn hex_char(d: nat) -> char {
    if d == 0 { '0' } else if d == 1 { '1' } else if d == 2 { '2' } else if d == 3 { '3' }
    else if d == 4 { '4' } else if d == 5 { '5' } else if d == 6 { '6' } else if d == 7 { '7' }
    else if d == 8 { '8' } else if d == 9 { '9' } else if d == 10 { 'a' } else if d == 11 { 'b' }
    else if d == 12 { 'c' } else if d == 13 { 'd' } else if d == 14 { 'e' } else { 'f' }
}

/// `n` in hexadecimal, without leading zeros.
pub open spec fn hex_min(n: nat) -> Seq<char>
    decreases n,
{
    if n < 16 {
        seq![hex_char(n)]
    } else {
        hex_min(n / 16).push(hex_char(n % 16))
    }
}

/// The low `width` hexadecimal digits of `n`.
pub open spec fn hex_fixed(n: nat, width: nat) -> Seq<char>
    decreases width,
{
    if width == 0 {
        Seq::empty()
    } else {
        hex_fixed(n / 16, (width - 1) as nat).push(hex_char(n % 16))
    }
}

/// The hexadecimal text of limbs: the top limb without leading zeros, each
/// lower limb at its full sixteen digits, and `0` for no limbs at all.
pub open spec fn hex_text(words: Seq<u64>) -> Seq<char>
    decreases words.len(),
{
    if words.len() == 0 {
        seq!['0']
    } else if words.len() == 1 {
        hex_min(words[0] as nat)
    } else {
        hex_text(words.skip(1)) + hex_fixed(words[0] as nat, 16)
    }
}

/// The value of a hexadecimal digit of either case.
pub open spec fn hex_digit(b: u8) -> Option<nat> {
    if 0x30 <= b <= 0x39 {
        Some((b - 0x30) as nat)
    } else if 0x41 <= b <= 0x46 {
        Some((b - 0x41 + 10) as nat)
    } else if 0x61 <= b <= 0x66 {
        Some((b - 0x61 + 10) as nat)
    } else {
        None
    }
}

/// Whether every byte is a hexadecimal digit.
pub open spec fn all_hex(s: Seq<u8>) -> bool {
    forall|i: int| 0 <= i < s.len() ==> hex_digit(#[trigger] s[i]) is Some
}

/// The number that big-endian hexadecimal digits stand for.
pub open spec fn hex_value(s: Seq<u8>) -> nat
    decreases s.len(),
{
    if s.len() == 0 {
        0
    } else {
        16 * hex_value(s.drop_last()) + match hex_digit(s.last()) {
            Some(d) => d,
            None => 0,
        }
    }
}

/// What a chunk of at most sixteen bytes reads as: a leading `+` is allowed,
/// and anything that is not a number reads as zero.
pub open spec fn chunk_value(s: Seq<u8>) -> nat {
    let digits = if s.len() > 0 && s[0] == 0x2b {
        s.skip(1)
    } else {
        s
    };
    if digits.len() > 0 && all_hex(digits) {
        hex_value(digits)
    } else {
        0
    }
}

/// The limbs that a hexadecimal text reads as, sixteen bytes at a time from its end.
pub open spec fn limbs(s: Seq<u8>) -> Seq<u64>
    decreases s.len(),
{
    if s.len() == 0 {
        Seq::empty()
    } else if s.len() <= 16 {
        seq![chunk_value(s) as u64]
    } else {
        seq![chunk_value(s.skip(s.len() - 16)) as u64] + limbs(s.take(s.len() - 16))
    }
}

/// The limbs of a whole text: at least one.
pub open spec fn text_limbs(s: Seq<u8>) -> Seq<u64> {
    if s.len() == 0 {
        seq![0u64]
    } else {
        limbs(s)
    }
}

/// Whether every sixteen-byte cut, counted from the end, falls between characters.
pub open spec fn cuts_cleanly(s: Seq<u8>) -> bool {
    forall|i: int|
        0 <= i <= s.len() && (s.len() - i) % 16 == 0 ==> #[trigger] is_char_boundary(s, i)
}

fn hex_char_of(d: u64) -> (r: char)
    requires
        d < 16,
    ensures
        r == hex_char(d as nat),
{
    if d == 0 { '0' } else if d == 1 { '1' } else if d == 2 { '2' } else if d == 3 { '3' }
    else if d == 4 { '4' } else if d == 5 { '5' } else if d == 6 { '6' } else if d == 7 { '7' }
    else if d == 8 { '8' } else if d == 9 { '9' } else if d == 10 { 'a' } else if d == 11 { 'b' }
    else if d == 12 { 'c' } else if d == 13 { 'd' } else if d == 14 { 'e' } else { 'f' }
}

fn push_hex_min(out: &mut String, n: u64)
    ensures
        final(out)@ == old(out)@ + hex_min(n as nat),
    decreases n,
{
    if n >= 16 {
        push_hex_min(out, n / 16);
    }
    out.push(hex_char_of(n % 16));
    assert(out@ =~= old(out)@ + hex_min(n as nat));
}

/// Appends the low `width` hexadecimal digits of `n`.
pub fn push_hex_fixed(out: &mut String, n: u64, width: u64)
    ensures
        final(out)@ == old(out)@ + hex_fixed(n as nat, width as nat),
    decreases width,
{
    if width > 0 {
        push_hex_fixed(out, n / 16, width - 1);
        out.push(hex_char_of(n % 16));
    }
    assert(out@ =~= old(out)@ + hex_fixed(n as nat, width as nat));
}

/// Little-endian limbs as a big-endian hexadecimal magnitude.
pub fn words_to_hex(words: &Vec<u64>) -> (r: String)
    ensures
        r@ == hex_text(words@),
{
    let mut hex = String::new();
    let n: usize = words.len();
    if n == 0 {
        hex.push('0');
        assert(hex@ =~= hex_text(words@));
        return hex;
    }
    push_hex_min(&mut hex, words[n - 1]);
    let mut i: usize = n - 1;
    assert(hex@ =~= hex_text(words@.skip(i as int)));
    while i > 0
        invariant
            i < n == words@.len(),
            hex@ == hex_text(words@.skip(i as int)),
        decreases i,
    {
        i = i - 1;
        assert(words@.skip(i as int).skip(1) =~= words@.skip(i + 1));
        push_hex_fixed(&mut hex, words[i], 16);
    }
    assert(words@.skip(0) =~= words@);
    hex
}

fn read_digit(b: u8) -> (r: Option<u64>)
    ensures
        r is Some <==> hex_digit(b) is Some,
        r matches Some(d) ==> d as nat == hex_digit(b)->0 && d < 16,
{
    if 0x30 <= b && b <= 0x39 {
        Some((b - 0x30) as u64)
    } else if 0x41 <= b && b <= 0x46 {
        Some((b - 0x41 + 10) as u64)
    } else if 0x61 <= b && b <= 0x66 {
        Some((b - 0x61 + 10) as u64)
    } else {
        None
    }
}

/// `16` to the `k`.
pub open spec fn pow16(k: nat) -> nat
    decreases k,
{
    if k == 0 {
        1
    } else {
        16 * pow16((k - 1) as nat)
    }
}

proof fn lemma_pow16_sixteen()
    ensures
        pow16(16) == 0x1_0000_0000_0000_0000,
{
    reveal_with_fuel(pow16, 17);
}

proof fn lemma_pow16_monotone(a: nat, b: nat)
    requires
        a <= b,
    ensures
        pow16(a) <= pow16(b),
    decreases b,
{
    if a < b {
        lemma_pow16_monotone(a, (b - 1) as nat);
    }
}

proof fn lemma_hex_value_bound(s: Seq<u8>)
    ensures
        hex_value(s) < pow16(s.len()),
    decreases s.len(),
{
    if s.len() > 0 {
        lemma_hex_value_bound(s.drop_last());
    }
}

fn read_chunk(bytes: &[u8], from: usize, to: usize) -> (r: u64)
    requires
        from < to <= bytes@.len(),
        to - from <= 16,
    ensures
        r as nat == chunk_value(bytes@.subrange(from as int, to as int)),
{
    let ghost chunk = bytes@.subrange(from as int, to as int);
    let start: usize = if bytes[from] == 0x2b { from + 1 } else { from };
    let ghost digits = bytes@.subrange(start as int, to as int);
    proof {
        assert(chunk[0] == bytes@[from as int]);
        if start > from {
            assert(chunk.skip(1) =~= digits);
        } else {
            assert(chunk =~= digits);
        }
    }
    if start == to {
        return 0;
    }
    let mut acc: u64 = 0;
    let mut i: usize = start;
    while i < to
        invariant
            start <= i <= to <= bytes@.len(),
            to - start <= 16,
            digits == bytes@.subrange(start as int, to as int),
            digits == if chunk[0] == 0x2b { chunk.skip(1) } else { chunk },
            chunk == bytes@.subrange(from as int, to as int),
            from < to,
            all_hex(digits.take(i - start)),
            acc as nat == hex_value(digits.take(i - start)),
        decreases to - i,
    {
        match read_digit(bytes[i]) {
            None => {
                assert(digits[i - start] == bytes@[i as int]);
                assert(!all_hex(digits));
                return 0;
            },
            Some(d) => {
                let ghost next = digits.take(i - start + 1);
                proof {
                    assert(next.drop_last() =~= digits.take(i - start));
                    assert(next.last() == bytes@[i as int]);
                    assert(hex_value(next) == 16 * hex_value(digits.take(i - start)) + d as nat);
                    lemma_hex_value_bound(next);
                    lemma_pow16_monotone(next.len(), 16);
                    lemma_pow16_sixteen();
                    assert(all_hex(next)) by {
                        assert forall|k: int| 0 <= k < next.len() implies hex_digit(
                            #[trigger] next[k],
                        ) is Some by {
                            if k < i - start {
                                assert(digits.take(i - start)[k] == next[k]);
                            }
                        }
                    }
                }
                acc = 16 * acc + d;
            },
        }
        i = i + 1;
    }
    assert(digits.take(to - start) =~= digits);
    acc
}

/// A big-endian hexadecimal magnitude as little-endian limbs.
pub fn hex_to_words(hex: &str) -> (r: Vec<u64>)
    requires
        cuts_cleanly(hex.spec_bytes()),
    ensures
        r@ == text_limbs(hex.spec_bytes()),
{
    let bytes: &[u8] = hex.as_bytes();
    let mut words: Vec<u64> = Vec::new();
    let mut end: usize = bytes.len();
    let ghost all = bytes@;
    assert(all.take(end as int) =~= all);
    assert(words@ + limbs(all) =~= limbs(all));
    while end > 0
        invariant
            end <= all.len(),
            all == bytes@,
            words@ + limbs(all.take(end as int)) == limbs(all),
        decreases end,
    {
        let start: usize = if end >= 16 { end - 16 } else { 0 };
        let w: u64 = read_chunk(bytes, start, end);
        let ghost part = all.take(end as int);
        let ghost before = words@;
        proof {
            if end <= 16 {
                assert(all.subrange(start as int, end as int) =~= part);
                assert(all.take(0) =~= Seq::<u8>::empty());
                assert(limbs(part) =~= seq![w] + limbs(all.take(start as int)));
            } else {
                assert(all.subrange(start as int, end as int) =~= part.skip(part.len() - 16));
                assert(part.take(part.len() - 16) =~= all.take(start as int));
            }
            assert(limbs(part) == seq![w] + limbs(all.take(start as int)));
        }
        words.push(w);
        assert(words@ + limbs(all.take(start as int)) =~= before + (seq![w] + limbs(
            all.take(start as int),
        )));
        end = start;
    }
    assert(all.take(0) =~= Seq::<u8>::empty());
    assert(words@ =~= limbs(all));
    if words.len() == 0 {
        proof {
            assert(all.len() > 0 ==> limbs(all).len() > 0);
        }
        words.push(0);
        assert(words@ =~= seq![0u64]);
    }
    words
}

/// The bytes of an ASCII text.
pub open spec fn ascii(s: Seq<char>) -> Seq<u8> {
    Seq::new(s.len(), |i: int| s[i] as u8)
}

proof fn lemma_hex_char(d: nat)
    requires
        d < 16,
    ensures
        hex_digit(hex_char(d) as u8) == Some(d),
        hex_char(d) as u8 != 0x2b,
        '\0' <= hex_char(d) <= '\u{7f}',
{
}

proof fn lemma_div16(n: nat, k: nat)
    requires
        k > 0,
        n < pow16(k),
    ensures
        n / 16 < pow16((k - 1) as nat),
{
    assert(pow16(k) == 16 * pow16((k - 1) as nat));
}

proof fn lemma_hex_fixed(n: nat, width: nat)
    requires
        n < pow16(width),
    ensures
        hex_fixed(n, width).len() == width,
        all_hex(ascii(hex_fixed(n, width))),
        hex_value(ascii(hex_fixed(n, width))) == n,
        is_ascii_chars(hex_fixed(n, width)),
        width > 0 ==> hex_fixed(n, width)[0] as u8 != 0x2b,
    decreases width,
{
    if width > 0 {
        lemma_div16(n, width);
        lemma_hex_fixed(n / 16, (width - 1) as nat);
        lemma_hex_char(n % 16);
        let s = hex_fixed(n, width);
        assert(ascii(s).drop_last() =~= ascii(s.drop_last()));
        assert(s.drop_last() =~= hex_fixed(n / 16, (width - 1) as nat));
        assert(ascii(s).last() == hex_char(n % 16) as u8);
        assert forall|i: int| 0 <= i < ascii(s).len() implies hex_digit(
            #[trigger] ascii(s)[i],
        ) is Some by {
            if i < width - 1 {
                assert(ascii(s.drop_last())[i] == ascii(s)[i]);
            }
        }
    }
}

proof fn lemma_hex_min(n: nat, width: nat)
    requires
        n < pow16(width),
        width > 0,
    ensures
        0 < hex_min(n).len() <= width,
        all_hex(ascii(hex_min(n))),
        hex_value(ascii(hex_min(n))) == n,
        is_ascii_chars(hex_min(n)),
        hex_min(n)[0] as u8 != 0x2b,
    decreases width,
{
    let s = hex_min(n);
    if n < 16 {
        lemma_hex_char(n);
        assert(ascii(s).drop_last() =~= Seq::<u8>::empty());
        assert(hex_value(ascii(s).drop_last()) == 0);
        assert(ascii(s).last() == hex_char(n) as u8);
    } else {
        if width == 1 {
            reveal_with_fuel(pow16, 2);
            assert(false);
        }
        lemma_div16(n, width);
        lemma_hex_min(n / 16, (width - 1) as nat);
        lemma_hex_char(n % 16);
        assert(s.drop_last() =~= hex_min(n / 16));
        assert(ascii(s).drop_last() =~= ascii(s.drop_last()));
        assert(ascii(s).last() == hex_char(n % 16) as u8);
        assert forall|i: int| 0 <= i < ascii(s).len() implies hex_digit(
            #[trigger] ascii(s)[i],
        ) is Some by {
            if i < s.len() - 1 {
                assert(ascii(s.drop_last())[i] == ascii(s)[i]);
            }
        }
    }
}

proof fn lemma_hex_value_concat(a: Seq<u8>, b: Seq<u8>)
    ensures
        hex_value(a + b) == hex_value(a) * pow16(b.len()) + hex_value(b),
    decreases b.len(),
{
    if b.len() == 0 {
        assert(a + b =~= a);
        assert(hex_value(a) * pow16(0) == hex_value(a)) by {
            assert(pow16(0) == 1);
        }
    } else {
        lemma_hex_value_concat(a, b.drop_last());
        assert((a + b).drop_last() =~= a + b.drop_last());
        assert((a + b).last() == b.last());
        let k = (b.len() - 1) as nat;
        let x = hex_value(a);
        assert(16 * (x * pow16(k)) == x * (16 * pow16(k))) by (nonlinear_arith);
    }
}

/// The hexadecimal text of limbs is made of ASCII hexadecimal digits only.
pub proof fn law_hex_text_is_ascii(words: Seq<u64>)
    ensures
        hex_text(words).len() > 0,
        all_hex(ascii(hex_text(words))),
        is_ascii_chars(hex_text(words)),
    decreases words.len(),
{
    lemma_pow16_sixteen();
    let s = hex_text(words);
    if words.len() == 0 {
        lemma_hex_char(0);
    } else if words.len() == 1 {
        lemma_hex_min(words[0] as nat, 16);
    } else {
        law_hex_text_is_ascii(words.skip(1));
        lemma_hex_fixed(words[0] as nat, 16);
        let a = hex_text(words.skip(1));
        let b = hex_fixed(words[0] as nat, 16);
        assert forall|i: int| 0 <= i < s.len() implies hex_digit(
            #[trigger] ascii(s)[i],
        ) is Some by {
            if i < a.len() {
                assert(ascii(a)[i] == ascii(s)[i]);
            } else {
                assert(ascii(b)[i - a.len()] == ascii(s)[i]);
            }
        }
        vstd::utf8::is_ascii_chars_concat(s, a, b);
    }
}

/// Writing limbs as hexadecimal keeps the number exactly.
pub proof fn law_hex_text_keeps_magnitude(words: Seq<u64>)
    ensures
        hex_value(ascii(hex_text(words))) == magnitude(words),
    decreases words.len(),
{
    lemma_pow16_sixteen();
    if words.len() == 0 {
        let s = ascii(seq!['0']);
        assert(s.drop_last() =~= Seq::<u8>::empty());
        assert(hex_value(s.drop_last()) == 0);
        assert(s.last() == '0' as u8);
    } else if words.len() == 1 {
        lemma_hex_min(words[0] as nat, 16);
        assert(magnitude(words.skip(1)) == 0);
    } else {
        law_hex_text_keeps_magnitude(words.skip(1));
        lemma_hex_fixed(words[0] as nat, 16);
        let a = hex_text(words.skip(1));
        let b = hex_fixed(words[0] as nat, 16);
        assert(ascii(a + b) =~= ascii(a) + ascii(b));
        lemma_hex_value_concat(ascii(a), ascii(b));
    }
}

proof fn lemma_limbs_of_text(words: Seq<u64>)
    requires
        words.len() > 0,
    ensures
        limbs(ascii(hex_text(words))) == words,
    decreases words.len(),
{
    lemma_pow16_sixteen();
    let s = ascii(hex_text(words));
    if words.len() == 1 {
        lemma_hex_min(words[0] as nat, 16);
        assert(s[0] == hex_min(words[0] as nat)[0] as u8);
        assert(limbs(s) =~= words);
    } else {
        lemma_limbs_of_text(words.skip(1));
        law_hex_text_is_ascii(words.skip(1));
        lemma_hex_fixed(words[0] as nat, 16);
        let a = ascii(hex_text(words.skip(1)));
        let b = ascii(hex_fixed(words[0] as nat, 16));
        assert(s =~= a + b);
        assert(s.skip(s.len() - 16) =~= b);
        assert(s.take(s.len() - 16) =~= a);
        assert(b[0] == hex_fixed(words[0] as nat, 16)[0] as u8);
        assert(limbs(s) =~= seq![words[0]] + words.skip(1));
        assert(seq![words[0]] + words.skip(1) =~= words);
    }
}

/// Reading back what `words_to_hex` wrote gives the same limbs, and no limbs
/// at all come back as the single limb zero.
pub proof fn law_words_round_trip(words: Seq<u64>)
    ensures
        cuts_cleanly(encode_utf8(hex_text(words))),
        text_limbs(encode_utf8(hex_text(words))) == if words.len() == 0 {
            seq![0u64]
        } else {
            words
        },
{
    law_hex_text_is_ascii(words);
    let text = hex_text(words);
    vstd::utf8::is_ascii_chars_encode_utf8(text);
    vstd::utf8::is_ascii_chars_nat_bound(text);
    assert(encode_utf8(text) =~= ascii(text));
    vstd::utf8::encode_utf8_valid_utf8(text);
    assert forall|i: int| 0 <= i < encode_utf8(text).len() implies #[trigger] encode_utf8(text)[i]
        < 0x80 by {
        assert(hex_digit(ascii(text)[i]) is Some);
    }
    law_ascii_cuts_cleanly(encode_utf8(text));
    if words.len() == 0 {
        lemma_hex_char(0);
        let s = ascii(seq!['0']);
        assert(s.drop_last() =~= Seq::<u8>::empty());
        assert(hex_value(s.drop_last()) == 0);
        assert(hex_value(s) == 0);
        assert(limbs(s) =~= seq![0u64]);
    } else {
        lemma_limbs_of_text(words);
    }
}

proof fn lemma_limbs_magnitude(s: Seq<u8>)
    requires
        all_hex(s),
    ensures
        magnitude(limbs(s)) == hex_value(s),
    decreases s.len(),
{
    lemma_pow16_sixteen();
    if s.len() == 0 {
    } else if s.len() <= 16 {
        assert(s[0] != 0x2b) by {
            assert(hex_digit(s[0]) is Some);
        }
        lemma_hex_value_bound(s);
        lemma_pow16_monotone(s.len(), 16);
        let w = limbs(s);
        assert(w.skip(1) =~= Seq::<u64>::empty());
        assert(magnitude(w.skip(1)) == 0);
    } else {
        let a = s.take(s.len() - 16);
        let b = s.skip(s.len() - 16);
        assert(s =~= a + b);
        assert(all_hex(a));
        assert forall|i: int| 0 <= i < b.len() implies hex_digit(#[trigger] b[i]) is Some by {
            assert(b[i] == s[i + s.len() - 16]);
        }
        lemma_limbs_magnitude(a);
        lemma_hex_value_concat(a, b);
        lemma_hex_value_bound(b);
        assert(b[0] != 0x2b) by {
            assert(hex_digit(b[0]) is Some);
        }
        assert(limbs(s).skip(1) =~= limbs(a));
        assert(limbs(s)[0] as nat == hex_value(b));
    }
}

/// Reading hexadecimal digits keeps the number exactly, whatever its size.
pub proof fn law_limbs_keep_value(s: Seq<u8>)
    requires
        all_hex(s),
    ensures
        magnitude(text_limbs(s)) == hex_value(s),
{
    if s.len() == 0 {
        assert(seq![0u64].skip(1) =~= Seq::<u64>::empty());
        assert(magnitude(seq![0u64].skip(1)) == 0);
    } else {
        lemma_limbs_magnitude(s);
    }
}

/// An ASCII text can be cut anywhere.
pub proof fn law_ascii_cuts_cleanly(s: Seq<u8>)
    requires
        vstd::utf8::valid_utf8(s),
        forall|i: int| 0 <= i < s.len() ==> #[trigger] s[i] < 0x80,
    ensures
        cuts_cleanly(s),
{
    assert forall|i: int|
        0 <= i <= s.len() && (s.len() - i) % 16 == 0 implies #[trigger] is_char_boundary(s, i) by {
        if i < s.len() {
            vstd::utf8::is_char_boundary_iff_not_is_continuation_byte(s, i);
        } else {
            vstd::utf8::is_char_boundary_start_end_of_seq(s);
        }
    }
}

/// A hexadecimal digit counts for its place, in either case of letter, and nothing
/// else is one.
pub proof fn law_hex_digits_count_for_their_place(b: u8)
    ensures
        0x30 <= b <= 0x39 ==> hex_digit(b) == Some((b - 0x30) as nat),
        0x61 <= b <= 0x66 ==> hex_digit(b) == Some((b - 0x61 + 10) as nat),
        0x41 <= b <= 0x46 ==> hex_digit(b) == Some((b - 0x41 + 10) as nat),
        hex_digit(b) is Some ==> 0x30 <= b <= 0x39 || 0x61 <= b <= 0x66 || 0x41 <= b <= 0x46,
{
}

} // verus!
