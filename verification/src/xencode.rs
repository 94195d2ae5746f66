//! The Srun "XEncode" cipher: a Corrected-Block-TEA (XXTEA) variant whose
//! plaintext and key words are packed from UTF-16 code units the way
//! JavaScript's `charCodeAt` sees them.
use vstd::prelude::*;

use crate::text::chars_of;

verus! {

/// The UTF-16 code units of one character.
pub open spec fn utf16_of_char(c: char) -> Seq<u16> {
    let v = c as u32;
    if v < 0x10000 {
        seq![v as u16]
    } else {
        let w = (v - 0x10000) as u32;
        seq![(0xD800 + (w >> 10u32)) as u16, (0xDC00 + (w & 0x3FFu32)) as u16]
    }
}

/// The UTF-16 encoding of a character sequence (what `str::encode_utf16` yields).
pub open spec fn utf16_units(s: Seq<char>) -> Seq<u16>
    decreases s.len(),
{
    if s.len() == 0 {
        seq![]
    } else {
        utf16_units(s.drop_last()) + utf16_of_char(s.last())
    }
}

/// Bitwise OR of the first `k` units of group `j` (units `4j .. 4j + k`), unit `4j + t`
/// shifted left by `8t` bits within a 32-bit word. Units past the end contribute nothing.
/// Neighbouring 16-bit units overlap by design: this is the JavaScript packing.
pub open spec fn group_bits(units: Seq<u16>, j: int, k: nat) -> u32
    decreases k,
{
    if k == 0 {
        0
    } else {
        let i = 4 * j + (k - 1);
        let prev = group_bits(units, j, (k - 1) as nat);
        if 0 <= i < units.len() {
            prev | ((units[i] as u32) << ((8 * (k - 1)) as u32))
        } else {
            prev
        }
    }
}

/// Number of 32-bit words that `n` code units occupy.
pub open spec fn word_count(n: nat) -> nat {
    (n + 3) / 4
}

/// The packed words of a unit sequence, four units per word.
pub open spec fn packed_units(units: Seq<u16>) -> Seq<u32> {
    Seq::new(word_count(units.len()), |j: int| group_bits(units, j, 4))
}

/// Plaintext words: the packed units followed by the unit count.
pub open spec fn plaintext_words(text: Seq<char>) -> Seq<u32> {
    let units = utf16_units(text);
    packed_units(units).push(units.len() as u32)
}

/// Key words: the packed units of the key, cut or zero-padded to exactly four words.
pub open spec fn key_words(key: Seq<char>) -> Seq<u32> {
    let p = packed_units(utf16_units(key));
    Seq::new(4, |i: int| if i < p.len() { p[i] } else { 0u32 })
}

/// The XXTEA round constant.
pub open spec fn xx_delta() -> u32 {
    0x9e37_79b9u32
}

/// The running sum after `r` rounds.
pub open spec fn round_sum(r: nat) -> u32
    decreases r,
{
    if r == 0 {
        0
    } else {
        round_sum((r - 1) as nat).wrapping_add(xx_delta())
    }
}

/// The XXTEA mixing function.
pub open spec fn mix(z: u32, y: u32, sum: u32, k: u32) -> u32 {
    ((z >> 5u32) ^ y.wrapping_shl(2)).wrapping_add(((y >> 3u32) ^ z.wrapping_shl(4)) ^ (sum ^ y)).wrapping_add(
        k ^ z,
    )
}

/// Key word used at position `i` of a pass with running sum `sum`.
pub open spec fn key_at(key: Seq<u32>, i: int, sum: u32) -> u32 {
    key[(((i % 4) as u32) ^ ((sum >> 2u32) & 3u32)) as int]
}

/// The state after the first `p` positions of one pass have been updated.
/// Each position mixes its left neighbour `z` (already updated, cyclically) and its right
/// neighbour `y` (cyclically; for the last position that is the updated first word).
pub open spec fn pass_prefix(v: Seq<u32>, key: Seq<u32>, sum: u32, p: nat) -> Seq<u32>
    decreases p,
{
    if p == 0 {
        v
    } else {
        let cur = pass_prefix(v, key, sum, (p - 1) as nat);
        let i = p - 1;
        let n = v.len();
        let z = if i == 0 {
            cur[n - 1]
        } else {
            cur[i - 1]
        };
        let y = cur[(i + 1) % (n as int)];
        cur.update(i, cur[i].wrapping_add(mix(z, y, sum, key_at(key, i, sum))))
    }
}

/// The state after `r` full passes.
pub open spec fn rounds_applied(v: Seq<u32>, key: Seq<u32>, r: nat) -> Seq<u32>
    decreases r,
{
    if r == 0 {
        v
    } else {
        let prev = rounds_applied(v, key, (r - 1) as nat);
        pass_prefix(prev, key, round_sum(r), prev.len())
    }
}

/// Number of passes for `n` words.
pub open spec fn round_count(n: nat) -> nat {
    6 + 52nat / n
}

/// The little-endian bytes of one word.
pub open spec fn word_le_bytes(w: u32) -> Seq<u8> {
    seq![(w & 0xff) as u8, ((w >> 8u32) & 0xff) as u8, ((w >> 16u32) & 0xff) as u8, ((w >> 24u32) & 0xff) as u8]
}

/// The little-endian bytes of a word sequence, word after word.
pub open spec fn words_le_bytes(ws: Seq<u32>) -> Seq<u8>
    decreases ws.len(),
{
    if ws.len() == 0 {
        seq![]
    } else {
        words_le_bytes(ws.drop_last()) + word_le_bytes(ws.last())
    }
}

/// The enciphered words of a non-empty text.
pub open spec fn xencode_words(text: Seq<char>, key: Seq<char>) -> Seq<u32> {
    let v = plaintext_words(text);
    rounds_applied(v, key_words(key), round_count(v.len()))
}

/// XEncode of `text` under `key`: empty for empty text, else the little-endian bytes
/// of the enciphered words.
pub open spec fn xencode_spec(text: Seq<char>, key: Seq<char>) -> Seq<u8> {
    if text.len() == 0 {
        seq![]
    } else {
        words_le_bytes(xencode_words(text, key))
    }
}

proof fn lemma_utf16_of_char_len(c: char)
    ensures
        1 <= utf16_of_char(c).len() <= 2,
{
}

proof fn lemma_utf16_units_len(s: Seq<char>)
    ensures
        s.len() <= utf16_units(s).len() <= 2 * s.len(),
    decreases s.len(),
{
    if s.len() > 0 {
        lemma_utf16_units_len(s.drop_last());
        lemma_utf16_of_char_len(s.last());
    }
}

/// The UTF-16 code units of `text`.
pub fn utf16_of(text: &str) -> (units: Vec<u16>)
    ensures
        units@ == utf16_units(text@),
{
    let chars = chars_of(text);
    let mut units: Vec<u16> = Vec::new();
    let mut i: usize = 0;
    while i < chars.len()
        invariant
            chars@ == text@,
            i <= chars.len(),
            units@ == utf16_units(chars@.take(i as int)),
        decreases chars.len() - i,
    {
        let c = chars[i];
        let v = c as u32;
        proof {
            assert(chars@.take(i + 1).drop_last() == chars@.take(i as int));
        }
        if v < 0x10000 {
            units.push(v as u16);
        } else {
            let w: u32 = v - 0x10000;
            assert(w < 0x10_0000) by {
                vstd::utf8::char_is_scalar(c);
            }
            assert((w >> 10u32) < 0x400u32) by (bit_vector)
                requires
                    w < 0x10_0000u32,
            ;
            assert((w & 0x3FFu32) < 0x400u32) by (bit_vector);
            units.push((0xD800 + (w >> 10u32)) as u16);
            units.push((0xDC00 + (w & 0x3FFu32)) as u16);
        }
        i = i + 1;
    }
    assert(chars@.take(chars.len() as int) == chars@);
    units
}

/// Packs code units four to a word (unit `i` shifted left by `8 * (i % 4)` bits and
/// OR-ed into word `i / 4`), then appends the unit count when `include_length` holds.
pub fn packed_words(units: &Vec<u16>, include_length: bool) -> (words: Vec<u32>)
    ensures
        include_length ==> words@ == packed_units(units@).push(units@.len() as u32),
        !include_length ==> words@ == packed_units(units@),
{
    let n = units.len();
    let count: usize = n / 4 + if n % 4 == 0 {
        0
    } else {
        1
    };
    assert(count == word_count(n as nat));
    let mut words: Vec<u32> = Vec::new();
    let mut j: usize = 0;
    while j < count
        invariant
            j <= count,
            words@.len() == j,
            forall|t: int| 0 <= t < j ==> words@[t] == 0u32,
        decreases count - j,
    {
        words.push(0u32);
        j = j + 1;
    }
    let mut index: usize = 0;
    while index < n
        invariant
            n == units@.len(),
            count == word_count(n as nat),
            index <= n,
            words@.len() == count,
            forall|t: int|
                0 <= t < count ==> #[trigger] words@[t] == group_bits(
                    units@,
                    t,
                    if index - 4 * t >= 4 {
                        4nat
                    } else if index - 4 * t <= 0 {
                        0nat
                    } else {
                        (index - 4 * t) as nat
                    },
                ),
        decreases n - index,
    {
        let w = index / 4;
        let t = index % 4;
        let shifted: u32 = (units[index] as u32) << ((t * 8) as u32);
        let updated: u32 = words[w] | shifted;
        let ghost before = words@;
        words.set(w, updated);
        proof {
            assert forall|q: int| 0 <= q < count implies #[trigger] words@[q] == group_bits(
                units@,
                q,
                if index + 1 - 4 * q >= 4 {
                    4nat
                } else if index + 1 - 4 * q <= 0 {
                    0nat
                } else {
                    (index + 1 - 4 * q) as nat
                },
            ) by {
                if q == w as int {
                    assert(index - 4 * q == t);
                    assert(group_bits(units@, q, (t + 1) as nat) == group_bits(units@, q, t as nat)
                        | ((units@[index as int] as u32) << ((8 * t) as u32)));
                } else {
                    assert(before[q] == words@[q]);
                }
            }
        }
        index = index + 1;
    }
    assert(words@ == packed_units(units@)) by {
        assert forall|q: int| 0 <= q < count implies #[trigger] words@[q] == packed_units(
            units@,
        )[q] by {
            if n - 4 * q < 4 {
                lemma_group_bits_stable(units@, q, (n - 4 * q) as nat, 4);
            }
        }
    }
    if include_length {
        words.push(n as u32);
    }
    words
}

/// Positions past the end of the units add nothing to a group.
proof fn lemma_group_bits_stable(units: Seq<u16>, j: int, k0: nat, k: nat)
    requires
        0 <= j,
        k0 <= k <= 4,
        4 * j + k0 >= units.len(),
    ensures
        group_bits(units, j, k) == group_bits(units, j, k0),
    decreases k,
{
    if k > k0 {
        lemma_group_bits_stable(units, j, k0, (k - 1) as nat);
    }
}

/// One application of the mixing function.
fn mix_exec(z: u32, y: u32, sum: u32, k: u32) -> (m: u32)
    ensures
        m == mix(z, y, sum, k),
{
    let mut mixed = (z >> 5u32) ^ y.wrapping_shl(2);
    mixed = mixed.wrapping_add(((y >> 3u32) ^ z.wrapping_shl(4)) ^ (sum ^ y));
    mixed.wrapping_add(k ^ z)
}

proof fn lemma_key_index(i: int, sum: u32)
    requires
        i >= 0,
    ensures
        0 <= (((i % 4) as u32) ^ ((sum >> 2u32) & 3u32)) < 4,
{
    let a = (i % 4) as u32;
    assert(a < 4);
    assert(((a ^ ((sum >> 2u32) & 3u32)) < 4u32)) by (bit_vector)
        requires
            a < 4u32,
    ;
}

/// Enciphers `values` in place with `rounds` full passes under `key`.
fn encipher(values: &mut Vec<u32>, key: &Vec<u32>)
    requires
        old(values)@.len() >= 2,
        key@.len() == 4,
    ensures
        final(values)@ == rounds_applied(old(values)@, key@, round_count(old(values)@.len())),
{
    let ghost v0 = values@;
    let n = values.len();
    let last = n - 1;
    let mut z = values[last];
    let delta: u32 = 0x9e37_79b9u32;
    let mut rounds: usize = 6 + 52 / n;
    let mut sum: u32 = 0;
    let ghost mut r: nat = 0;
    while rounds > 0
        invariant
            n == v0.len(),
            n >= 2,
            last == n - 1,
            key@.len() == 4,
            values@.len() == n,
            r + rounds == round_count(n as nat),
            values@ == rounds_applied(v0, key@, r),
            sum == round_sum(r),
            delta == xx_delta(),
            z == values@[last as int],
        decreases rounds,
    {
        rounds = rounds - 1;
        sum = sum.wrapping_add(delta);
        let e = (sum >> 2u32) & 3u32;
        let ghost before = values@;
        proof {
            assert(round_sum((r + 1) as nat) == round_sum(r).wrapping_add(xx_delta()));
            assert(sum == round_sum((r + 1) as nat));
        }
        let mut index: usize = 0;
        while index < last
            invariant
                n == before.len(),
                n >= 2,
                last == n - 1,
                key@.len() == 4,
                index <= last,
                e == (sum >> 2u32) & 3u32,
                values@ == pass_prefix(before, key@, sum, index as nat),
                z == (if index == 0 {
                    values@[last as int]
                } else {
                    values@[index - 1]
                }),
            decreases last - index,
        {
            proof {
                lemma_key_index(index as int, sum);
                lemma_pass_prefix_len(before, key@, sum, index as nat);
            }
            let y = values[index + 1];
            let k = key[(((index % 4) as u32) ^ e) as usize];
            let m = mix_exec(z, y, sum, k);
            let updated = values[index].wrapping_add(m);
            proof {
                vstd::arithmetic::div_mod::lemma_small_mod((index + 1) as nat, n as nat);
                assert(k == key_at(key@, index as int, sum));
                assert(values@.update(index as int, updated) == pass_prefix(
                    before,
                    key@,
                    sum,
                    (index + 1) as nat,
                ));
            }
            values.set(index, updated);
            z = values[index];
            index = index + 1;
        }
        proof {
            lemma_key_index(last as int, sum);
            lemma_pass_prefix_len(before, key@, sum, last as nat);
        }
        let y = values[0];
        let k = key[(((last % 4) as u32) ^ e) as usize];
        let m = mix_exec(z, y, sum, k);
        let updated = values[last].wrapping_add(m);
        proof {
            vstd::arithmetic::div_mod::lemma_mod_self_0(n as int);
            assert(k == key_at(key@, last as int, sum));
            assert(values@.update(last as int, updated) == pass_prefix(before, key@, sum, n as nat));
        }
        values.set(last, updated);
        z = values[last];
        proof {
            lemma_rounds_applied_len(v0, key@, r);
            r = r + 1;
        }
    }
}

proof fn lemma_pass_prefix_len(v: Seq<u32>, key: Seq<u32>, sum: u32, p: nat)
    requires
        p <= v.len(),
    ensures
        pass_prefix(v, key, sum, p).len() == v.len(),
    decreases p,
{
    if p > 0 {
        lemma_pass_prefix_len(v, key, sum, (p - 1) as nat);
    }
}

proof fn lemma_rounds_applied_len(v: Seq<u32>, key: Seq<u32>, r: nat)
    ensures
        rounds_applied(v, key, r).len() == v.len(),
    decreases r,
{
    if r > 0 {
        lemma_rounds_applied_len(v, key, (r - 1) as nat);
        let prev = rounds_applied(v, key, (r - 1) as nat);
        lemma_pass_prefix_len(prev, key, round_sum(r), prev.len());
    }
}

/// The little-endian bytes of `words`.
fn le_bytes_of(words: &Vec<u32>) -> (bytes: Vec<u8>)
    ensures
        bytes@ == words_le_bytes(words@),
{
    let mut bytes: Vec<u8> = Vec::new();
    let mut i: usize = 0;
    while i < words.len()
        invariant
            i <= words.len(),
            bytes@ == words_le_bytes(words@.take(i as int)),
        decreases words.len() - i,
    {
        let w = words[i];
        bytes.push((w & 0xff) as u8);
        bytes.push(((w >> 8u32) & 0xff) as u8);
        bytes.push(((w >> 16u32) & 0xff) as u8);
        bytes.push(((w >> 24u32) & 0xff) as u8);
        proof {
            assert(words@.take(i + 1).drop_last() == words@.take(i as int));
        }
        i = i + 1;
    }
    assert(words@.take(words.len() as int) == words@);
    bytes
}

/// Srun XXTEA variant. The text and key are packed from UTF-16 code units, as JavaScript's
/// `charCodeAt` sees them; the result is the little-endian bytes of the enciphered words,
/// or nothing for an empty text.
pub fn xencode(text: &str, key: &str) -> (out: Vec<u8>)
    ensures
        out@ == xencode_spec(text@, key@),
{
    let text_units = utf16_of(text);
    if text_units.len() == 0 {
        proof {
            lemma_utf16_units_len(text@);
        }
        return Vec::new();
    }
    proof {
        lemma_utf16_units_len(text@);
    }
    let mut values = packed_words(&text_units, true);
    let packed_key = packed_words(&utf16_of(key), false);
    let mut key_words_exec: Vec<u32> = Vec::new();
    let mut i: usize = 0;
    while i < 4
        invariant
            i <= 4,
            packed_key@ == packed_units(utf16_units(key@)),
            key_words_exec@ == key_words(key@).take(i as int),
        decreases 4 - i,
    {
        if i < packed_key.len() {
            key_words_exec.push(packed_key[i]);
        } else {
            key_words_exec.push(0u32);
        }
        proof {
            assert(key_words_exec@ == key_words(key@).take(i + 1));
        }
        i = i + 1;
    }
    assert(key_words_exec@ == key_words(key@));
    encipher(&mut values, &key_words_exec);
    le_bytes_of(&values)
}

proof fn lemma_words_le_bytes_len(ws: Seq<u32>)
    ensures
        words_le_bytes(ws).len() == 4 * ws.len(),
    decreases ws.len(),
{
    if ws.len() > 0 {
        lemma_words_le_bytes_len(ws.drop_last());
    }
}

/// XEncode keeps the block structure: an empty text gives no bytes; otherwise the output
/// holds one 4-byte word per four UTF-16 code units of the text (rounded up) plus one word
/// for the unit count.
pub proof fn lemma_xencode_length(text: Seq<char>, key: Seq<char>)
    ensures
        text.len() == 0 ==> xencode_spec(text, key).len() == 0,
        text.len() > 0 ==> xencode_spec(text, key).len() == 4 * (word_count(utf16_units(text).len()) + 1),
{
    if text.len() > 0 {
        let v = plaintext_words(text);
        assert(v.len() == word_count(utf16_units(text).len()) + 1);
        lemma_rounds_applied_len(v, key_words(key), round_count(v.len()));
        lemma_words_le_bytes_len(xencode_words(text, key));
    }
}

/// The first sixteen UTF-16 units of a key, zero-padded: all of the key that XEncode uses.
pub open spec fn key_prefix_units(units: Seq<u16>) -> Seq<u16> {
    Seq::new(16, |i: int| if i < units.len() { units[i] } else { 0u16 })
}

/// A group of units that starts past the end packs to nothing.
proof fn lemma_group_bits_past_end(units: Seq<u16>, j: int, k: nat)
    requires
        0 <= j,
        4 * j >= units.len(),
    ensures
        group_bits(units, j, k) == 0,
    decreases k,
{
    if k > 0 {
        lemma_group_bits_past_end(units, j, (k - 1) as nat);
    }
}

/// Within the first four groups, packing the units or their zero-padded prefix of sixteen
/// gives the same bits.
proof fn lemma_group_bits_prefix(units: Seq<u16>, j: int, k: nat)
    requires
        0 <= j < 4,
        k <= 4,
    ensures
        group_bits(units, j, k) == group_bits(key_prefix_units(units), j, k),
    decreases k,
{
    if k > 0 {
        lemma_group_bits_prefix(units, j, (k - 1) as nat);
        let i = 4 * j + (k - 1);
        let prev = group_bits(units, j, (k - 1) as nat);
        let s = (8 * (k - 1)) as u32;
        assert(key_prefix_units(units).len() == 16);
        if i >= units.len() {
            assert(key_prefix_units(units)[i] == 0u16);
            assert(prev | ((0u16 as u32) << s) == prev) by (bit_vector);
        }
    }
}

/// The key words are the packed words of the key's first sixteen units, zero-padded.
proof fn lemma_key_words_from_prefix(key: Seq<char>)
    ensures
        key_words(key) == Seq::new(4, |j: int| group_bits(key_prefix_units(utf16_units(key)), j, 4)),
{
    let units = utf16_units(key);
    let p = packed_units(units);
    assert forall|j: int| 0 <= j < 4 implies #[trigger] key_words(key)[j] == group_bits(
        key_prefix_units(units),
        j,
        4,
    ) by {
        lemma_group_bits_prefix(units, j, 4);
        if j >= p.len() {
            lemma_group_bits_past_end(units, j, 4);
        }
    }
    assert(key_words(key) =~= Seq::new(4, |j: int| group_bits(key_prefix_units(units), j, 4)));
}

/// XEncode uses only the first sixteen UTF-16 units of the key: two keys that agree there
/// (a shorter key counting as padded with zero units) encipher every text alike.
pub proof fn lemma_xencode_key_prefix(text: Seq<char>, key1: Seq<char>, key2: Seq<char>)
    requires
        key_prefix_units(utf16_units(key1)) == key_prefix_units(utf16_units(key2)),
    ensures
        xencode_spec(text, key1) == xencode_spec(text, key2),
{
    lemma_key_words_from_prefix(key1);
    lemma_key_words_from_prefix(key2);
    assert(key_words(key1) == key_words(key2));
}

} // verus!
