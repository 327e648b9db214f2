//! Character-level text helpers: UTF-8 offsets of character positions,
//! substring search and decimal rendering.

use vstd::prelude::*;
use vstd::utf8::*;

verus! {

/// Number of UTF-8 bytes that encode the first `k` characters of `s`.
pub open spec fn byte_offset(s: Seq<char>, k: int) -> int {
    encode_utf8(s.take(k)).len() as int
}

/// Number of UTF-8 bytes that encode all of `s`.
pub open spec fn byte_len(s: Seq<char>) -> int {
    encode_utf8(s).len() as int
}

/// Number of UTF-8 bytes that encode the single character `c`.
pub open spec fn char_width(c: char) -> int {
    encode_scalar(c as u32).len() as int
}

/// `needle` occurs as a contiguous run of characters inside `hay`.
pub open spec fn is_substring(needle: Seq<char>, hay: Seq<char>) -> bool {
    exists|i: int|
        0 <= i && i + needle.len() <= hay.len() && #[trigger] hay.subrange(i, i + needle.len())
            == needle
}

/// The ASCII digit for `d < 10`.
pub open spec fn digit_char(d: nat) -> char {
    ((48 + d) as u8) as char
}

/// Decimal notation of `n`, most significant digit first, without leading zeros.
pub open spec fn decimal(n: nat) -> Seq<char>
    decreases n,
{
    if n < 10 {
        seq![digit_char(n)]
    } else {
        decimal(n / 10).push(digit_char(n % 10))
    }
}

pub proof fn lemma_encode_concat(a: Seq<char>, b: Seq<char>)
    ensures
        encode_utf8(a + b) == encode_utf8(a) + encode_utf8(b),
    decreases a.len(),
{
    if a.len() == 0 {
        assert(a + b =~= b);
        assert(encode_utf8(a) =~= Seq::<u8>::empty());
        assert(encode_utf8(a) + encode_utf8(b) =~= encode_utf8(b));
    } else {
        assert((a + b).drop_first() =~= a.drop_first() + b);
        assert((a + b)[0] == a[0]);
        lemma_encode_concat(a.drop_first(), b);
        assert(encode_utf8(a + b) =~= encode_scalar(a[0] as u32) + encode_utf8(a.drop_first() + b));
        assert(encode_utf8(a + b) =~= encode_utf8(a) + encode_utf8(b));
    }
}

pub proof fn lemma_encode_single(c: char)
    ensures
        encode_utf8(seq![c]).len() == char_width(c),
{
    assert(seq![c].drop_first() =~= Seq::<char>::empty());
    assert(encode_utf8(seq![c]) =~= encode_scalar(c as u32) + encode_utf8(Seq::<char>::empty()));
}

/// Extending a prefix by one character adds that character's width.
pub proof fn lemma_byte_offset_step(s: Seq<char>, k: int)
    requires
        0 <= k < s.len(),
    ensures
        byte_offset(s, k + 1) == byte_offset(s, k) + char_width(s[k]),
{
    assert(s.take(k + 1) =~= s.take(k) + seq![s[k]]);
    lemma_encode_concat(s.take(k), seq![s[k]]);
    lemma_encode_single(s[k]);
}

/// A prefix never takes more bytes than the whole text.
pub proof fn lemma_byte_offset_bounded(s: Seq<char>, k: int)
    requires
        0 <= k <= s.len(),
    ensures
        0 <= byte_offset(s, k) <= byte_len(s),
{
    assert(s =~= s.take(k) + s.skip(k));
    lemma_encode_concat(s.take(k), s.skip(k));
}

/// A text takes at least one byte per character.
pub proof fn lemma_len_le_byte_len(s: Seq<char>)
    ensures
        s.len() <= byte_len(s),
    decreases s.len(),
{
    if s.len() > 0 {
        lemma_len_le_byte_len(s.drop_first());
        char_is_scalar(s[0]);
    }
}

/// Width of one character in UTF-8, from its scalar value.
pub fn utf8_width(c: char) -> (r: usize)
    ensures
        r == char_width(c),
        1 <= r <= 4,
{
    proof {
        char_is_scalar(c);
    }
    let v = c as u32;
    if v <= 0x7F {
        1
    } else if v <= 0x7FF {
        2
    } else if v <= 0xFFFF {
        3
    } else {
        4
    }
}

/// Byte offset of character position `k` in `s`, found by scanning the
/// characters from the start.
pub fn byte_offset_of(s: &str, k: usize) -> (r: usize)
    requires
        k <= s@.len(),
        byte_len(s@) <= usize::MAX,
    ensures
        r == byte_offset(s@, k as int),
{
    let mut i: usize = 0;
    let mut acc: usize = 0;
    proof {
        assert(s@.take(0) =~= Seq::<char>::empty());
    }
    while i < k
        invariant
            i <= k <= s@.len(),
            byte_len(s@) <= usize::MAX,
            acc == byte_offset(s@, i as int),
        decreases k - i,
    {
        let c = s.get_char(i);
        let w = utf8_width(c);
        proof {
            lemma_byte_offset_step(s@, i as int);
            lemma_byte_offset_bounded(s@, i + 1);
        }
        acc = acc + w;
        i = i + 1;
    }
    acc
}

/// The characters of `s`, in order.
pub fn chars_of(s: &str) -> (r: Vec<char>)
    ensures
        r@ == s@,
{
    let n = s.unicode_len();
    let mut out: Vec<char> = Vec::new();
    let mut i: usize = 0;
    while i < n
        invariant
            n == s@.len(),
            i <= n,
            out@ == s@.take(i as int),
        decreases n - i,
    {
        let c = s.get_char(i);
        out.push(c);
        i = i + 1;
        proof {
            assert(out@ =~= s@.take(i as int));
        }
    }
    proof {
        assert(out@ =~= s@);
    }
    out
}

/// Whether `needle` occurs as a contiguous run of characters in `hay`.
pub fn contains_chars(hay: &str, needle: &str) -> (r: bool)
    ensures
        r == is_substring(needle@, hay@),
{
    let h = chars_of(hay);
    let n = chars_of(needle);
    if n.len() == 0 {
        proof {
            assert(hay@.subrange(0, 0 + needle@.len() as int) =~= needle@);
        }
        return true;
    }
    if n.len() > h.len() {
        return false;
    }
    let last = h.len() - n.len();
    let mut i: usize = 0;
    while i <= last
        invariant
            h@ == hay@,
            n@ == needle@,
            last == h@.len() - n@.len(),
            n@.len() > 0,
            h@.len() <= usize::MAX,
            i <= last + 1,
            forall|p: int| 0 <= p < i ==> #[trigger] h@.subrange(p, p + n@.len()) != n@,
        decreases last + 1 - i,
    {
        let mut j: usize = 0;
        let mut same = true;
        while j < n.len() && same
            invariant
                h@ == hay@,
                n@ == needle@,
                i <= last,
                last == h@.len() - n@.len(),
                h@.len() <= usize::MAX,
                j <= n@.len(),
                same ==> forall|q: int| 0 <= q < j ==> h@[i + q] == n@[q],
                !same ==> h@.subrange(i as int, i + n@.len()) != n@,
            decreases n@.len() - j, (same as int),
        {
            if h[i + j] != n[j] {
                same = false;
                proof {
                    assert(h@.subrange(i as int, i + n@.len())[j as int] == h@[i + j]);
                }
            } else {
                j = j + 1;
            }
        }
        if same {
            proof {
                assert(h@.subrange(i as int, i + n@.len()) =~= n@);
            }
            return true;
        }
        i = i + 1;
    }
    proof {
        assert forall|p: int|
            0 <= p && p + needle@.len() <= hay@.len() implies #[trigger] hay@.subrange(
            p,
            p + needle@.len(),
        ) != needle@ by {
            assert(p < i);
        }
    }
    false
}

/// Relies on `String::push`: appends one character at the end (it panics
/// when the text would outgrow `isize::MAX` bytes).
#[verifier::external_body]
pub(crate) fn push_char(s: &mut String, c: char)
    requires
        byte_len(old(s)@) + char_width(c) <= isize::MAX,
    ensures
        final(s)@ == old(s)@.push(c),
{
    s.push(c)
}

/// Appending a character adds its width.
pub proof fn lemma_byte_len_push(t: Seq<char>, c: char)
    ensures
        byte_len(t.push(c)) == byte_len(t) + char_width(c),
        1 <= char_width(c) <= 4,
{
    assert(t.push(c) =~= t + seq![c]);
    lemma_encode_concat(t, seq![c]);
    lemma_encode_single(c);
    char_is_scalar(c);
}

/// Each digit takes one byte.
pub proof fn lemma_digit_width(d: nat)
    requires
        d < 10,
    ensures
        char_width(digit_char(d)) == 1,
{
}

/// Decimal notation is plain ASCII: one byte per character.
pub proof fn lemma_decimal_bytes(n: nat)
    ensures
        byte_len(decimal(n)) == decimal(n).len(),
    decreases n,
{
    if n < 10 {
        lemma_encode_single(digit_char(n));
        lemma_digit_width(n);
    } else {
        lemma_decimal_bytes(n / 10);
        let d = digit_char(n % 10);
        assert(decimal(n) =~= decimal(n / 10) + seq![d]);
        lemma_encode_concat(decimal(n / 10), seq![d]);
        lemma_encode_single(d);
        lemma_digit_width(n % 10);
    }
}

/// Appending ASCII decimal notation adds one byte per digit.
pub proof fn lemma_append_decimal_bytes(t: Seq<char>, n: nat)
    ensures
        byte_len(t + decimal(n)) == byte_len(t) + decimal(n).len(),
{
    lemma_encode_concat(t, decimal(n));
    lemma_decimal_bytes(n);
}

/// Ten to the power `k`.
pub open spec fn pow10(k: nat) -> nat
    decreases k,
{
    if k == 0 {
        1
    } else {
        10 * pow10((k - 1) as nat)
    }
}

/// A number below `10^k` takes at most `k` digits.
pub proof fn lemma_decimal_len(n: nat, k: nat)
    requires
        1 <= k,
        n < pow10(k),
    ensures
        decimal(n).len() <= k,
    decreases k,
{
    if n >= 10 {
        assert(n / 10 < pow10((k - 1) as nat));
        lemma_decimal_len(n / 10, (k - 1) as nat);
    }
}

/// Any `u64` takes at most twenty digits.
pub proof fn lemma_decimal_len_u64(n: u64)
    ensures
        decimal(n as nat).len() <= 20,
{
    reveal_with_fuel(pow10, 21);
    assert(pow10(20) == 100000000000000000000nat);
    lemma_decimal_len(n as nat, 20);
}

/// Appends the decimal notation of `n` to `s`.
pub fn push_decimal(s: &mut String, n: u64)
    requires
        byte_len(old(s)@) + decimal(n as nat).len() <= isize::MAX,
    ensures
        final(s)@ == old(s)@ + decimal(n as nat),
    decreases n,
{
    if n >= 10 {
        push_decimal(s, n / 10);
        proof {
            lemma_append_decimal_bytes(old(s)@, (n / 10) as nat);
        }
    }
    let d = (n % 10) as u8;
    proof {
        lemma_digit_width(d as nat);
    }
    proof {
        assert(old(s)@ + decimal(n as nat) =~= if n >= 10 {
            (old(s)@ + decimal((n / 10) as nat)).push(digit_char((n % 10) as nat))
        } else {
            old(s)@.push(digit_char(n as nat))
        });
    }
    push_char(s, (48u8 + d) as char);
}

} // verus!
