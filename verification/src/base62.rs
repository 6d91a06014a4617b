//! Base62 with leading zero bytes kept as leading `0` characters.
//!
//! The key data is read as a big-endian integer and written in base 62 over
//! the alphabet `0-9A-Za-z`. Each leading zero byte, which the integer would
//! lose, is written as one `0` character in front.

use vstd::prelude::*;
use crate::text::chars_of;
use vstd::string::StrSliceExecFns;
use vstd::string::StringExecFns;

verus! {

/// The value of a character of the alphabet `0-9A-Za-z`, `None` for any other.
pub open spec fn b62_digit_value(c: char) -> Option<nat> {
    let u = c as u32;
    if 48 <= u <= 57 {
        Some((u - 48) as nat)
    } else if 65 <= u <= 90 {
        Some((u - 55) as nat)
    } else if 97 <= u <= 122 {
        Some((u - 61) as nat)
    } else {
        None
    }
}

/// The character of the alphabet `0-9A-Za-z` for a digit below 62.
pub open spec fn b62_digit_char(d: nat) -> char {
    if d < 10 {
        (d + 48) as char
    } else if d < 36 {
        (d + 55) as char
    } else {
        (d + 61) as char
    }
}

/// The value of a byte string read as a big-endian integer.
pub open spec fn be_value(b: Seq<u8>) -> nat
    decreases b.len(),
{
    if b.len() == 0 {
        0
    } else {
        (be_value(b.drop_last()) * 256 + b.last()) as nat
    }
}

/// The shortest big-endian byte string of a number (empty for zero).
pub open spec fn be_bytes(v: nat) -> Seq<u8>
    decreases v,
{
    if v == 0 {
        Seq::empty()
    } else {
        be_bytes(v / 256).push((v % 256) as u8)
    }
}

/// The base-62 digits of a number, most significant first (empty for zero).
pub open spec fn b62_digits(v: nat) -> Seq<char>
    decreases v,
{
    if v == 0 {
        Seq::empty()
    } else {
        b62_digits(v / 62).push(b62_digit_char(v % 62))
    }
}

/// The number that the alphabet characters of `s` spell in base 62, most
/// significant first; characters outside the alphabet are passed over.
pub open spec fn b62_value(s: Seq<char>) -> nat
    decreases s.len(),
{
    if s.len() == 0 {
        0
    } else {
        match b62_digit_value(s.last()) {
            Some(d) => (b62_value(s.drop_last()) * 62 + d) as nat,
            None => b62_value(s.drop_last()),
        }
    }
}

/// The number of zero bytes at the start of `b`.
pub open spec fn leading_zero_bytes(b: Seq<u8>) -> nat
    decreases b.len(),
{
    if b.len() > 0 && b[0] == 0 {
        1 + leading_zero_bytes(b.drop_first())
    } else {
        0
    }
}

/// The number of `0` characters at the start of `s`.
pub open spec fn leading_zero_chars(s: Seq<char>) -> nat
    decreases s.len(),
{
    if s.len() > 0 && s[0] == '0' {
        1 + leading_zero_chars(s.drop_first())
    } else {
        0
    }
}

/// `n` copies of the character `c`.
pub open spec fn repeat_char(c: char, n: nat) -> Seq<char> {
    Seq::new(n, |_i: int| c)
}

/// `n` zero bytes.
pub open spec fn zero_bytes(n: nat) -> Seq<u8> {
    Seq::new(n, |_i: int| 0u8)
}

/// What `codeckit::Base62::encode` gives: a `1` for each leading zero byte,
/// then the base-62 digits of the whole input read as a big-endian integer.
pub open spec fn codeckit_encoding(b: Seq<u8>) -> Seq<char> {
    repeat_char('1', leading_zero_bytes(b)) + b62_digits(be_value(b))
}

/// What `codeckit::Base62::decode` gives: a zero byte for each leading `0`
/// character, then the shortest big-endian bytes of the number that the
/// alphabet characters spell (a single zero byte when that number is zero).
pub open spec fn codeckit_decoding(s: Seq<char>) -> Seq<u8> {
    let v = b62_value(s);
    zero_bytes(leading_zero_chars(s)) + if v == 0 {
        seq![0u8]
    } else {
        be_bytes(v)
    }
}

/// The zqlu Base62 encoding of `b`: a `0` for each leading zero byte, then the
/// Base62 encoding of the remaining bytes (nothing if none remain).
pub open spec fn spec_encode(b: Seq<u8>) -> Seq<char> {
    let z = leading_zero_bytes(b);
    repeat_char('0', z) + if z == b.len() {
        Seq::empty()
    } else {
        codeckit_encoding(b.subrange(z as int, b.len() as int))
    }
}

/// Whether `c` is passed over before the first digit other than `0`: a `0`,
/// or a character outside the alphabet, such as white space.
pub open spec fn before_digits(c: char) -> bool {
    c == '0' || b62_digit_value(c) is None
}

/// The index of the first digit of `s` other than `0`, or the length of `s`
/// where there is none.
pub open spec fn digits_start(s: Seq<char>) -> nat
    decreases s.len(),
{
    if s.len() > 0 && before_digits(s[0]) {
        1 + digits_start(s.drop_first())
    } else {
        0
    }
}

/// The number of `0` characters in `s`.
pub open spec fn zero_count(s: Seq<char>) -> nat
    decreases s.len(),
{
    if s.len() == 0 {
        0
    } else {
        zero_count(s.drop_last()) + if s.last() == '0' {
            1nat
        } else {
            0nat
        }
    }
}

/// The zqlu Base62 decoding of `s`: a zero byte for each `0` before the first
/// other digit, then the Base62 decoding of the text from that digit on
/// (nothing if there is none). Characters outside the alphabet, such as white
/// space, are passed over everywhere.
pub open spec fn spec_decode(s: Seq<char>) -> Seq<u8> {
    let p = digits_start(s);
    zero_bytes(zero_count(s.subrange(0, p as int))) + if p == s.len() {
        Seq::empty()
    } else {
        codeckit_decoding(s.subrange(p as int, s.len() as int))
    }
}

/// Whether every character of `s` is one that `codeckit::Base62::decode` can
/// look up (its table covers the code points below 256).
pub open spec fn decodable(s: Seq<char>) -> bool {
    forall|i: int| 0 <= i < s.len() ==> (s[i] as u32) < 256
}

/// Whether every character of `s` is in the alphabet `0-9A-Za-z`.
pub open spec fn all_b62_chars(s: Seq<char>) -> bool {
    forall|i: int| 0 <= i < s.len() ==> b62_digit_value(#[trigger] s[i]) is Some
}

proof fn lemma_digit_char_value(d: nat)
    requires
        d < 62,
    ensures
        b62_digit_value(b62_digit_char(d)) == Some(d),
        (d == 0) == (b62_digit_char(d) == '0'),
{
}

proof fn lemma_leading_zero_bytes(b: Seq<u8>)
    ensures
        leading_zero_bytes(b) <= b.len(),
        forall|i: int| 0 <= i < leading_zero_bytes(b) ==> b[i] == 0,
        leading_zero_bytes(b) < b.len() ==> b[leading_zero_bytes(b) as int] != 0,
    decreases b.len(),
{
    if b.len() > 0 && b[0] == 0 {
        lemma_leading_zero_bytes(b.drop_first());
        assert forall|i: int| 0 <= i < leading_zero_bytes(b) implies b[i] == 0 by {
            if i > 0 {
                assert(b[i] == b.drop_first()[i - 1]);
            }
        }
    }
}

proof fn lemma_leading_zero_chars_prefix(z: nat, t: Seq<char>)
    ensures
        leading_zero_chars(repeat_char('0', z) + t) == z + leading_zero_chars(t),
    decreases z,
{
    if z > 0 {
        lemma_leading_zero_chars_prefix((z - 1) as nat, t);
        assert((repeat_char('0', z) + t).drop_first() =~= repeat_char('0', (z - 1) as nat) + t);
    } else {
        assert(repeat_char('0', z) + t =~= t);
    }
}

proof fn lemma_digits(v: nat)
    ensures
        all_b62_chars(b62_digits(v)),
        b62_value(b62_digits(v)) == v,
        v > 0 ==> b62_digits(v).len() > 0 && b62_digits(v)[0] != '0',
    decreases v,
{
    if v > 0 {
        lemma_digits(v / 62);
        lemma_digit_char_value(v % 62);
        let s = b62_digits(v);
        assert(s.drop_last() =~= b62_digits(v / 62));
        assert(s.last() == b62_digit_char(v % 62));
        if v / 62 == 0 {
            assert(v % 62 == v);
        }
    }
}

proof fn lemma_be_roundtrip(r: Seq<u8>)
    requires
        r.len() > 0,
        r[0] != 0,
    ensures
        be_value(r) > 0,
        be_bytes(be_value(r)) == r,
    decreases r.len(),
{
    let p = r.drop_last();
    if r.len() == 1 {
        assert(be_value(p) == 0);
        assert(be_bytes(0) =~= Seq::<u8>::empty());
        assert(be_value(r) == r[0]);
        assert(be_bytes(be_value(r)) =~= r);
    } else {
        lemma_be_roundtrip(p);
        let v = be_value(r);
        assert(v == be_value(p) * 256 + r.last());
        assert(v / 256 == be_value(p));
        assert(v % 256 == r.last());
        assert(be_bytes(v) =~= r);
    }
}

/// Decoding gives back what encoding was given: every byte string, leading
/// zero bytes included, survives an encode and decode unchanged.
pub proof fn lemma_decode_encode(b: Seq<u8>)
    ensures
        spec_decode(spec_encode(b)) == b,
{
    let z = leading_zero_bytes(b);
    lemma_leading_zero_bytes(b);
    let e = spec_encode(b);
    if z == b.len() {
        assert(e =~= repeat_char('0', z));
        lemma_digits_start_count(e, z);
        assert(e.subrange(0, z as int) =~= e);
        lemma_zero_count_zeros(e);
        assert(spec_decode(e) =~= zero_bytes(z));
        assert(b =~= zero_bytes(z));
    } else {
        let r = b.subrange(z as int, b.len() as int);
        assert(r[0] == b[z as int]);
        assert(leading_zero_bytes(r) == 0);
        lemma_be_roundtrip(r);
        let v = be_value(r);
        lemma_digits(v);
        let d = b62_digits(v);
        assert(codeckit_encoding(r) =~= d);
        assert(e =~= repeat_char('0', z) + d);
        assert(e[z as int] == d[0]);
        assert(b62_digit_value(d[0]) is Some);
        lemma_digits_start_count(e, z);
        assert(e.subrange(0, z as int) =~= repeat_char('0', z));
        lemma_zero_count_zeros(repeat_char('0', z));
        assert(leading_zero_chars(d) == 0);
        assert(e.subrange(z as int, e.len() as int) =~= d);
        assert(codeckit_decoding(d) =~= be_bytes(v));
        assert(spec_decode(e) =~= zero_bytes(z) + r);
        assert(b =~= zero_bytes(z) + r);
    }
}

proof fn lemma_digits_start(s: Seq<char>)
    ensures
        digits_start(s) <= s.len(),
        forall|i: int| 0 <= i < digits_start(s) ==> before_digits(#[trigger] s[i]),
        digits_start(s) < s.len() ==> !before_digits(s[digits_start(s) as int]),
    decreases s.len(),
{
    if s.len() > 0 && before_digits(s[0]) {
        lemma_digits_start(s.drop_first());
        assert forall|i: int| 0 <= i < digits_start(s) implies before_digits(#[trigger] s[i]) by {
            if i > 0 {
                assert(s[i] == s.drop_first()[i - 1]);
            }
        }
    }
}

proof fn lemma_digits_start_count(s: Seq<char>, k: nat)
    requires
        k <= s.len(),
        forall|j: int| 0 <= j < k ==> before_digits(#[trigger] s[j]),
        k == s.len() || !before_digits(s[k as int]),
    ensures
        digits_start(s) == k,
    decreases k,
{
    if k > 0 {
        assert forall|j: int| 0 <= j < k - 1 implies before_digits(#[trigger] s.drop_first()[j]) by {
            assert(s.drop_first()[j] == s[j + 1]);
        }
        if k < s.len() {
            assert(s.drop_first()[k - 1] == s[k as int]);
        }
        lemma_digits_start_count(s.drop_first(), (k - 1) as nat);
        assert(before_digits(s[0]));
    }
}

/// A text of `0`s counts all of its characters.
proof fn lemma_zero_count_zeros(s: Seq<char>)
    requires
        forall|j: int| 0 <= j < s.len() ==> #[trigger] s[j] == '0',
    ensures
        zero_count(s) == s.len(),
    decreases s.len(),
{
    if s.len() > 0 {
        assert forall|j: int| 0 <= j < s.drop_last().len() implies #[trigger] s.drop_last()[j]
            == '0' by {
            assert(s.drop_last()[j] == s[j]);
        }
        lemma_zero_count_zeros(s.drop_last());
        assert(s.last() == s[s.len() - 1]);
    }
}

/// The `0`s of two texts put together add up.
proof fn lemma_zero_count_add(a: Seq<char>, b: Seq<char>)
    ensures
        zero_count(a + b) == zero_count(a) + zero_count(b),
    decreases b.len(),
{
    if b.len() == 0 {
        assert(a + b =~= a);
    } else {
        lemma_zero_count_add(a, b.drop_last());
        assert((a + b).drop_last() =~= a + b.drop_last());
        assert((a + b).last() == b.last());
    }
}

proof fn lemma_leading_zero_chars(s: Seq<char>)
    ensures
        leading_zero_chars(s) <= s.len(),
        forall|i: int| 0 <= i < leading_zero_chars(s) ==> s[i] == '0',
        leading_zero_chars(s) < s.len() ==> s[leading_zero_chars(s) as int] != '0',
    decreases s.len(),
{
    if s.len() > 0 && s[0] == '0' {
        lemma_leading_zero_chars(s.drop_first());
        assert forall|i: int| 0 <= i < leading_zero_chars(s) implies s[i] == '0' by {
            if i > 0 {
                assert(s[i] == s.drop_first()[i - 1]);
            }
        }
    }
}

proof fn lemma_value_passes_over(a: Seq<char>, w: char, b: Seq<char>)
    requires
        b62_digit_value(w) is None,
    ensures
        b62_value(a.push(w) + b) == b62_value(a + b),
    decreases b.len(),
{
    if b.len() == 0 {
        assert(a.push(w) + b =~= a.push(w));
        assert(a + b =~= a);
        assert(a.push(w).drop_last() =~= a);
    } else {
        lemma_value_passes_over(a, w, b.drop_last());
        assert((a.push(w) + b).drop_last() =~= a.push(w) + b.drop_last());
        assert((a + b).drop_last() =~= a + b.drop_last());
    }
}

/// White space (and any other character outside the alphabet) is passed over
/// in decoding wherever it stands, among the leading `0`s too: a key can be
/// split over lines or indented.
pub proof fn lemma_white_space_ignored(s: Seq<char>, i: int, w: char)
    requires
        b62_digit_value(w) is None,
        0 <= i <= s.len(),
    ensures
        spec_decode(s.insert(i, w)) == spec_decode(s),
{
    let p = digits_start(s);
    let t = s.insert(i, w);
    lemma_digits_start(s);
    if i <= p {
        assert forall|j: int| 0 <= j < p + 1 implies before_digits(#[trigger] t[j]) by {
            if j < i {
                assert(t[j] == s[j]);
            } else if j > i {
                assert(t[j] == s[j - 1]);
            }
        }
        if p < s.len() {
            assert(t[(p + 1) as int] == s[p as int]);
        }
        lemma_digits_start_count(t, p + 1);
        let a = s.subrange(0, i);
        let b = s.subrange(i, p as int);
        assert(t.subrange(0, (p + 1) as int) =~= a + seq![w] + b);
        assert(s.subrange(0, p as int) =~= a + b);
        lemma_zero_count_add(a + seq![w], b);
        lemma_zero_count_add(a, seq![w]);
        lemma_zero_count_add(a, b);
        assert(seq![w].drop_last() =~= Seq::<char>::empty());
        assert(b62_digit_value('0') is Some);
        assert(seq![w].last() == w);
        assert(w != '0');
        assert(zero_count(Seq::<char>::empty()) == 0);
        assert(zero_count(seq![w]) == zero_count(seq![w].drop_last()));
        assert(zero_count(seq![w]) == 0);
        assert(t.subrange((p + 1) as int, t.len() as int) =~= s.subrange(p as int, s.len() as int));
        assert(spec_decode(t) =~= spec_decode(s));
    } else {
        assert forall|j: int| 0 <= j < p implies before_digits(#[trigger] t[j]) by {
            assert(t[j] == s[j]);
        }
        assert(t[p as int] == s[p as int]);
        lemma_digits_start_count(t, p);
        assert(t.subrange(0, p as int) =~= s.subrange(0, p as int));
        let rest = s.subrange(p as int, s.len() as int);
        let rest2 = t.subrange(p as int, t.len() as int);
        let a = s.subrange(p as int, i);
        let b = s.subrange(i, s.len() as int);
        assert(rest =~= a + b);
        assert(rest2 =~= a.push(w) + b);
        lemma_value_passes_over(a, w, b);
        assert(rest[0] == s[p as int]);
        assert(rest2[0] == s[p as int]);
        assert(leading_zero_chars(rest) == 0);
        assert(leading_zero_chars(rest2) == 0);
        assert(codeckit_decoding(rest2) =~= codeckit_decoding(rest));
        assert(spec_decode(t) =~= spec_decode(s));
    }
}

/// A byte string that is not empty is not encoded as empty text.
pub proof fn lemma_encode_nonempty(b: Seq<u8>)
    requires
        b.len() > 0,
    ensures
        spec_encode(b).len() > 0,
{
    let z = leading_zero_bytes(b);
    lemma_leading_zero_bytes(b);
    if z == 0 {
        let r = b.subrange(0, b.len() as int);
        assert(r[0] == b[0]);
        lemma_be_roundtrip(r);
        lemma_digits(be_value(r));
    }
}

/// Every character of a zqlu Base62 encoding is a digit or a letter.
pub proof fn lemma_encode_chars(b: Seq<u8>)
    ensures
        all_b62_chars(spec_encode(b)),
{
    let z = leading_zero_bytes(b);
    let e = spec_encode(b);
    lemma_leading_zero_bytes(b);
    if z < b.len() {
        let r = b.subrange(z as int, b.len() as int);
        lemma_digits(be_value(r));
        let ones = repeat_char('1', leading_zero_bytes(r));
        let d = b62_digits(be_value(r));
        assert(e =~= repeat_char('0', z) + ones + d);
        assert forall|i: int| 0 <= i < e.len() implies b62_digit_value(#[trigger] e[i]) is Some by {
            if i < z {
                assert(e[i] == '0');
            } else if i < z + ones.len() {
                assert(e[i] == '1');
            } else {
                assert(e[i] == d[i - z - ones.len()]);
            }
        }
    } else {
        assert(e =~= repeat_char('0', z));
        assert forall|i: int| 0 <= i < e.len() implies b62_digit_value(#[trigger] e[i]) is Some by {
            assert(e[i] == '0');
        }
    }
}

/// `codeckit::Base62::encode`: a `1` for each leading zero byte, then the
/// base-62 digits of the input read as a big-endian integer.
#[verifier::external_body]
fn codeckit_encode(input: &[u8]) -> (s: String)
    ensures
        s@ == codeckit_encoding(input@),
{
    codeckit::Base62::encode(input)
}

/// `codeckit::Base62::decode`: a zero byte for each leading `0` character,
/// then the shortest big-endian bytes of the number that the alphabet
/// characters spell (other characters are skipped). It looks each character
/// up in a table of 256 entries by code point, so every character must lie
/// below 256.
#[verifier::external_body]
fn codeckit_decode(input: &str) -> (v: Vec<u8>)
    requires
        decodable(input@),
    ensures
        v@ == codeckit_decoding(input@),
{
    codeckit::Base62::decode(input)
}

/// Encodes `input`: a `0` for each leading zero byte, then the Base62
/// encoding of the rest.
pub fn encode(input: &[u8]) -> (out: String)
    ensures
        out@ == spec_encode(input@),
{
    let mut leading_zeroes: usize = 0;
    while leading_zeroes < input.len() && input[leading_zeroes] == 0
        invariant
            leading_zeroes <= input@.len(),
            forall|j: int| 0 <= j < leading_zeroes ==> input@[j] == 0,
        decreases input@.len() - leading_zeroes,
    {
        leading_zeroes = leading_zeroes + 1;
    }
    proof {
        lemma_leading_zero_count(input@, leading_zeroes as nat);
    }
    if leading_zeroes == 0 {
        let out = codeckit_encode(input);
        proof {
            assert(input@.subrange(0, input@.len() as int) =~= input@);
            if input@.len() == 0 {
                assert(be_value(input@) == 0);
                assert(out@ =~= Seq::<char>::empty());
            }
            assert(spec_encode(input@) =~= out@);
        }
        return out;
    }
    let rest = &input[leading_zeroes..input.len()];
    let mut out = String::new();
    let mut i: usize = 0;
    while i < leading_zeroes
        invariant
            i <= leading_zeroes,
            out@ == repeat_char('0', i as nat),
        decreases leading_zeroes - i,
    {
        proof {
            reveal_strlit("0");
        }
        out.append("0");
        i = i + 1;
        assert(out@ =~= repeat_char('0', i as nat));
    }
    if rest.len() > 0 {
        let encoded = codeckit_encode(rest);
        out.append(encoded.as_str());
    }
    assert(out@ =~= spec_encode(input@));
    out
}

proof fn lemma_be_value_zeros(z: nat)
    ensures
        be_value(zero_bytes(z)) == 0,
    decreases z,
{
    if z > 0 {
        assert(zero_bytes(z).drop_last() =~= zero_bytes((z - 1) as nat));
        lemma_be_value_zeros((z - 1) as nat);
    }
}

proof fn lemma_be_value_leading_zeros(z: nat, r: Seq<u8>)
    ensures
        be_value(zero_bytes(z) + r) == be_value(r),
    decreases r.len(),
{
    if r.len() == 0 {
        assert(zero_bytes(z) + r =~= zero_bytes(z));
        lemma_be_value_zeros(z);
    } else {
        lemma_be_value_leading_zeros(z, r.drop_last());
        assert((zero_bytes(z) + r).drop_last() =~= zero_bytes(z) + r.drop_last());
    }
}

/// Encodes `input` by `codeckit::Base62::encode` and writes each leading zero
/// byte's `1` as `0`: the same text as [`encode`] writes.
pub fn encode_base62(input: &[u8]) -> (out: String)
    ensures
        out@ == spec_encode(input@),
{
    let mut leading_zeroes: usize = 0;
    while leading_zeroes < input.len() && input[leading_zeroes] == 0
        invariant
            leading_zeroes <= input@.len(),
            forall|j: int| 0 <= j < leading_zeroes ==> input@[j] == 0,
        decreases input@.len() - leading_zeroes,
    {
        leading_zeroes = leading_zeroes + 1;
    }
    let ghost z = leading_zeroes as nat;
    let ghost rest = input@.subrange(z as int, input@.len() as int);
    proof {
        lemma_leading_zero_count(input@, z);
        assert(input@ =~= zero_bytes(z) + rest);
        lemma_be_value_leading_zeros(z, rest);
        if z < input@.len() {
            assert(rest[0] == input@[z as int]);
            assert(leading_zero_bytes(rest) == 0);
        } else {
            assert(rest =~= Seq::<u8>::empty());
        }
    }
    let encoded = codeckit_encode(input);
    if leading_zeroes == 0 {
        proof {
            assert(rest =~= input@);
            assert(encoded@ =~= spec_encode(input@));
        }
        return encoded;
    }
    let mut out = String::new();
    let mut i: usize = 0;
    while i < leading_zeroes
        invariant
            i <= leading_zeroes,
            out@ == repeat_char('0', i as nat),
        decreases leading_zeroes - i,
    {
        proof {
            reveal_strlit("0");
        }
        out.append("0");
        i = i + 1;
        assert(out@ =~= repeat_char('0', i as nat));
    }
    let n = encoded.as_str().unicode_len();
    out.append(encoded.as_str().substring_char(leading_zeroes, n));
    assert(out@ =~= spec_encode(input@));
    out
}

/// Whether `c` is a digit of the alphabet `0-9A-Za-z`.
fn is_digit(c: char) -> (r: bool)
    ensures
        r == (b62_digit_value(c) is Some),
{
    let u = c as u32;
    (48 <= u && u <= 57) || (65 <= u && u <= 90) || (97 <= u && u <= 122)
}

/// Decodes `input`: a zero byte for each `0` before the first other digit,
/// then the Base62 decoding of the rest; white space is passed over.
pub fn decode(input: &str) -> (out: Vec<u8>)
    requires
        decodable(input@),
    ensures
        out@ == spec_decode(input@),
{
    let chars = chars_of(input);
    let n = chars.len();
    let mut start: usize = 0;
    let mut zeros: usize = 0;
    while start < n && (chars[start] == '0' || !is_digit(chars[start]))
        invariant
            n == input@.len(),
            chars@ == input@,
            start <= n,
            zeros <= start,
            forall|j: int| 0 <= j < start ==> before_digits(#[trigger] input@[j]),
            zeros == zero_count(input@.subrange(0, start as int)),
        decreases n - start,
    {
        let ghost prefix = input@.subrange(0, start as int);
        if chars[start] == '0' {
            zeros = zeros + 1;
        }
        start = start + 1;
        assert(input@.subrange(0, start as int).drop_last() =~= prefix);
    }
    proof {
        lemma_digits_start_count(input@, start as nat);
    }
    let mut out: Vec<u8> = Vec::new();
    let mut i: usize = 0;
    while i < zeros
        invariant
            i <= zeros,
            out@ == zero_bytes(i as nat),
        decreases zeros - i,
    {
        out.push(0u8);
        i = i + 1;
        assert(out@ =~= zero_bytes(i as nat));
    }
    if start < n {
        let rest = input.substring_char(start, n);
        let decoded = codeckit_decode(rest);
        out.extend_from_slice(decoded.as_slice());
    }
    assert(out@ =~= spec_decode(input@));
    out
}

proof fn lemma_leading_zero_count(b: Seq<u8>, k: nat)
    requires
        k <= b.len(),
        forall|j: int| 0 <= j < k ==> b[j] == 0,
        k == b.len() || b[k as int] != 0,
    ensures
        leading_zero_bytes(b) == k,
    decreases k,
{
    if k > 0 {
        lemma_leading_zero_count(b.drop_first(), (k - 1) as nat);
    }
}

proof fn lemma_leading_zero_char_count(s: Seq<char>, k: nat)
    requires
        k <= s.len(),
        forall|j: int| 0 <= j < k ==> s[j] == '0',
        k == s.len() || s[k as int] != '0',
    ensures
        leading_zero_chars(s) == k,
    decreases k,
{
    if k > 0 {
        lemma_leading_zero_char_count(s.drop_first(), (k - 1) as nat);
    }
}

} // verus!

verus! {

/// A character of the alphabet is the character of its own digit.
proof fn lemma_char_digit(c: char)
    requires
        b62_digit_value(c) is Some,
    ensures
        b62_digit_value(c)->0 < 62,
        b62_digit_char(b62_digit_value(c)->0) == c,
        (b62_digit_value(c)->0 == 0) == (c == '0'),
{
    let u = c as u32;
    let d = b62_digit_value(c)->0;
    if 48 <= u <= 57 {
        assert((d + 48) as char == c);
    } else if 65 <= u <= 90 {
        assert((d + 55) as char == c);
    } else {
        assert((d + 61) as char == c);
    }
}

/// The shortest big-endian bytes of a positive number start with a non-zero
/// byte and spell the number.
proof fn lemma_be_bytes(v: nat)
    requires
        v > 0,
    ensures
        be_bytes(v).len() > 0,
        be_bytes(v)[0] != 0,
        be_value(be_bytes(v)) == v,
    decreases v,
{
    let b = be_bytes(v);
    assert(b.drop_last() =~= be_bytes(v / 256));
    assert(b.last() == (v % 256) as u8);
    assert(b.last() == v % 256);
    assert(be_value(b) == be_value(be_bytes(v / 256)) * 256 + v % 256);
    vstd::arithmetic::div_mod::lemma_fundamental_div_mod(v as int, 256);
    if v / 256 == 0 {
        assert(be_bytes(0) =~= Seq::<u8>::empty());
        assert(be_value(be_bytes(0)) == 0);
        assert(b[0] == (v % 256) as u8);
    } else {
        lemma_be_bytes(v / 256);
        assert(b[0] == be_bytes(v / 256)[0]);
    }
}

/// Alphabet characters that do not start with `0` are the base-62 digits of
/// the number they spell, which is positive.
proof fn lemma_digits_of_value(t: Seq<char>)
    requires
        t.len() > 0,
        all_b62_chars(t),
        t[0] != '0',
    ensures
        b62_value(t) > 0,
        b62_digits(b62_value(t)) == t,
    decreases t.len(),
{
    let p = t.drop_last();
    let c = t.last();
    assert(b62_digit_value(t[t.len() - 1]) is Some);
    lemma_char_digit(c);
    let d = b62_digit_value(c)->0;
    let v = b62_value(t);
    if p.len() == 0 {
        assert(b62_value(p) == 0);
        assert(c == t[0]);
        assert(v == d);
        assert(b62_digits(v / 62) =~= Seq::<char>::empty());
        assert(b62_digits(v) =~= t);
    } else {
        assert forall|i: int| 0 <= i < p.len() implies b62_digit_value(#[trigger] p[i]) is Some by {
            assert(p[i] == t[i]);
        }
        assert(p[0] == t[0]);
        lemma_digits_of_value(p);
        assert(v == b62_value(p) * 62 + d);
        assert(v / 62 == b62_value(p) && v % 62 == d) by (nonlinear_arith)
            requires
                v == b62_value(p) * 62 + d,
                d < 62,
        ;
        assert(b62_digits(v) =~= p.push(c));
    }
}

/// In a text of alphabet characters the digits start after the leading `0`s.
proof fn lemma_decode_alphabet(s: Seq<char>)
    requires
        all_b62_chars(s),
    ensures
        spec_decode(s) == zero_bytes(leading_zero_chars(s)) + if leading_zero_chars(s) == s.len() {
            Seq::<u8>::empty()
        } else {
            codeckit_decoding(s.subrange(leading_zero_chars(s) as int, s.len() as int))
        },
{
    let z = leading_zero_chars(s);
    lemma_leading_zero_chars(s);
    if z < s.len() {
        assert(b62_digit_value(s[z as int]) is Some);
    }
    assert forall|j: int| 0 <= j < z implies before_digits(#[trigger] s[j]) by {}
    lemma_digits_start_count(s, z);
    assert forall|j: int| 0 <= j < z implies #[trigger] s.subrange(0, z as int)[j] == '0' by {
        assert(s.subrange(0, z as int)[j] == s[j]);
    }
    lemma_zero_count_zeros(s.subrange(0, z as int));
}

/// Decoding a text of alphabet characters and encoding the bytes again gives
/// the text back: each leading `0` stands for a zero byte, and the rest, which
/// starts with another digit, is the shortest spelling of its number.
#[verifier::spinoff_prover]
#[verifier::rlimit(40)]
pub proof fn lemma_encode_decode(s: Seq<char>)
    requires
        all_b62_chars(s),
    ensures
        spec_encode(spec_decode(s)) == s,
{
    let z = leading_zero_chars(s);
    lemma_leading_zero_chars(s);
    lemma_decode_alphabet(s);
    let b = spec_decode(s);
    if z == s.len() {
        assert(b =~= zero_bytes(z));
        lemma_leading_zero_count(b, z);
        assert(s =~= repeat_char('0', z));
        assert(spec_encode(b) =~= repeat_char('0', z));
    } else {
        let t = s.subrange(z as int, s.len() as int);
        assert(t[0] == s[z as int]);
        assert forall|i: int| 0 <= i < t.len() implies b62_digit_value(#[trigger] t[i]) is Some by {
            assert(t[i] == s[i + z]);
        }
        lemma_digits_of_value(t);
        let v = b62_value(t);
        lemma_leading_zero_char_count(t, 0);
        assert(codeckit_decoding(t) =~= be_bytes(v));
        lemma_be_bytes(v);
        let r = be_bytes(v);
        assert(b =~= zero_bytes(z) + r);
        assert forall|j: int| 0 <= j < z implies b[j] == 0 by {}
        assert(b[z as int] == r[0]);
        lemma_leading_zero_count(b, z);
        assert(b.subrange(z as int, b.len() as int) =~= r);
        lemma_leading_zero_count(r, 0);
        assert(codeckit_encoding(r) =~= b62_digits(v));
        assert(s =~= repeat_char('0', z) + t);
    }
}

/// The alphabet is the digits `0`-`9`, then the capital letters `A`-`Z`,
/// then the small letters `a`-`z`, for the values 0 to 61 in turn.
pub proof fn lemma_alphabet(d: nat)
    requires
        d < 62,
    ensures
        d < 10 ==> b62_digit_char(d) as u32 == '0' as u32 + d,
        10 <= d < 36 ==> b62_digit_char(d) as u32 == 'A' as u32 + (d - 10),
        36 <= d ==> b62_digit_char(d) as u32 == 'a' as u32 + (d - 36),
        b62_digit_value(b62_digit_char(d)) == Some(d),
{
}

/// A zero byte in front is written as a `0` in front, and bytes that do not
/// start with a zero byte are written as `codeckit` writes them.
pub proof fn lemma_encode_leading_zero(b: Seq<u8>)
    ensures
        b.len() > 0 && b[0] == 0 ==> spec_encode(b) == seq!['0'] + spec_encode(b.subrange(1, b.len() as int)),
        b.len() > 0 && b[0] != 0 ==> spec_encode(b) == codeckit_encoding(b),
{
    let z = leading_zero_bytes(b);
    if b.len() > 0 && b[0] == 0 {
        let c = b.subrange(1, b.len() as int);
        assert(b.drop_first() =~= c);
        assert(z == 1 + leading_zero_bytes(c));
        lemma_leading_zero_bytes(c);
        assert(repeat_char('0', z) =~= seq!['0'] + repeat_char('0', leading_zero_bytes(c)));
        assert(c.subrange(leading_zero_bytes(c) as int, c.len() as int) =~= b.subrange(
            z as int,
            b.len() as int,
        ));
        assert(spec_encode(b) =~= seq!['0'] + spec_encode(c));
    } else if b.len() > 0 {
        assert(z == 0);
        assert(b.subrange(0, b.len() as int) =~= b);
        assert(repeat_char('0', 0) =~= Seq::<char>::empty());
        assert(spec_encode(b) =~= codeckit_encoding(b));
    }
}

} // verus!
