//! Base62 text form of identifiers: digits `0-9`, then `A-Z`, then `a-z`,
//! most significant digit first. Zero is written as the empty string.
use vstd::prelude::*;

verus! {

/// Largest value a decoded identifier can take.
pub const MAX_DECODED: u64 = 0xFFFF_FFFF_FFFF_FFFF;

/// Why a string is not the base62 form of a `u64`.
#[derive(Debug, Clone, Copy, PartialEq, Eq, Structural)]
pub enum DecodeError {
    /// A character outside the base62 alphabet.
    InvalidBase62(char),
    /// The digits denote a number larger than `u64::MAX`.
    NumberOutOfRange,
}

/// Value of a base62 digit, or -1 for a character outside the alphabet.
pub open spec fn digit_value(c: char) -> int {
    let n = c as int;
    if 48 <= n <= 57 {
        n - 48
    } else if 65 <= n <= 90 {
        n - 55
    } else if 97 <= n <= 122 {
        n - 61
    } else {
        -1
    }
}

/// The digit character for `0 <= d < 62`.
pub open spec fn digit_char(d: int) -> char {
    if d < 10 {
        (d + 48) as char
    } else if d < 36 {
        (d + 55) as char
    } else {
        (d + 61) as char
    }
}

pub open spec fn all_digits(s: Seq<char>) -> bool {
    forall|i: int| 0 <= i < s.len() ==> digit_value(#[trigger] s[i]) >= 0
}

/// The number denoted by a string of base62 digits.
pub open spec fn value_of(s: Seq<char>) -> nat
    decreases s.len(),
{
    if s.len() == 0 {
        0
    } else {
        (value_of(s.drop_last()) * 62 + digit_value(s.last())) as nat
    }
}

/// The base62 form of `n`, without leading zeros.
pub open spec fn encode_spec(n: nat) -> Seq<char>
    decreases n,
{
    if n == 0 {
        seq![]
    } else {
        encode_spec(n / 62).push(digit_char((n % 62) as int))
    }
}

/// `k` is the length of the longest prefix of `s` made of digits.
pub open spec fn is_digit_run(s: Seq<char>, k: int) -> bool {
    &&& 0 <= k <= s.len()
    &&& all_digits(s.take(k))
    &&& (k == s.len() || digit_value(s[k]) < 0)
}

pub open spec fn digit_run(s: Seq<char>) -> int {
    choose|k: int| is_digit_run(s, k)
}

/// What decoding `s` yields, reading left to right: the digits read so far
/// overflow first, or a bad character is met first, or the whole string is
/// a number in range.
pub open spec fn decoded(s: Seq<char>) -> Result<u64, DecodeError> {
    let k = digit_run(s);
    if value_of(s.take(k)) > MAX_DECODED {
        Err(DecodeError::NumberOutOfRange)
    } else if k < s.len() {
        Err(DecodeError::InvalidBase62(s[k]))
    } else {
        Ok(value_of(s) as u64)
    }
}

proof fn lemma_digit_char(d: int)
    requires
        0 <= d < 62,
    ensures
        digit_value(digit_char(d)) == d,
{
}

proof fn lemma_encode(n: nat)
    ensures
        all_digits(encode_spec(n)),
        value_of(encode_spec(n)) == n,
    decreases n,
{
    if n > 0 {
        lemma_encode(n / 62);
        lemma_digit_char((n % 62) as int);
        let e = encode_spec(n);
        assert(e.drop_last() =~= encode_spec(n / 62));
    }
}

proof fn lemma_digit_run_unique(s: Seq<char>, k: int)
    requires
        is_digit_run(s, k),
    ensures
        digit_run(s) == k,
{
    let j = digit_run(s);
    assert(is_digit_run(s, j));
    if j < k {
        assert(s.take(k)[j] == s[j]);
    } else if k < j {
        assert(s.take(j)[k] == s[k]);
    }
}

proof fn lemma_digit_run_from(s: Seq<char>, i: int)
    requires
        0 <= i <= s.len(),
        all_digits(s.take(i)),
    ensures
        is_digit_run(s, digit_run(s)),
    decreases s.len() - i,
{
    if i == s.len() || digit_value(s[i]) < 0 {
        assert(is_digit_run(s, i));
    } else {
        assert forall|j: int| 0 <= j < i + 1 implies digit_value(#[trigger] s.take(i + 1)[j]) >= 0 by {
            if j < i {
                assert(s.take(i + 1)[j] == s.take(i)[j]);
            }
        }
        lemma_digit_run_from(s, i + 1);
    }
}

proof fn lemma_value_mono(s: Seq<char>, a: int, b: int)
    requires
        0 <= a <= b <= s.len(),
        all_digits(s.take(b)),
    ensures
        value_of(s.take(a)) <= value_of(s.take(b)),
    decreases b,
{
    if a < b {
        assert(s.take(b).drop_last() =~= s.take(b - 1));
        assert(s.take(b)[b - 1] == s[b - 1]);
        assert forall|i: int| 0 <= i < b - 1 implies digit_value(#[trigger] s.take(b - 1)[i]) >= 0 by {
            assert(s.take(b - 1)[i] == s.take(b)[i]);
        }
        lemma_value_mono(s, a, b - 1);
    }
}

/// Decoding the base62 form of any `u64` gives the number back.
pub proof fn lemma_round_trip(x: u64)
    ensures
        decoded(encode_spec(x as nat)) == Ok::<u64, DecodeError>(x),
{
    let e = encode_spec(x as nat);
    lemma_encode(x as nat);
    assert(e.take(e.len() as int) =~= e);
    lemma_digit_run_unique(e, e.len() as int);
}

fn digit_to_char(d: u64) -> (c: char)
    requires
        d < 62,
    ensures
        c == digit_char(d as int),
{
    let b: u8 = if d < 10 {
        (d + 48) as u8
    } else if d < 36 {
        (d + 55) as u8
    } else {
        (d + 61) as u8
    };
    b as char
}

fn char_to_digit(c: char) -> (r: Option<u64>)
    ensures
        digit_value(c) < 0 ==> r is None,
        digit_value(c) >= 0 ==> r == Some(digit_value(c) as u64),
{
    let n = c as u32;
    if 48 <= n && n <= 57 {
        Some((n - 48) as u64)
    } else if 65 <= n && n <= 90 {
        Some((n - 55) as u64)
    } else if 97 <= n && n <= 122 {
        Some((n - 61) as u64)
    } else {
        None
    }
}

/// Relies on `String::insert`: at index 0 it puts the character in front.
#[verifier::external_body]
fn prepend_char(s: &mut String, c: char)
    ensures
        final(s)@ == seq![c] + old(s)@,
{
    s.insert(0, c)
}

/// The base62 form of `num`.
pub fn to_base62(num: u64) -> (r: String)
    ensures
        r@ == encode_spec(num as nat),
        decoded(r@) == Ok::<u64, DecodeError>(num),
{
    proof {
        lemma_round_trip(num);
    }
    let mut output = String::new();
    let mut n: u64 = num;
    while n > 0
        invariant
            encode_spec(num as nat) == encode_spec(n as nat) + output@,
        decreases n,
    {
        let c = digit_to_char(n % 62);
        let ghost before = output@;
        prepend_char(&mut output, c);
        assert(encode_spec(n as nat) == encode_spec((n / 62) as nat).push(c));
        assert(encode_spec(n as nat) + before =~= encode_spec((n / 62) as nat) + output@);
        n = n / 62;
    }
    assert(output@ =~= encode_spec(0) + output@);
    output
}

/// Reads a base62 string back into a number. The base62 form of any
/// number reads back as that number.
pub fn parse_base62(string: &str) -> (r: Result<u64, DecodeError>)
    ensures
        r == decoded(string@),
        forall|x: u64| string@ == encode_spec(x as nat) ==> r == Ok::<u64, DecodeError>(x),
{
    proof {
        assert forall|x: u64| string@ == encode_spec(x as nat) implies decoded(string@) == Ok::<
            u64,
            DecodeError,
        >(x) by {
            lemma_round_trip(x);
        }
    }
    read_digits(string)
}

fn read_digits(string: &str) -> (r: Result<u64, DecodeError>)
    ensures
        r == decoded(string@),
{
    let s = Ghost(string@);
    let len = string.unicode_len();
    let mut num: u64 = 0;
    let mut i: usize = 0;
    while i < len
        invariant
            len == s@.len(),
            s@ == string@,
            0 <= i <= len,
            all_digits(s@.take(i as int)),
            num == value_of(s@.take(i as int)),
        decreases len - i,
    {
        let c = string.get_char(i);
        let next = char_to_digit(c);
        proof {
            assert(s@.take(i as int + 1).drop_last() =~= s@.take(i as int));
            assert(s@.take(i as int + 1).last() == c);
        }
        match next {
            None => {
                proof {
                    lemma_digit_run_unique(s@, i as int);
                }
                return Err(DecodeError::InvalidBase62(c));
            },
            Some(d) => {
                assert(all_digits(s@.take(i as int + 1))) by {
                    assert forall|j: int| 0 <= j < i + 1 implies digit_value(
                        #[trigger] s@.take(i as int + 1)[j],
                    ) >= 0 by {
                        if j < i {
                            assert(s@.take(i as int + 1)[j] == s@.take(i as int)[j]);
                        }
                    }
                }
                let step = match num.checked_mul(62) {
                    Some(m) => m.checked_add(d),
                    None => None,
                };
                match step {
                    Some(v) => {
                        num = v;
                    },
                    None => {
                        proof {
                            lemma_digit_run_from(s@, i as int + 1);
                            let k = digit_run(s@);
                            if k <= i {
                                assert(s@.take(i as int + 1)[k] == s@[k]);
                            }
                            lemma_value_mono(s@, i as int + 1, k);
                        }
                        return Err(DecodeError::NumberOutOfRange);
                    },
                }
                i = i + 1;
            },
        }
    }
    proof {
        assert(s@.take(len as int) =~= s@);
        lemma_digit_run_unique(s@, len as int);
    }
    Ok(num)
}

} // verus!
