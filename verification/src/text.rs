//! Text handling on sequences of characters.
//!
//! Strings cross the library's boundary as `String` and `&str`; inside, the
//! algorithms work on `Vec<char>`, whose view is the same `Seq<char>` that a
//! string's view is.

use vstd::prelude::*;
use vstd::std_specs::iter::IteratorSpec;

verus! {

/// The characters of `s`, in order.
pub fn chars_of(s: &str) -> (res: Vec<char>)
    ensures
        res@ == s@,
{
    broadcast use vstd::string::group_string_axioms;

    let mut out: Vec<char> = Vec::new();
    for c in it: s.chars()
        invariant
            it.seq() == s@,
            out@ == it.seq().take(it.index()),
    {
        out.push(c);
    }
    out
}

/// Collects characters into a `String` with `String::from_iter`: the string
/// holds exactly the given characters, in order.
#[verifier::external_body]
pub(crate) fn string_of(chars: &Vec<char>) -> (res: String)
    ensures
        res@ == chars@,
{
    String::from_iter(chars.iter())
}

/// What `String::from_utf8_lossy` makes of `bytes`: their text as UTF-8, with
/// U+FFFD in place of what is not UTF-8.
pub uninterp spec fn lossy_text(bytes: Seq<u8>) -> Seq<char>;

/// Decodes `bytes` with `String::from_utf8_lossy`.
#[verifier::external_body]
pub(crate) fn decode_lossy(bytes: &Vec<u8>) -> (res: String)
    ensures
        res@ == lossy_text(bytes@),
{
    String::from_utf8_lossy(bytes).into_owned()
}

/// Reads `bytes` as UTF-8 with `String::from_utf8`: the text that the bytes
/// encode, and `None` where they are not UTF-8.
#[verifier::external_body]
pub(crate) fn decode_utf8_text(bytes: Vec<u8>) -> (res: Option<String>)
    ensures
        res is Some <==> vstd::utf8::valid_utf8(bytes@),
        res matches Some(s) ==> s@ == vstd::utf8::decode_utf8(bytes@),
{
    String::from_utf8(bytes).ok()
}

/// Appends `tail` to `out`.
pub fn push_all(out: &mut Vec<char>, tail: &Vec<char>)
    ensures
        final(out)@ == old(out)@ + tail@,
{
    let mut i: usize = 0;
    while i < tail.len()
        invariant
            i <= tail.len(),
            out@ == old(out)@ + tail@.take(i as int),
        decreases tail.len() - i,
    {
        out.push(tail[i]);
        i += 1;
    }
}

/// `needle` stands in `hay` at position `at`.
pub open spec fn occurs_at(hay: Seq<char>, at: int, needle: Seq<char>) -> bool {
    &&& 0 <= at
    &&& at + needle.len() <= hay.len()
    &&& hay.subrange(at, at + needle.len()) == needle
}

/// `needle` stands somewhere in `hay`.
pub open spec fn occurs(hay: Seq<char>, needle: Seq<char>) -> bool {
    exists|at: int| occurs_at(hay, at, needle)
}

/// Tests whether `needle` stands in `hay` at position `at`.
pub fn matches_at(hay: &Vec<char>, at: usize, needle: &Vec<char>) -> (res: bool)
    ensures
        res == occurs_at(hay@, at as int, needle@),
{
    if at > hay.len() || needle.len() > hay.len() - at {
        return false;
    }
    let mut k: usize = 0;
    while k < needle.len()
        invariant
            k <= needle.len(),
            at + needle.len() <= hay.len(),
            forall|j: int| 0 <= j < k ==> hay@[at + j] == needle@[j],
        decreases needle.len() - k,
    {
        if hay[at + k] != needle[k] {
            assert(hay@.subrange(at as int, at + needle.len())[k as int] != needle@[k as int]);
            return false;
        }
        k += 1;
    }
    assert(hay@.subrange(at as int, at + needle.len()) =~= needle@);
    true
}

/// `s` with every occurrence of `from` replaced by `to`, the occurrences
/// taken from the left and never overlapping. An empty `from` stands before
/// every character and at the end.
pub open spec fn replaced(s: Seq<char>, from: Seq<char>, to: Seq<char>) -> Seq<char>
    decreases s.len(),
{
    if from.len() == 0 {
        if s.len() == 0 {
            to
        } else {
            to + seq![s[0]] + replaced(s.skip(1), from, to)
        }
    } else if s.len() < from.len() {
        s
    } else if s.take(from.len() as int) == from {
        to + replaced(s.skip(from.len() as int), from, to)
    } else {
        seq![s[0]] + replaced(s.skip(1), from, to)
    }
}

/// Replaces every occurrence of `from` in `text` by `to`.
pub fn replace_all(text: &Vec<char>, from: &Vec<char>, to: &Vec<char>) -> (res: Vec<char>)
    ensures
        res@ == replaced(text@, from@, to@),
{
    let mut out: Vec<char> = Vec::new();
    let mut i: usize = 0;
    proof {
        assert(text@.skip(0) =~= text@);
        assert(out@ + replaced(text@, from@, to@) =~= replaced(text@, from@, to@));
    }
    while i < text.len()
        invariant
            i <= text.len(),
            out@ + replaced(text@.skip(i as int), from@, to@) == replaced(text@, from@, to@),
        decreases text.len() - i,
    {
        let ghost rest = text@.skip(i as int);
        let ghost before = out@;
        if from.len() == 0 {
            push_all(&mut out, to);
            out.push(text[i]);
            proof {
                assert(rest.skip(1) =~= text@.skip(i + 1));
                assert(out@ + replaced(rest.skip(1), from@, to@) =~= before + replaced(
                    rest,
                    from@,
                    to@,
                ));
            }
            i += 1;
        } else if matches_at(text, i, from) {
            push_all(&mut out, to);
            proof {
                assert(rest.take(from@.len() as int) =~= text@.subrange(
                    i as int,
                    i + from@.len(),
                ));
                assert(rest.skip(from@.len() as int) =~= text@.skip(i + from@.len()));
                assert(out@ + replaced(rest.skip(from@.len() as int), from@, to@) =~= before
                    + replaced(rest, from@, to@));
            }
            i += from.len();
        } else {
            out.push(text[i]);
            proof {
                if rest.len() >= from@.len() {
                    assert(rest.take(from@.len() as int) =~= text@.subrange(
                        i as int,
                        i + from@.len(),
                    ));
                    assert(rest.skip(1) =~= text@.skip(i + 1));
                    assert(out@ + replaced(rest.skip(1), from@, to@) =~= before + replaced(
                        rest,
                        from@,
                        to@,
                    ));
                } else {
                    lemma_replaced_short(rest, from@, to@);
                    lemma_replaced_short(rest.skip(1), from@, to@);
                    assert(rest.skip(1) =~= text@.skip(i + 1));
                    assert(out@ + rest.skip(1) =~= before + rest);
                }
            }
            i += 1;
        }
    }
    proof {
        assert(text@.skip(i as int) =~= Seq::<char>::empty());
    }
    if from.len() == 0 {
        push_all(&mut out, to);
    } else {
        assert(out@ + Seq::<char>::empty() =~= out@);
    }
    out
}

/// A text shorter than a non-empty pattern holds no occurrence of it.
pub proof fn lemma_replaced_short(s: Seq<char>, from: Seq<char>, to: Seq<char>)
    requires
        s.len() < from.len(),
    ensures
        replaced(s, from, to) == s,
{
}

/// A text in which a non-empty pattern does not stand is left as it is.
pub proof fn lemma_replaced_absent(s: Seq<char>, from: Seq<char>, to: Seq<char>)
    requires
        from.len() > 0,
        !occurs(s, from),
    ensures
        replaced(s, from, to) == s,
    decreases s.len(),
{
    if s.len() >= from.len() {
        assert(s.take(from.len() as int) != from) by {
            if s.take(from.len() as int) == from {
                assert(s.subrange(0, from.len() as int) =~= s.take(from.len() as int));
                assert(occurs_at(s, 0, from));
            }
        }
        let rest = s.skip(1);
        assert forall|at: int| !occurs_at(rest, at, from) by {
            if occurs_at(rest, at, from) {
                assert(rest.subrange(at, at + from.len()) =~= s.subrange(
                    at + 1,
                    at + 1 + from.len(),
                ));
                assert(occurs_at(s, at + 1, from));
            }
        }
        lemma_replaced_absent(rest, from, to);
        assert(seq![s[0]] + rest =~= s);
    }
}

/// The code points with the Unicode property `White_Space`.
pub open spec fn is_space(c: char) -> bool {
    let u = c as u32;
    ||| 0x09 <= u <= 0x0D
    ||| u == 0x20
    ||| u == 0x85
    ||| u == 0xA0
    ||| u == 0x1680
    ||| 0x2000 <= u <= 0x200A
    ||| u == 0x2028
    ||| u == 0x2029
    ||| u == 0x202F
    ||| u == 0x205F
    ||| u == 0x3000
}

/// Tests whether `c` is white space.
pub fn space(c: char) -> (res: bool)
    ensures
        res == is_space(c),
{
    let u: u32 = c as u32;
    (0x09 <= u && u <= 0x0D) || u == 0x20 || u == 0x85 || u == 0xA0 || u == 0x1680 || (0x2000 <= u
        && u <= 0x200A) || u == 0x2028 || u == 0x2029 || u == 0x202F || u == 0x205F || u == 0x3000
}

/// The number of white-space characters that `s` begins with.
pub open spec fn leading_spaces(s: Seq<char>) -> nat
    decreases s.len(),
{
    if s.len() > 0 && is_space(s[0]) {
        1 + leading_spaces(s.skip(1))
    } else {
        0
    }
}

/// The number of white-space characters that `s` ends with.
pub open spec fn trailing_spaces(s: Seq<char>) -> nat
    decreases s.len(),
{
    if s.len() > 0 && is_space(s.last()) {
        1 + trailing_spaces(s.drop_last())
    } else {
        0
    }
}

/// `s` without the white space at its two ends.
pub open spec fn trimmed(s: Seq<char>) -> Seq<char> {
    let rest = s.skip(leading_spaces(s) as int);
    rest.take(rest.len() - trailing_spaces(rest))
}

/// The leading white space of `s` is exactly its first `n` characters.
pub proof fn lemma_leading_spaces(s: Seq<char>, n: int)
    requires
        0 <= n <= s.len(),
        forall|i: int| 0 <= i < n ==> is_space(s[i]),
        n < s.len() ==> !is_space(s[n]),
    ensures
        leading_spaces(s) == n,
    decreases n,
{
    if n > 0 {
        let t = s.skip(1);
        assert forall|i: int| 0 <= i < n - 1 implies is_space(t[i]) by {
            assert(t[i] == s[i + 1]);
        }
        lemma_leading_spaces(t, n - 1);
    }
}

/// The trailing white space of `s` is exactly its last `n` characters.
pub proof fn lemma_trailing_spaces(s: Seq<char>, n: int)
    requires
        0 <= n <= s.len(),
        forall|i: int| s.len() - n <= i < s.len() ==> is_space(s[i]),
        n < s.len() ==> !is_space(s[s.len() - n - 1]),
    ensures
        trailing_spaces(s) == n,
    decreases n,
{
    if n > 0 {
        let t = s.drop_last();
        assert forall|i: int| t.len() - (n - 1) <= i < t.len() implies is_space(t[i]) by {
            assert(t[i] == s[i]);
        }
        lemma_trailing_spaces(t, n - 1);
    }
}

/// Removes the white space at the two ends of `text`.
pub fn trim(text: &Vec<char>) -> (res: Vec<char>)
    ensures
        res@ == trimmed(text@),
{
    let mut start: usize = 0;
    while start < text.len() && space(text[start])
        invariant
            start <= text.len(),
            forall|i: int| 0 <= i < start ==> is_space(text@[i]),
        decreases text.len() - start,
    {
        start += 1;
    }
    let mut end: usize = text.len();
    while end > start && space(text[end - 1])
        invariant
            start <= end <= text.len(),
            forall|i: int| end <= i < text.len() ==> is_space(text@[i]),
        decreases end,
    {
        end -= 1;
    }
    let mut out: Vec<char> = Vec::new();
    let mut i: usize = start;
    while i < end
        invariant
            start <= i <= end <= text.len(),
            out@ == text@.subrange(start as int, i as int),
        decreases end - i,
    {
        out.push(text[i]);
        i += 1;
    }
    proof {
        let rest = text@.skip(start as int);
        lemma_leading_spaces(text@, start as int);
        assert forall|i: int| rest.len() - (text.len() - end) <= i < rest.len() implies is_space(
            rest[i],
        ) by {
            assert(rest[i] == text@[i + start]);
        }
        lemma_trailing_spaces(rest, text.len() - end);
        assert(out@ =~= rest.take(rest.len() - (text.len() - end)));
    }
    out
}

/// The decimal digit for `d`.
pub open spec fn digit_char(d: int) -> char {
    if d == 0 {
        '0'
    } else if d == 1 {
        '1'
    } else if d == 2 {
        '2'
    } else if d == 3 {
        '3'
    } else if d == 4 {
        '4'
    } else if d == 5 {
        '5'
    } else if d == 6 {
        '6'
    } else if d == 7 {
        '7'
    } else if d == 8 {
        '8'
    } else {
        '9'
    }
}

/// The decimal digits of `n`, most significant first, without leading zeros;
/// `0` is written `"0"`.
pub open spec fn decimal_digits(n: nat) -> Seq<char>
    decreases n,
{
    if n < 10 {
        seq![digit_char(n as int)]
    } else {
        decimal_digits(n / 10).push(digit_char((n % 10) as int))
    }
}

/// `i` in decimal, with a leading `-` when it is negative.
pub open spec fn decimal(i: int) -> Seq<char> {
    if i < 0 {
        seq!['-'] + decimal_digits((-i) as nat)
    } else {
        decimal_digits(i as nat)
    }
}

fn digit(d: u64) -> (res: char)
    requires
        d < 10,
    ensures
        res == digit_char(d as int),
{
    if d == 0 {
        '0'
    } else if d == 1 {
        '1'
    } else if d == 2 {
        '2'
    } else if d == 3 {
        '3'
    } else if d == 4 {
        '4'
    } else if d == 5 {
        '5'
    } else if d == 6 {
        '6'
    } else if d == 7 {
        '7'
    } else if d == 8 {
        '8'
    } else {
        '9'
    }
}

/// Writes `n` in decimal.
pub fn format_unsigned(n: u64) -> (res: Vec<char>)
    ensures
        res@ == decimal_digits(n as nat),
{
    // Digits come out least significant first.
    let mut low_first: Vec<char> = Vec::new();
    let mut rest: u64 = n;
    while rest >= 10
        invariant
            decimal_digits(n as nat) == decimal_digits(rest as nat) + low_first@.reverse(),
        decreases rest,
    {
        let ghost before = low_first@;
        low_first.push(digit(rest % 10));
        proof {
            assert(low_first@.reverse() =~= seq![digit_char((rest % 10) as int)]
                + before.reverse());
            assert(decimal_digits(rest as nat) =~= decimal_digits((rest / 10) as nat) + seq![
                digit_char((rest % 10) as int),
            ]);
            assert(decimal_digits((rest / 10) as nat) + low_first@.reverse() =~= decimal_digits(
                rest as nat,
            ) + before.reverse());
        }
        rest = rest / 10;
    }
    let mut out: Vec<char> = Vec::new();
    out.push(digit(rest));
    let mut k: usize = low_first.len();
    while k > 0
        invariant
            k <= low_first.len(),
            out@ == decimal_digits(rest as nat) + low_first@.reverse().take(low_first.len() - k),
        decreases k,
    {
        k -= 1;
        out.push(low_first[k]);
        proof {
            let r = low_first@.reverse();
            assert(r.take(low_first.len() - k) =~= r.take(low_first.len() - k - 1).push(
                low_first@[k as int],
            ));
        }
    }
    proof {
        assert(low_first@.reverse().take(low_first.len() as int) =~= low_first@.reverse());
    }
    out
}

/// Writes `i` in decimal.
pub fn format_signed(i: i64) -> (res: Vec<char>)
    ensures
        res@ == decimal(i as int),
{
    if i < 0 {
        let magnitude: u64 = if i == i64::MIN {
            9223372036854775808u64
        } else {
            (-i) as u64
        };
        let mut out: Vec<char> = Vec::new();
        out.push('-');
        let digits = format_unsigned(magnitude);
        push_all(&mut out, &digits);
        out
    } else {
        format_unsigned(i as u64)
    }
}

} // verus!
