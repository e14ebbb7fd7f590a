//! Character-level helpers on string slices: comparison, prefix and suffix
//! tests, and the decimal notation of unsigned integers.
use vstd::prelude::*;
use vstd::std_specs::iter::IteratorSpec;
use vstd::string::StringSliceAdditionalSpecFns;

verus! {

/// Trusted: `String::push` appends the given character to the end of the
/// string and changes nothing else, as the standard library documents.
pub assume_specification[ String::push ](s: &mut String, c: char)
    ensures
        final(s)@ == old(s)@.push(c),
;

/// Whether two string slices hold the same characters.
pub fn same_text(a: &str, b: &str) -> (same: bool)
    ensures
        same == (a@ == b@),
{
    let x = a.as_bytes();
    let y = b.as_bytes();
    proof {
        // The characters are recovered from the bytes, so equal bytes mean equal text.
        vstd::utf8::encode_utf8_decode_utf8(a@);
        vstd::utf8::encode_utf8_decode_utf8(b@);
    }
    if x.len() != y.len() {
        return false;
    }
    let mut i: usize = 0;
    while i < x.len()
        invariant
            x.len() == y.len(),
            x@ == a.spec_bytes(),
            y@ == b.spec_bytes(),
            i <= x.len(),
            x@.take(i as int) == y@.take(i as int),
        decreases x.len() - i,
    {
        if x[i] != y[i] {
            return false;
        }
        assert(x@.take(i + 1) =~= x@.take(i as int).push(x@[i as int]));
        assert(y@.take(i + 1) =~= y@.take(i as int).push(y@[i as int]));
        i += 1;
    }
    assert(x@.take(x@.len() as int) =~= x@);
    assert(y@.take(y@.len() as int) =~= y@);
    true
}

/// Whether `text` begins with the characters of `prefix`.
pub fn starts_with(text: &str, prefix: &str) -> (found: bool)
    ensures
        found == prefix@.is_prefix_of(text@),
{
    let mut rest = text.chars();
    for expected in it: prefix.chars()
        invariant
            it.seq() == prefix@,
            rest.obeys_prophetic_iter_laws(),
            it.index() <= text@.len(),
            rest.remaining() == text@.skip(it.index() as int),
            text@.take(it.index() as int) == prefix@.take(it.index() as int),
    {
        let ghost i = it.index() as int;
        match rest.next() {
            None => {
                return false;
            },
            Some(actual) => {
                if actual != expected {
                    return false;
                }
                assert(text@.skip(i).drop_first() =~= text@.skip(i + 1));
                assert(text@.take(i + 1) =~= text@.take(i).push(actual));
                assert(prefix@.take(i + 1) =~= prefix@.take(i).push(expected));
            },
        }
    }
    assert(prefix@.take(prefix@.len() as int) =~= prefix@);
    assert(prefix@ =~= text@.subrange(0, prefix@.len() as int));
    true
}

/// Whether `text` ends with the characters of `suffix`.
pub fn ends_with(text: &str, suffix: &str) -> (found: bool)
    ensures
        found == suffix@.is_suffix_of(text@),
{
    let n: usize = text.unicode_len();
    let m: usize = suffix.unicode_len();
    if m > n {
        return false;
    }
    let start: usize = n - m;
    let mut rest = text.chars();
    let mut k: usize = 0;
    while k < start
        invariant
            rest.obeys_prophetic_iter_laws(),
            k <= start,
            start <= text@.len(),
            rest.remaining() == text@.skip(k as int),
        decreases start - k,
    {
        let _ = rest.next();
        assert(text@.skip(k as int).drop_first() =~= text@.skip(k + 1));
        k += 1;
    }
    for expected in it: suffix.chars()
        invariant
            it.seq() == suffix@,
            rest.obeys_prophetic_iter_laws(),
            start + suffix@.len() == text@.len(),
            rest.remaining() == text@.skip(start + it.index()),
            text@.subrange(start as int, start + it.index()) == suffix@.take(it.index() as int),
    {
        let ghost i = it.index() as int;
        match rest.next() {
            None => {
                return false;
            },
            Some(actual) => {
                if actual != expected {
                    assert(text@.subrange(start as int, text@.len() as int)[i] == actual);
                    return false;
                }
                assert(text@.skip(start + i).drop_first() =~= text@.skip(start + i + 1));
                assert(text@.subrange(start as int, start + i + 1) =~= text@.subrange(
                    start as int,
                    start + i,
                ).push(actual));
                assert(suffix@.take(i + 1) =~= suffix@.take(i).push(expected));
            },
        }
    }
    assert(suffix@.take(suffix@.len() as int) =~= suffix@);
    true
}

/// The character that writes the digit `d`; `'0'` where `d` is no digit.
pub open spec fn digit(d: nat) -> char {
    if d == 1 {
        '1'
    } else if d == 2 {
        '2'
    } else if d == 3 {
        '3'
    } else if d == 4 {
        '4'
    } else if d == 5 {
        '5'
    } else if d == 6 {
        '6'
    } else if d == 7 {
        '7'
    } else if d == 8 {
        '8'
    } else if d == 9 {
        '9'
    } else {
        '0'
    }
}

/// The digit that `c` writes, if it is one of `'0'` to `'9'`.
pub open spec fn digit_value(c: char) -> Option<nat> {
    if c == '0' {
        Some(0)
    } else if c == '1' {
        Some(1)
    } else if c == '2' {
        Some(2)
    } else if c == '3' {
        Some(3)
    } else if c == '4' {
        Some(4)
    } else if c == '5' {
        Some(5)
    } else if c == '6' {
        Some(6)
    } else if c == '7' {
        Some(7)
    } else if c == '8' {
        Some(8)
    } else if c == '9' {
        Some(9)
    } else {
        None
    }
}

/// The decimal notation of `n`: its digits, most significant first, with no
/// sign and no leading zero.
pub open spec fn decimal(n: nat) -> Seq<char>
    decreases n,
{
    if n < 10 {
        seq![digit(n)]
    } else {
        decimal(n / 10).push(digit(n % 10))
    }
}

/// The number that a run of digits writes, read most significant first.
/// A character that is no digit counts as zero.
pub open spec fn digits_value(t: Seq<char>) -> nat
    decreases t.len(),
{
    if t.len() == 0 {
        0
    } else {
        10 * digits_value(t.drop_last()) + match digit_value(t.last()) {
            Some(d) => d,
            None => 0,
        }
    }
}

/// Whether `t` is the decimal notation of some number: one digit or more,
/// and no leading zero before another digit.
pub open spec fn is_decimal(t: Seq<char>) -> bool {
    &&& t.len() > 0
    &&& forall|i: int| 0 <= i < t.len() ==> (#[trigger] digit_value(t[i])) is Some
    &&& t.len() > 1 ==> t[0] != '0'
}

/// The number whose decimal notation is `t`, if `t` is one.
pub open spec fn decimal_value(t: Seq<char>) -> Option<nat> {
    if is_decimal(t) {
        Some(digits_value(t))
    } else {
        None
    }
}

/// Reading the decimal notation of a number gives the number back.
pub proof fn lemma_decimal_reads_back(n: nat)
    ensures
        is_decimal(decimal(n)),
        digits_value(decimal(n)) == n,
        decimal_value(decimal(n)) == Some(n),
    decreases n,
{
    if n < 10 {
        let t = decimal(n);
        assert(t.drop_last() =~= Seq::<char>::empty());
        assert(digits_value(t.drop_last()) == 0);
    } else {
        lemma_decimal_reads_back(n / 10);
        let head = decimal(n / 10);
        let t = decimal(n);
        assert(t.drop_last() =~= head);
        assert(t.last() == digit(n % 10));
        assert(t[0] == head[0]);
        assert(head.len() > 1 ==> head[0] != '0');
        if head.len() == 1 {
            assert(head.drop_last() =~= Seq::<char>::empty());
            assert(digits_value(head.drop_last()) == 0);
            assert(digits_value(head) == n / 10);
            assert(head[0] != '0');
        }
        assert forall|i: int| 0 <= i < t.len() implies (#[trigger] digit_value(t[i])) is Some by {
            if i < head.len() {
                assert(t[i] == head[i]);
            }
        }
    }
}

/// A decimal notation is the notation of the number that it reads as, so no
/// two notations write the same number.
pub proof fn lemma_decimal_writes_back(t: Seq<char>)
    requires
        is_decimal(t),
    ensures
        decimal(digits_value(t)) == t,
    decreases t.len(),
{
    let d: nat = digit_value(t.last())->0;
    if t.len() == 1 {
        assert(t.drop_last() =~= Seq::<char>::empty());
        assert(digits_value(t.drop_last()) == 0);
        assert(digits_value(t) == d);
        assert(decimal(d) =~= t);
    } else {
        let head = t.drop_last();
        assert(is_decimal(head)) by {
            assert forall|i: int| 0 <= i < head.len() implies (#[trigger] digit_value(
                head[i],
            )) is Some by {
                assert(head[i] == t[i]);
            }
            assert(head[0] == t[0]);
        }
        lemma_decimal_writes_back(head);
        let v: nat = digits_value(head);
        assert(v >= 1) by {
            lemma_leading_digit_counts(head);
        }
        assert(digits_value(t) == 10 * v + d);
        assert((10 * v + d) / 10 == v);
        assert((10 * v + d) % 10 == d);
        assert(decimal(10 * v + d) =~= decimal(v).push(digit(d)));
        assert(t =~= head.push(t.last()));
    }
}

/// A decimal notation that does not start with `'0'` writes a number that is
/// not zero.
proof fn lemma_leading_digit_counts(t: Seq<char>)
    requires
        t.len() > 0,
        forall|i: int| 0 <= i < t.len() ==> (#[trigger] digit_value(t[i])) is Some,
        t[0] != '0',
    ensures
        digits_value(t) >= 1,
    decreases t.len(),
{
    if t.len() == 1 {
        assert(t.drop_last() =~= Seq::<char>::empty());
        assert(digits_value(t.drop_last()) == 0);
        assert(t.last() == t[0]);
    } else {
        let head = t.drop_last();
        assert forall|i: int| 0 <= i < head.len() implies (#[trigger] digit_value(
            head[i],
        )) is Some by {
            assert(head[i] == t[i]);
        }
        assert(head[0] == t[0]);
        lemma_leading_digit_counts(head);
    }
}

/// The character that writes a digit.
fn digit_char(d: usize) -> (c: char)
    requires
        d < 10,
    ensures
        c == digit(d as nat),
{
    if d == 0 {
        '0'
    } else if d == 1 {
        '1'
    } else if d == 2 {
        '2'
    } else if d == 3 {
        '3'
    } else if d == 4 {
        '4'
    } else if d == 5 {
        '5'
    } else if d == 6 {
        '6'
    } else if d == 7 {
        '7'
    } else if d == 8 {
        '8'
    } else {
        '9'
    }
}

/// The digit that a character writes, if it writes one.
fn char_digit(c: char) -> (d: Option<usize>)
    ensures
        match d {
            Some(v) => digit_value(c) == Some(v as nat),
            None => digit_value(c) is None,
        },
{
    if c == '0' {
        Some(0)
    } else if c == '1' {
        Some(1)
    } else if c == '2' {
        Some(2)
    } else if c == '3' {
        Some(3)
    } else if c == '4' {
        Some(4)
    } else if c == '5' {
        Some(5)
    } else if c == '6' {
        Some(6)
    } else if c == '7' {
        Some(7)
    } else if c == '8' {
        Some(8)
    } else if c == '9' {
        Some(9)
    } else {
        None
    }
}

/// Appends the decimal notation of `n` to `out`.
pub fn push_decimal(out: &mut String, n: usize)
    ensures
        final(out)@ == old(out)@ + decimal(n as nat),
    decreases n,
{
    if n >= 10 {
        push_decimal(out, n / 10);
    }
    out.push(digit_char(n % 10));
    assert(old(out)@ + decimal(n as nat) =~= if n >= 10 {
        (old(out)@ + decimal((n / 10) as nat)).push(digit((n % 10) as nat))
    } else {
        old(out)@.push(digit(n as nat))
    });
}

/// The decimal notation of `n`.
pub fn decimal_text(n: usize) -> (text: String)
    ensures
        text@ == decimal(n as nat),
{
    let mut out = String::new();
    push_decimal(&mut out, n);
    assert(Seq::<char>::empty() + decimal(n as nat) =~= decimal(n as nat));
    out
}

/// Reads a decimal notation. Gives the number where `text` is the notation
/// of one that fits in `usize`, and nothing for any other text: an empty one,
/// one with a sign, a fraction, an exponent or a leading zero, or a number
/// that is too large.
pub fn parse_decimal(text: &str) -> (value: Option<usize>)
    ensures
        value == match decimal_value(text@) {
            Some(n) => if n <= usize::MAX {
                Some(n as usize)
            } else {
                None
            },
            None => None,
        },
{
    let mut total: usize = 0;
    let mut leading_zero = false;
    let mut first = true;
    for c in it: text.chars()
        invariant
            it.seq() == text@,
            first == (it.index() == 0),
            total == digits_value(text@.take(it.index() as int)),
            forall|i: int| 0 <= i < it.index() ==> (#[trigger] digit_value(text@[i])) is Some,
            leading_zero == (it.index() > 0 && text@[0] == '0'),
            leading_zero ==> it.index() == 1,
    {
        let ghost i = it.index() as int;
        let ghost seen = text@.take(i);
        let ghost next = text@.take(i + 1);
        assert(next.drop_last() =~= seen);
        assert(next.last() == c);
        if leading_zero {
            // A second character after a leading zero.
            assert(!is_decimal(text@));
            return None;
        }
        match char_digit(c) {
            None => {
                assert(digit_value(text@[i]) is None);
                return None;
            },
            Some(d) => {
                if first && d == 0 {
                    leading_zero = true;
                }
                first = false;
                let grown: Option<usize> = match total.checked_mul(10) {
                    Some(tenfold) => tenfold.checked_add(d),
                    None => None,
                };
                match grown {
                    Some(v) => {
                        total = v;
                    },
                    None => {
                        assert(digits_value(next) > usize::MAX);
                        proof {
                            lemma_digits_value_grows(text@, i + 1);
                        }
                        return None;
                    },
                }
            },
        }
    }
    assert(text@.take(text@.len() as int) =~= text@);
    if first {
        return None;
    }
    Some(total)
}

/// Further digits never make the number that a run of digits writes smaller.
proof fn lemma_digits_value_grows(t: Seq<char>, k: int)
    requires
        0 <= k <= t.len(),
    ensures
        digits_value(t.take(k)) <= digits_value(t),
    decreases t.len() - k,
{
    if k == t.len() {
        assert(t.take(k) =~= t);
    } else {
        lemma_digits_value_grows(t, k + 1);
        assert(t.take(k + 1).drop_last() =~= t.take(k));
    }
}

} // verus!
