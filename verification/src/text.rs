//! Character-level text helpers shared by the timecode parser and the
//! exporters: decimal rendering, character access and substring search.

use vstd::prelude::*;

verus! {

/// Appends one character to a `String`.
///
/// Trusted wrapper around `String::push`, which std documents as appending
/// the given `char` to the end of the string.
#[verifier::external_body]
pub fn push_char(s: &mut String, c: char)
    ensures
        final(s)@ == old(s)@.push(c),
{
    s.push(c)
}

/// The characters of a string slice, in order.
pub fn chars_of(s: &str) -> (v: Vec<char>)
    ensures
        v@ == s@,
{
    let mut v: Vec<char> = Vec::new();
    for c in it: s.chars()
        invariant
            v@ == it.seq().take(it.index() as int),
    {
        v.push(c);
    }
    v
}

/// The ASCII digit for `d` (`d < 10`).
pub open spec fn digit_char(d: nat) -> char {
    ((48 + d) as u8) as char
}

/// Decimal rendering of `n`, most significant digit first, no leading zeros.
pub open spec fn decimal(n: nat) -> Seq<char>
    decreases n,
{
    if n < 10 {
        seq![digit_char(n)]
    } else {
        decimal(n / 10).push(digit_char(n % 10))
    }
}

/// Decimal rendering padded with zeros to at least two digits (`{:02}`).
pub open spec fn decimal_pad2(n: nat) -> Seq<char> {
    if n < 10 {
        seq!['0'] + decimal(n)
    } else {
        decimal(n)
    }
}

/// Appends the decimal rendering of `n`.
pub fn push_decimal(s: &mut String, n: u64)
    ensures
        final(s)@ == old(s)@ + decimal(n as nat),
    decreases n,
{
    if n >= 10 {
        push_decimal(s, n / 10);
    }
    let d: u8 = (n % 10) as u8;
    push_char(s, (48u8 + d) as char);
    proof {
        assert(decimal(n as nat) == if n < 10 { seq![digit_char(n as nat)] } else { decimal((n / 10) as nat).push(digit_char((n % 10) as nat)) });
    }
}

/// Digits of a fraction: `frac` read against the place value `div` (the
/// digit of `div` first, then those of `div / 10`, ...), stopping once
/// nothing is left, so no trailing zeros are written.
pub open spec fn fraction_digits(frac: nat, div: nat) -> Seq<char>
    decreases div,
{
    if frac == 0 || div == 0 {
        Seq::empty()
    } else {
        seq![digit_char((frac / div) % 10)] + fraction_digits(frac % div, div / 10)
    }
}

/// `n / unit` written in decimal with its fractional digits, as `{}` shows
/// such a number: no trailing zeros and no point for whole values. `div` is
/// the place value of the first fractional digit (`unit / 10`).
pub open spec fn scaled_decimal(n: nat, unit: nat, div: nat) -> Seq<char> {
    if n % unit == 0 {
        decimal(n / unit)
    } else {
        decimal(n / unit) + seq!['.'] + fraction_digits(n % unit, div)
    }
}

fn push_fraction_digits(s: &mut String, frac: u64, div: u64)
    ensures
        final(s)@ == old(s)@ + fraction_digits(frac as nat, div as nat),
    decreases div,
{
    if frac == 0 || div == 0 {
        assert(old(s)@ + Seq::<char>::empty() =~= old(s)@);
        return;
    }
    let d: u8 = ((frac / div) % 10) as u8;
    push_char(s, (48u8 + d) as char);
    push_fraction_digits(s, frac % div, div / 10);
    proof {
        let head = seq![digit_char(((frac / div) % 10) as nat)];
        let rest = fraction_digits((frac % div) as nat, (div / 10) as nat);
        assert(old(s)@.push(digit_char(((frac / div) % 10) as nat)) + rest =~= old(s)@ + (head
            + rest));
    }
}

/// Appends `n / unit` in decimal with its fractional digits (see
/// `scaled_decimal`).
pub fn push_scaled_decimal(s: &mut String, n: u64, unit: u64, div: u64)
    requires
        unit > 0,
    ensures
        final(s)@ == old(s)@ + scaled_decimal(n as nat, unit as nat, div as nat),
{
    push_decimal(s, n / unit);
    if n % unit != 0 {
        push_char(s, '.');
        push_fraction_digits(s, n % unit, div);
        proof {
            let a = decimal((n / unit) as nat);
            let b = fraction_digits((n % unit) as nat, div as nat);
            assert((old(s)@ + a).push('.') + b =~= old(s)@ + (a + seq!['.'] + b));
        }
    }
}

/// Appends the decimal rendering of `n` padded to two digits.
pub fn push_decimal_pad2(s: &mut String, n: u64)
    ensures
        final(s)@ == old(s)@ + decimal_pad2(n as nat),
{
    if n < 10 {
        push_char(s, '0');
    }
    push_decimal(s, n);
}

/// Unicode `White_Space` characters, the set that `char::is_whitespace`
/// recognises.
pub open spec fn is_ws(c: char) -> bool {
    let u = c as u32;
    ||| 0x09 <= u <= 0x0D
    ||| u == 0x20
    ||| u == 0x85
    ||| u == 0xA0
    ||| u == 0x1680
    ||| 0x2000 <= u <= 0x200A
    ||| u == 0x2028
    ||| u == 0x2029
    ||| u == 0x202F
    ||| u == 0x205F
    ||| u == 0x3000
}

pub fn is_whitespace(c: char) -> (r: bool)
    ensures
        r == is_ws(c),
{
    let u = c as u32;
    (0x09 <= u && u <= 0x0D) || u == 0x20 || u == 0x85 || u == 0xA0 || u == 0x1680 || (0x2000
        <= u && u <= 0x200A) || u == 0x2028 || u == 0x2029 || u == 0x202F || u == 0x205F || u
        == 0x3000
}

/// `s` without its leading whitespace.
pub open spec fn trim_start(s: Seq<char>) -> Seq<char>
    decreases s.len(),
{
    if s.len() > 0 && is_ws(s[0]) {
        trim_start(s.drop_first())
    } else {
        s
    }
}

/// `s` without its trailing whitespace.
pub open spec fn trim_end(s: Seq<char>) -> Seq<char>
    decreases s.len(),
{
    if s.len() > 0 && is_ws(s.last()) {
        trim_end(s.drop_last())
    } else {
        s
    }
}

/// `s` without leading and trailing whitespace (`str::trim`).
pub open spec fn trim(s: Seq<char>) -> Seq<char> {
    trim_end(trim_start(s))
}

proof fn lemma_trim_start_skip(s: Seq<char>, i: int)
    requires
        0 <= i <= s.len(),
        forall|k: int| 0 <= k < i ==> is_ws(#[trigger] s[k]),
    ensures
        trim_start(s) == trim_start(s.skip(i)),
    decreases i,
{
    if i > 0 {
        assert(s.drop_first().skip(i - 1) =~= s.skip(i));
        lemma_trim_start_skip(s.drop_first(), i - 1);
    } else {
        assert(s.skip(0) =~= s);
    }
}

proof fn lemma_trim_end_take(s: Seq<char>, j: int)
    requires
        0 <= j <= s.len(),
        forall|k: int| j <= k < s.len() ==> is_ws(#[trigger] s[k]),
    ensures
        trim_end(s) == trim_end(s.take(j)),
    decreases s.len() - j,
{
    if j < s.len() {
        assert(s.drop_last().take(j) =~= s.take(j));
        lemma_trim_end_take(s.drop_last(), j);
    } else {
        assert(s.take(j) =~= s);
    }
}

/// The characters of `v` from `lo` (inclusive) to `hi` (exclusive).
pub fn sub_chars(v: &Vec<char>, lo: usize, hi: usize) -> (r: Vec<char>)
    requires
        lo <= hi <= v.len(),
    ensures
        r@ == v@.subrange(lo as int, hi as int),
{
    let mut r: Vec<char> = Vec::new();
    let mut i = lo;
    while i < hi
        invariant
            lo <= i <= hi <= v.len(),
            r@ == v@.subrange(lo as int, i as int),
        decreases hi - i,
    {
        r.push(v[i]);
        i += 1;
        assert(r@ =~= v@.subrange(lo as int, i as int));
    }
    r
}

/// Removes leading and trailing whitespace.
pub fn trim_chars(v: &Vec<char>) -> (r: Vec<char>)
    ensures
        r@ == trim(v@),
{
    let mut i: usize = 0;
    while i < v.len() && is_whitespace(v[i])
        invariant
            i <= v.len(),
            forall|k: int| 0 <= k < i ==> is_ws(#[trigger] v@[k]),
        decreases v.len() - i,
    {
        i += 1;
    }
    proof {
        lemma_trim_start_skip(v@, i as int);
        let t = v@.skip(i as int);
        if t.len() > 0 {
            assert(t[0] == v@[i as int]);
        }
        assert(trim_start(t) == t);
    }
    let mut j: usize = v.len();
    while j > i && is_whitespace(v[j - 1])
        invariant
            i <= j <= v.len(),
            forall|k: int| j <= k < v.len() ==> is_ws(#[trigger] v@[k]),
        decreases j,
    {
        j -= 1;
    }
    let r = sub_chars(v, i, j);
    proof {
        let t = v@.skip(i as int);
        let jj = j - i;
        assert forall|k: int| jj <= k < t.len() implies is_ws(#[trigger] t[k]) by {
            assert(t[k] == v@[k + i]);
        }
        lemma_trim_end_take(t, jj as int);
        let u = t.take(jj as int);
        assert(u =~= v@.subrange(i as int, j as int));
        if u.len() > 0 {
            assert(u.last() == v@[j - 1]);
        }
        assert(trim_end(u) == u);
    }
    r
}

/// `s` split at every occurrence of `sep` (`str::split` with a `char`
/// pattern): `n` separators give `n + 1` pieces, empty pieces included.
pub open spec fn split_at_char(s: Seq<char>, sep: char) -> Seq<Seq<char>>
    decreases s.len(),
{
    if s.len() == 0 {
        seq![Seq::<char>::empty()]
    } else {
        let p = split_at_char(s.drop_last(), sep);
        if s.last() == sep {
            p.push(Seq::<char>::empty())
        } else {
            p.update(p.len() - 1, p.last().push(s.last()))
        }
    }
}

proof fn lemma_split_nonempty(s: Seq<char>, sep: char)
    ensures
        split_at_char(s, sep).len() >= 1,
    decreases s.len(),
{
    if s.len() > 0 {
        lemma_split_nonempty(s.drop_last(), sep);
    }
}

/// Splits `v` at every `sep`.
pub fn split_chars(v: &Vec<char>, sep: char) -> (r: Vec<Vec<char>>)
    ensures
        r@.len() == split_at_char(v@, sep).len(),
        forall|k: int| 0 <= k < r@.len() ==> #[trigger] r@[k]@ == split_at_char(v@, sep)[k],
{
    let mut done: Vec<Vec<char>> = Vec::new();
    let mut cur: Vec<char> = Vec::new();
    let mut i: usize = 0;
    while i < v.len()
        invariant
            i <= v.len(),
            done@.len() + 1 == split_at_char(v@.take(i as int), sep).len(),
            forall|k: int| 0 <= k < done@.len() ==> #[trigger] done@[k]@ == split_at_char(v@.take(i as int), sep)[k],
            cur@ == split_at_char(v@.take(i as int), sep).last(),
        decreases v.len() - i,
    {
        proof {
            lemma_split_nonempty(v@.take(i as int), sep);
            assert(v@.take(i + 1).drop_last() =~= v@.take(i as int));
            assert(v@.take(i + 1).last() == v@[i as int]);
        }
        if v[i] == sep {
            let finished = cur;
            done.push(finished);
            cur = Vec::new();
        } else {
            cur.push(v[i]);
        }
        i += 1;
    }
    proof {
        assert(v@.take(v@.len() as int) =~= v@);
    }
    done.push(cur);
    done
}

/// Numeric value of a sequence of ASCII digits.
pub open spec fn digits_value(s: Seq<char>) -> nat
    decreases s.len(),
{
    if s.len() == 0 {
        0
    } else {
        digits_value(s.drop_last()) * 10 + ((s.last() as u32) - 48) as nat
    }
}

pub open spec fn is_ascii_digit(c: char) -> bool {
    '0' <= c <= '9'
}

/// The digits `u32::from_str` reads: an optional leading `+` is dropped.
pub open spec fn unsigned_digits(s: Seq<char>) -> Seq<char> {
    if s.len() > 0 && s[0] == '+' {
        s.drop_first()
    } else {
        s
    }
}

/// `u32::from_str`: an optional `+`, then one or more ASCII digits whose value
/// fits in `u32`.
pub open spec fn parse_u32(s: Seq<char>) -> Option<u32> {
    let d = unsigned_digits(s);
    if d.len() > 0 && (forall|k: int| 0 <= k < d.len() ==> is_ascii_digit(#[trigger] d[k]))
        && digits_value(d) <= u32::MAX {
        Some(digits_value(d) as u32)
    } else {
        None
    }
}

proof fn lemma_digits_value_monotone(s: Seq<char>, i: int)
    requires
        0 <= i <= s.len(),
        forall|k: int| 0 <= k < s.len() ==> is_ascii_digit(#[trigger] s[k]),
    ensures
        digits_value(s.take(i)) <= digits_value(s),
    decreases s.len() - i,
{
    if i < s.len() {
        assert(s.drop_last().take(i) =~= s.take(i));
        lemma_digits_value_monotone(s.drop_last(), i);
    } else {
        assert(s.take(i) =~= s);
    }
}

/// Parses an unsigned decimal as `u32::from_str` does.
pub fn parse_u32_chars(v: &Vec<char>) -> (r: Option<u32>)
    ensures
        r == parse_u32(v@),
{
    let start: usize = if v.len() > 0 && v[0] == '+' { 1 } else { 0 };
    let ghost d = unsigned_digits(v@);
    proof {
        assert(d =~= v@.skip(start as int));
    }
    if start >= v.len() {
        return None;
    }
    let mut acc: u64 = 0;
    let mut i = start;
    while i < v.len()
        invariant
            start <= i <= v.len(),
            d == unsigned_digits(v@),
            d =~= v@.skip(start as int),
            forall|k: int| 0 <= k < i - start ==> is_ascii_digit(#[trigger] d[k]),
            acc == digits_value(d.take(i - start)),
            acc <= u32::MAX,
        decreases v.len() - i,
    {
        let c = v[i];
        if !('0' <= c && c <= '9') {
            proof {
                assert(d[i - start] == c);
                assert(!is_ascii_digit(d[i - start]));
            }
            return None;
        }
        let digit = (c as u32 - 48) as u64;
        proof {
            let t = d.take(i - start + 1);
            assert(t.drop_last() =~= d.take(i - start));
            assert(t.last() == c);
        }
        let next = acc * 10 + digit;
        if next > 0xFFFF_FFFF {
            proof {
                let t = d.take(i - start + 1);
                assert(digits_value(t) == next);
                if forall|k: int| 0 <= k < d.len() ==> is_ascii_digit(#[trigger] d[k]) {
                    lemma_digits_value_monotone(d, i - start + 1);
                }
            }
            return None;
        }
        acc = next;
        i += 1;
    }
    proof {
        assert(d.take(d.len() as int) =~= d);
    }
    Some(acc as u32)
}

/// `needle` occurs in `hay` starting at position `i`.
pub open spec fn occurs_at(hay: Seq<char>, needle: Seq<char>, i: int) -> bool {
    0 <= i && i + needle.len() <= hay.len() && hay.subrange(i, i + needle.len()) == needle
}

/// `needle` occurs somewhere in `hay` (`str::contains` with a `&str`
/// pattern; the empty needle occurs in every text).
pub open spec fn has_substring(hay: Seq<char>, needle: Seq<char>) -> bool {
    exists|i: int| occurs_at(hay, needle, i)
}

/// Whether `needle` occurs in `hay` at position `i`.
fn matches_at(hay: &Vec<char>, needle: &Vec<char>, i: usize) -> (r: bool)
    requires
        i + needle@.len() <= hay@.len(),
    ensures
        r == occurs_at(hay@, needle@, i as int),
{
    let hay_len = hay.len();
    let mut k: usize = 0;
    while k < needle.len()
        invariant
            k <= needle@.len(),
            i + needle@.len() <= hay@.len(),
            hay@.len() == hay_len,
            forall|j: int| 0 <= j < k ==> hay@[i + j] == needle@[j],
        decreases needle@.len() - k,
    {
        if hay[i + k] != needle[k] {
            proof {
                let sub = hay@.subrange(i as int, i + needle@.len());
                assert(sub[k as int] != needle@[k as int]);
            }
            return false;
        }
        k += 1;
    }
    proof {
        assert(hay@.subrange(i as int, i + needle@.len()) =~= needle@);
    }
    true
}

/// Whether `needle` occurs in `hay`.
pub fn contains_str(hay: &str, needle: &str) -> (r: bool)
    ensures
        r == has_substring(hay@, needle@),
{
    let h = chars_of(hay);
    let n = chars_of(needle);
    if n.len() > h.len() {
        proof {
            assert forall|i: int| !occurs_at(hay@, needle@, i) by {}
        }
        return false;
    }
    let last = h.len() - n.len();
    let mut i: usize = 0;
    while i < last
        invariant
            h@ == hay@,
            n@ == needle@,
            last == h@.len() - n@.len(),
            n@.len() <= h@.len(),
            i <= last,
            forall|j: int| 0 <= j < i ==> !occurs_at(hay@, needle@, j),
        decreases last - i,
    {
        if matches_at(&h, &n, i) {
            return true;
        }
        i += 1;
    }
    if matches_at(&h, &n, last) {
        return true;
    }
    proof {
        assert forall|j: int| !occurs_at(hay@, needle@, j) by {
            if 0 <= j < last {
            }
        }
    }
    false
}

/// A `String` holding the characters of `v`.
pub fn string_from_chars(v: &Vec<char>) -> (r: String)
    ensures
        r@ == v@,
{
    let mut r = String::new();
    let mut i: usize = 0;
    while i < v.len()
        invariant
            i <= v@.len(),
            r@ == v@.take(i as int),
        decreases v@.len() - i,
    {
        push_char(&mut r, v[i]);
        proof {
            assert(v@.take(i + 1) =~= v@.take(i as int).push(v@[i as int]));
        }
        i += 1;
    }
    proof {
        assert(v@.take(v@.len() as int) =~= v@);
    }
    r
}

/// `s` without leading and trailing whitespace, as a new `String`.
pub fn trimmed(s: &str) -> (r: String)
    ensures
        r@ == trim(s@),
{
    let v = chars_of(s);
    let t = trim_chars(&v);
    string_from_chars(&t)
}

proof fn lemma_digit_char(d: nat)
    requires
        d < 10,
    ensures
        digit_char(d) as u32 == 48 + d,
        is_ascii_digit(digit_char(d)),
{
    let b = (48 + d) as u8;
    assert(b == 48 + d);
    assert(b as char as u32 == b as u32);
}

/// The decimal rendering of `n` is a non-empty run of ASCII digits whose
/// value is `n`.
pub proof fn lemma_decimal_digits(n: nat)
    ensures
        decimal(n).len() >= 1,
        forall|k: int| 0 <= k < decimal(n).len() ==> is_ascii_digit(#[trigger] decimal(n)[k]),
        digits_value(decimal(n)) == n,
    decreases n,
{
    if n < 10 {
        lemma_digit_char(n);
        assert(decimal(n) =~= seq![digit_char(n)]);
        assert(seq![digit_char(n)].drop_last() =~= Seq::<char>::empty());
        assert(digits_value(decimal(n)) == digits_value(Seq::<char>::empty()) * 10 + ((digit_char(
            n,
        ) as u32) - 48) as nat);
    } else {
        lemma_decimal_digits(n / 10);
        lemma_digit_char(n % 10);
        let p = decimal(n / 10);
        assert(decimal(n) == p.push(digit_char(n % 10)));
        assert(p.push(digit_char(n % 10)).drop_last() =~= p);
        assert(digits_value(decimal(n)) == digits_value(p) * 10 + ((digit_char(n % 10) as u32)
            - 48) as nat);
        assert forall|k: int| 0 <= k < decimal(n).len() implies is_ascii_digit(
            #[trigger] decimal(n)[k],
        ) by {
            if k < p.len() {
                assert(decimal(n)[k] == p[k]);
            }
        }
    }
}

/// Leading zeros do not change the value of a run of digits.
pub proof fn lemma_leading_zero(s: Seq<char>)
    ensures
        digits_value(seq!['0'] + s) == digits_value(s),
    decreases s.len(),
{
    let t = seq!['0'] + s;
    if s.len() == 0 {
        assert(t.drop_last() =~= Seq::<char>::empty());
        assert(t.last() == '0');
        assert(digits_value(t) == digits_value(t.drop_last()) * 10 + ((t.last() as u32) - 48) as nat);
    } else {
        lemma_leading_zero(s.drop_last());
        assert(t.drop_last() =~= seq!['0'] + s.drop_last());
        assert(t.last() == s.last());
        assert(digits_value(t) == digits_value(t.drop_last()) * 10 + ((t.last() as u32) - 48) as nat);
    }
}

/// The padded rendering of `n` is a run of ASCII digits whose value is `n`.
pub proof fn lemma_decimal_pad2_digits(n: nat)
    ensures
        decimal_pad2(n).len() >= 2,
        forall|k: int|
            0 <= k < decimal_pad2(n).len() ==> is_ascii_digit(#[trigger] decimal_pad2(n)[k]),
        digits_value(decimal_pad2(n)) == n,
{
    lemma_decimal_digits(n);
    if n < 10 {
        lemma_leading_zero(decimal(n));
        assert forall|k: int| 0 <= k < decimal_pad2(n).len() implies is_ascii_digit(
            #[trigger] decimal_pad2(n)[k],
        ) by {
            if k > 0 {
                assert(decimal_pad2(n)[k] == decimal(n)[k - 1]);
            }
        }
    } else {
        lemma_decimal_digits(n / 10);
    }
}

/// A text without the separator is one piece.
pub proof fn lemma_split_none(s: Seq<char>, sep: char)
    requires
        forall|k: int| 0 <= k < s.len() ==> s[k] != sep,
    ensures
        split_at_char(s, sep) == seq![s],
    decreases s.len(),
{
    if s.len() == 0 {
        assert(s =~= Seq::<char>::empty());
    } else {
        lemma_split_none(s.drop_last(), sep);
        assert(s.last() != sep);
        assert(s.drop_last().push(s.last()) =~= s);
        let p = split_at_char(s.drop_last(), sep);
        assert(split_at_char(s, sep) == p.update(p.len() - 1, p.last().push(s.last())));
        assert(p.update(p.len() - 1, p.last().push(s.last())) =~= seq![s]);
    }
}

/// Splitting `p`, a separator and a piece without separators appends the
/// piece to the pieces of `p`.
pub proof fn lemma_split_append(p: Seq<char>, sep: char, s: Seq<char>)
    requires
        forall|k: int| 0 <= k < s.len() ==> s[k] != sep,
    ensures
        split_at_char(p + seq![sep] + s, sep) == split_at_char(p, sep).push(s),
    decreases s.len(),
{
    lemma_split_nonempty(p, sep);
    if s.len() == 0 {
        assert(p + seq![sep] + s =~= p.push(sep));
        assert((p.push(sep)).drop_last() =~= p);
        assert(split_at_char(p.push(sep), sep) == split_at_char(p, sep).push(Seq::<char>::empty()));
        assert(s =~= Seq::<char>::empty());
    } else {
        lemma_split_append(p, sep, s.drop_last());
        let t = p + seq![sep] + s;
        assert(t.drop_last() =~= p + seq![sep] + s.drop_last());
        assert(t.last() == s.last());
        let q = split_at_char(p, sep).push(s.drop_last());
        assert(s.last() != sep);
        assert(s.drop_last().push(s.last()) =~= s);
        assert(split_at_char(t, sep) == q.update(q.len() - 1, q.last().push(s.last())));
        assert(q.update(q.len() - 1, q.last().push(s.last())) =~= split_at_char(p, sep).push(s));
    }
}

/// A run of digits has no surrounding whitespace.
pub proof fn lemma_trim_digits(s: Seq<char>)
    requires
        s.len() >= 1,
        forall|k: int| 0 <= k < s.len() ==> is_ascii_digit(#[trigger] s[k]),
    ensures
        trim(s) == s,
{
    assert(is_ascii_digit(s[0]));
    assert(trim_start(s) == s);
    assert(is_ascii_digit(s[s.len() - 1]));
    assert(trim_end(s) == s);
}

/// A run of digits whose value fits `u32` parses to that value.
pub proof fn lemma_parse_digits(s: Seq<char>)
    requires
        s.len() >= 1,
        forall|k: int| 0 <= k < s.len() ==> is_ascii_digit(#[trigger] s[k]),
        digits_value(s) <= u32::MAX,
    ensures
        parse_u32(s) == Some(digits_value(s) as u32),
{
    assert(is_ascii_digit(s[0]));
    assert(unsigned_digits(s) == s);
}

} // verus!

