//! Character-level helpers shared by the parsers and the emitter.
use vstd::prelude::*;

verus! {

/// Unicode `White_Space`: the characters that trimming removes.
pub open spec fn is_ws(c: char) -> bool {
    let u = c as u32;
    (0x9 <= u && u <= 0xD) || u == 0x20 || u == 0x85 || u == 0xA0 || u == 0x1680 || (0x2000
        <= u && u <= 0x200A) || u == 0x2028 || u == 0x2029 || u == 0x202F || u == 0x205F || u
        == 0x3000
}

pub fn is_whitespace(c: char) -> (r: bool)
    ensures
        r == is_ws(c),
{
    let u = c as u32;
    (0x9 <= u && u <= 0xD) || u == 0x20 || u == 0x85 || u == 0xA0 || u == 0x1680 || (0x2000
        <= u && u <= 0x200A) || u == 0x2028 || u == 0x2029 || u == 0x202F || u == 0x205F || u
        == 0x3000
}

/// `s` without its leading whitespace.
pub open spec fn trim_start(s: Seq<char>) -> Seq<char>
    decreases s.len(),
{
    if s.len() > 0 && is_ws(s[0]) {
        trim_start(s.drop_first())
    } else {
        s
    }
}

/// `s` without its trailing whitespace.
pub open spec fn trim_end(s: Seq<char>) -> Seq<char>
    decreases s.len(),
{
    if s.len() > 0 && is_ws(s.last()) {
        trim_end(s.drop_last())
    } else {
        s
    }
}

/// `s` without whitespace at either end.
pub open spec fn trim(s: Seq<char>) -> Seq<char> {
    trim_end(trim_start(s))
}

pub open spec fn starts_with(s: Seq<char>, p: Seq<char>) -> bool {
    p.len() <= s.len() && s.take(p.len() as int) == p
}

/// The characters of `s`, one per element.
pub fn chars_of(s: &str) -> (r: Vec<char>)
    ensures
        r@ == s@,
{
    let n = s.unicode_len();
    let mut r: Vec<char> = Vec::new();
    let mut i: usize = 0;
    while i < n
        invariant
            n == s@.len(),
            i <= n,
            r@ == s@.take(i as int),
        decreases n - i,
    {
        r.push(s.get_char(i));
        i = i + 1;
        assert(r@ =~= s@.take(i as int));
    }
    assert(r@ =~= s@);
    r
}

/// Relies on `String::push`: appends one character at the end.
#[verifier::external_body]
pub(crate) fn push_char(s: &mut String, c: char)
    ensures
        final(s)@ == old(s)@.push(c),
{
    s.push(c);
}

/// Appends the characters `v[from..to]` to `s`.
pub fn push_range(s: &mut String, v: &Vec<char>, from: usize, to: usize)
    requires
        from <= to <= v@.len(),
    ensures
        final(s)@ == old(s)@ + v@.subrange(from as int, to as int),
{
    let mut i: usize = from;
    while i < to
        invariant
            from <= i <= to,
            to <= v@.len(),
            s@ == old(s)@ + v@.subrange(from as int, i as int),
        decreases to - i,
    {
        push_char(s, v[i]);
        i = i + 1;
        assert(s@ =~= old(s)@ + v@.subrange(from as int, i as int));
    }
}

/// A `String` holding `v[from..to]`.
pub fn string_of(v: &Vec<char>, from: usize, to: usize) -> (r: String)
    requires
        from <= to <= v@.len(),
    ensures
        r@ == v@.subrange(from as int, to as int),
{
    let mut r = String::new();
    push_range(&mut r, v, from, to);
    assert(r@ =~= v@.subrange(from as int, to as int));
    r
}

/// Appends all of `t` to `s`.
pub fn push_str(s: &mut String, t: &str)
    ensures
        final(s)@ == old(s)@ + t@,
{
    s.append(t);
}

/// Whether `v[at..to]` begins with `p`.
pub fn has_prefix_at(v: &Vec<char>, at: usize, to: usize, p: &str) -> (r: bool)
    requires
        at <= to <= v@.len(),
    ensures
        r == starts_with(v@.subrange(at as int, to as int), p@),
{
    let n = p.unicode_len();
    if n > to - at {
        return false;
    }
    let mut i: usize = 0;
    while i < n
        invariant
            n == p@.len(),
            at + n <= to <= v@.len(),
            i <= n,
            forall|j: int| 0 <= j < i ==> v@[at + j] == p@[j],
        decreases n - i,
    {
        if v[at + i] != p.get_char(i) {
            assert(v@.subrange(at as int, to as int).take(n as int)[i as int] != p@[i as int]);
            return false;
        }
        i = i + 1;
    }
    assert(v@.subrange(at as int, to as int).take(n as int) =~= p@);
    true
}

/// The bounds `(a, b)` of `v[from..to]` with whitespace removed at both ends.
pub fn trim_bounds(v: &Vec<char>, from: usize, to: usize) -> (r: (usize, usize))
    requires
        from <= to <= v@.len(),
    ensures
        from <= r.0 <= r.1 <= to,
        v@.subrange(r.0 as int, r.1 as int) == trim(v@.subrange(from as int, to as int)),
{
    let mut a: usize = from;
    while a < to && is_whitespace(v[a])
        invariant
            from <= a <= to <= v@.len(),
            trim_start(v@.subrange(from as int, to as int)) == trim_start(
                v@.subrange(a as int, to as int),
            ),
        decreases to - a,
    {
        assert(v@.subrange(a as int, to as int).drop_first() =~= v@.subrange(a + 1, to as int));
        a = a + 1;
    }
    assert(trim_start(v@.subrange(a as int, to as int)) == v@.subrange(a as int, to as int));
    let mut b: usize = to;
    while b > a && is_whitespace(v[b - 1])
        invariant
            from <= a <= b <= to <= v@.len(),
            trim(v@.subrange(from as int, to as int)) == trim_end(
                v@.subrange(a as int, b as int),
            ),
        decreases b - a,
    {
        assert(v@.subrange(a as int, b as int).drop_last() =~= v@.subrange(a as int, b - 1));
        b = b - 1;
    }
    (a, b)
}

/// The decimal digit for `d`.
pub open spec fn digit_char(d: nat) -> char {
    char_of((48 + d % 10) as u32)
}

pub open spec fn char_of(u: u32) -> char {
    if u == 48 { '0' } else if u == 49 { '1' } else if u == 50 { '2' } else if u == 51 { '3' }
    else if u == 52 { '4' } else if u == 53 { '5' } else if u == 54 { '6' } else if u == 55 { '7' }
    else if u == 56 { '8' } else { '9' }
}

/// The value of an ASCII decimal digit.
pub open spec fn digit_value(c: char) -> int {
    (c as u32) - 48
}

pub open spec fn is_digit(c: char) -> bool {
    '0' <= c && c <= '9'
}

/// `n` in decimal, zero-padded on the left to at least `width` digits.
pub open spec fn decimal(n: nat, width: nat) -> Seq<char>
    decreases width, n,
{
    if n < 10 && width <= 1 {
        seq![digit_char(n)]
    } else {
        decimal(n / 10, if width > 0 { (width - 1) as nat } else { 0 }).push(digit_char(n))
    }
}

/// The number that the decimal digits `s` spell.
pub open spec fn decimal_value(s: Seq<char>) -> int
    decreases s.len(),
{
    if s.len() == 0 {
        0
    } else {
        decimal_value(s.drop_last()) * 10 + digit_value(s.last())
    }
}

pub proof fn lemma_digit_char(d: nat)
    ensures
        is_digit(digit_char(d)),
        digit_value(digit_char(d)) == d % 10,
{
}

/// Reading back the digits that `decimal` writes gives the number.
pub proof fn lemma_decimal_value(n: nat, width: nat)
    ensures
        decimal_value(decimal(n, width)) == n,
        decimal(n, width).len() >= width,
        decimal(n, width).len() >= 1,
        forall|i: int| 0 <= i < decimal(n, width).len() ==> is_digit(#[trigger] decimal(n, width)[i]),
    decreases width, n,
{
    lemma_digit_char(n);
    if n < 10 && width <= 1 {
        assert(seq![digit_char(n)].drop_last() =~= Seq::<char>::empty());
        assert(decimal_value(decimal(n, width)) == decimal_value(Seq::<char>::empty()) * 10
            + digit_value(digit_char(n)));
    } else {
        let w = if width > 0 { (width - 1) as nat } else { 0 };
        lemma_decimal_value(n / 10, w);
        let s = decimal(n / 10, w);
        assert(s.push(digit_char(n)).drop_last() =~= s);
        assert(decimal_value(decimal(n, width)) == decimal_value(s) * 10 + digit_value(
            digit_char(n),
        ));
        assert(n == (n / 10) * 10 + n % 10);
        assert forall|i: int| 0 <= i < decimal(n, width).len() implies is_digit(
            #[trigger] decimal(n, width)[i],
        ) by {
            if i < s.len() {
                assert(decimal(n, width)[i] == s[i]);
            }
        }
    }
}

pub proof fn lemma_decimal_len(n: nat, width: nat)
    requires
        width >= 1,
        n < pow10(width),
    ensures
        decimal(n, width).len() == width,
    decreases width, n,
{
    if n < 10 && width <= 1 {
    } else {
        assert(pow10(1) == 10) by {
            reveal_with_fuel(pow10, 2);
        }
        assert(width > 1);
        assert(pow10(width) == 10 * pow10((width - 1) as nat));
        lemma_decimal_len(n / 10, (width - 1) as nat);
    }
}

pub open spec fn pow10(k: nat) -> nat
    decreases k,
{
    if k == 0 {
        1
    } else {
        10 * pow10((k - 1) as nat)
    }
}

fn digit_of(d: u64) -> (c: char)
    requires
        d < 10,
    ensures
        c == digit_char(d as nat),
{
    if d == 0 { '0' } else if d == 1 { '1' } else if d == 2 { '2' } else if d == 3 { '3' }
    else if d == 4 { '4' } else if d == 5 { '5' } else if d == 6 { '6' } else if d == 7 { '7' }
    else if d == 8 { '8' } else { '9' }
}

/// Appends `n` in decimal, zero-padded to at least `width` digits.
pub fn push_decimal(s: &mut String, n: u64, width: u64)
    ensures
        final(s)@ == old(s)@ + decimal(n as nat, width as nat),
    decreases width, n,
{
    if n < 10 && width <= 1 {
        push_char(s, digit_of(n));
        assert(final(s)@ =~= old(s)@ + decimal(n as nat, width as nat));
    } else {
        let w: u64 = if width > 0 { width - 1 } else { 0 };
        push_decimal(s, n / 10, w);
        push_char(s, digit_of(n % 10));
        assert(final(s)@ =~= old(s)@ + decimal(n as nat, width as nat));
    }
}

/// The value of the digits `v[from..to]`, or `None` where one of them is no digit.
pub fn read_decimal(v: &Vec<char>, from: usize, to: usize) -> (r: Option<u32>)
    requires
        from <= to <= v@.len(),
        to - from <= 9,
    ensures
        r is Some <==> (forall|i: int| from <= i < to ==> is_digit(#[trigger] v@[i])),
        r is Some ==> r->0 == decimal_value(v@.subrange(from as int, to as int)),
        r is Some ==> r->0 < pow10((to - from) as nat),
{
    let mut acc: u32 = 0;
    let mut i: usize = from;
    while i < to
        invariant
            from <= i <= to <= v@.len(),
            to - from <= 9,
            forall|j: int| from <= j < i ==> is_digit(#[trigger] v@[j]),
            acc == decimal_value(v@.subrange(from as int, i as int)),
            acc < pow10((i - from) as nat),
        decreases to - i,
    {
        let c = v[i];
        if !('0' <= c && c <= '9') {
            return None;
        }
        assert(v@.subrange(from as int, i + 1).drop_last() =~= v@.subrange(from as int, i as int));
        proof {
            lemma_pow10_small((i - from) as nat);
        }
        acc = acc * 10 + (c as u32 - 48);
        i = i + 1;
    }
    Some(acc)
}

proof fn lemma_pow10_small(k: nat)
    requires
        k <= 8,
    ensures
        pow10(k) <= 100_000_000,
        pow10(k + 1) == 10 * pow10(k),
{
    reveal_with_fuel(pow10, 10);
}

} // verus!
