//! Text primitives shared by the emitter and the browser: appending single
//! characters, padding, joining, number rendering, and the ASCII case folding
//! used when peripherals are selected by name.

use vstd::prelude::*;
use vstd::set_lib::{lemma_int_range, lemma_len_subset, set_int_range};
use vstd::string::*;
use vstd::utf8::encode_utf8;

verus! {

/// `String::push` appends exactly the given character.
pub assume_specification[ String::push ](s: &mut String, c: char)
    ensures
        final(s)@ == old(s)@.push(c),
;

/// `n` copies of `c`.
pub open spec fn repeat(c: char, n: int) -> Seq<char> {
    Seq::new(if n > 0 { n as nat } else { 0 }, |i: int| c)
}

/// `s` followed by spaces up to `width` characters; `s` itself when it is
/// already that long.
pub open spec fn pad_right(s: Seq<char>, width: int) -> Seq<char> {
    s + repeat(' ', width - s.len())
}

/// `s` preceded by `fill` up to `width` characters.
pub open spec fn pad_left(s: Seq<char>, width: int, fill: char) -> Seq<char> {
    repeat(fill, width - s.len()) + s
}

/// The character of one digit below 16, lower case.
pub open spec fn digit_char(d: int) -> char {
    if d == 0 { '0' } else if d == 1 { '1' } else if d == 2 { '2' } else if d == 3 { '3' }
    else if d == 4 { '4' } else if d == 5 { '5' } else if d == 6 { '6' } else if d == 7 { '7' }
    else if d == 8 { '8' } else if d == 9 { '9' } else if d == 10 { 'a' } else if d == 11 { 'b' }
    else if d == 12 { 'c' } else if d == 13 { 'd' } else if d == 14 { 'e' } else { 'f' }
}

/// The digits of `n` in `base`, most significant first, without leading
/// zeros; the single digit `0` for zero.
pub open spec fn digits(n: nat, base: nat) -> Seq<char>
    recommends
        2 <= base <= 16,
    decreases n,
{
    if n < base || base < 2 {
        seq![digit_char(n as int)]
    } else {
        proof {
            assert(n / base < n) by (nonlinear_arith)
                requires
                    n >= base,
                    base >= 2,
            ;
        }
        digits(n / base, base).push(digit_char((n % base) as int))
    }
}

/// Decimal rendering.
pub open spec fn decimal(n: nat) -> Seq<char> {
    digits(n, 10)
}

/// Lower-case hexadecimal rendering, zero-filled to `width` digits.
pub open spec fn hex(n: nat, width: int) -> Seq<char> {
    pad_left(digits(n, 16), width, '0')
}

/// The parts joined by `sep`: nothing before the first part or after the last.
pub open spec fn join(parts: Seq<Seq<char>>, sep: Seq<char>) -> Seq<char>
    decreases parts.len(),
{
    if parts.len() == 0 {
        Seq::empty()
    } else if parts.len() == 1 {
        parts[0]
    } else {
        join(parts.drop_last(), sep) + sep + parts.last()
    }
}

/// The length of a text in bytes of UTF-8.
pub open spec fn byte_length(text: Seq<char>) -> nat {
    encode_utf8(text).len()
}

/// The views of a list of strings.
pub open spec fn views(parts: Seq<String>) -> Seq<Seq<char>> {
    Seq::new(parts.len(), |i: int| parts[i]@)
}

/// The length of a text in bytes, as `str::len` counts it.
pub fn byte_count(text: &str) -> (n: usize)
    ensures
        n == byte_length(text@),
{
    text.as_bytes().len()
}

/// The character of one digit below 16.
pub fn digit_to_char(d: u8) -> (c: char)
    requires
        d < 16,
    ensures
        c == digit_char(d as int),
{
    match d {
        0 => '0', 1 => '1', 2 => '2', 3 => '3', 4 => '4', 5 => '5', 6 => '6', 7 => '7',
        8 => '8', 9 => '9', 10 => 'a', 11 => 'b', 12 => 'c', 13 => 'd', 14 => 'e', _ => 'f',
    }
}

/// Appends `n` copies of `c`.
pub fn push_repeat(out: &mut String, c: char, n: usize)
    ensures
        final(out)@ == old(out)@ + repeat(c, n as int),
{
    let mut i: usize = 0;
    while i < n
        invariant
            i <= n,
            out@ == old(out)@ + repeat(c, i as int),
        decreases n - i,
    {
        out.push(c);
        i += 1;
        assert(out@ =~= old(out)@ + repeat(c, i as int));
    }
}

/// Appends `s`, then spaces up to `width` characters.
pub fn push_padded_right(out: &mut String, s: &str, width: usize)
    ensures
        final(out)@ == old(out)@ + pad_right(s@, width as int),
{
    let len = s.unicode_len();
    out.append(s);
    if len < width {
        push_repeat(out, ' ', width - len);
    } else {
        assert(repeat(' ', width - len) =~= Seq::<char>::empty());
    }
    assert(out@ =~= old(out)@ + pad_right(s@, width as int));
}

/// Appends `fill` up to `width` characters, then `s`.
pub fn push_padded_left(out: &mut String, s: &str, width: usize, fill: char)
    ensures
        final(out)@ == old(out)@ + pad_left(s@, width as int, fill),
{
    let len = s.unicode_len();
    if len < width {
        push_repeat(out, fill, width - len);
    } else {
        assert(repeat(fill, width - len) =~= Seq::<char>::empty());
    }
    out.append(s);
    assert(out@ =~= old(out)@ + pad_left(s@, width as int, fill));
}

/// The digits of `n` in `base` as a string.
pub fn render_digits(n: u64, base: u64) -> (out: String)
    requires
        2 <= base <= 16,
    ensures
        out@ == digits(n as nat, base as nat),
{
    let mut rev: Vec<char> = Vec::new();
    let mut cur: u64 = n;
    while cur >= base
        invariant
            2 <= base <= 16,
            digits(n as nat, base as nat) == digits(cur as nat, base as nat) + rev@.reverse(),
        decreases cur,
    {
        let d = digit_to_char((cur % base) as u8);
        proof {
            assert(rev@.push(d).reverse() =~= seq![d] + rev@.reverse());
            assert(digits(cur as nat, base as nat) + rev@.reverse() =~= digits(
                (cur / base) as nat,
                base as nat,
            ) + rev@.push(d).reverse());
        }
        rev.push(d);
        cur = cur / base;
    }
    let last = digit_to_char(cur as u8);
    proof {
        assert(rev@.push(last).reverse() =~= seq![last] + rev@.reverse());
    }
    rev.push(last);
    assert(digits(n as nat, base as nat) =~= rev@.reverse());
    let mut out = String::new();
    let mut i: usize = rev.len();
    while i > 0
        invariant
            i <= rev.len(),
            out@ == rev@.reverse().take(rev.len() - i),
        decreases i,
    {
        i -= 1;
        out.push(rev[i]);
        assert(out@ =~= rev@.reverse().take(rev.len() - i));
    }
    assert(out@ =~= rev@.reverse());
    out
}

/// Appends the decimal rendering of `n`.
pub fn push_decimal(out: &mut String, n: u64)
    ensures
        final(out)@ == old(out)@ + decimal(n as nat),
{
    let d = render_digits(n, 10);
    out.append(d.as_str());
}

/// Appends the hexadecimal rendering of `n`, zero-filled to `width` digits.
pub fn push_hex(out: &mut String, n: u64, width: usize)
    ensures
        final(out)@ == old(out)@ + hex(n as nat, width as int),
{
    let d = render_digits(n, 16);
    push_padded_left(out, d.as_str(), width, '0');
}

/// Joins the parts with `sep` between them.
pub fn join_strings(parts: &Vec<String>, sep: &str) -> (out: String)
    ensures
        out@ == join(views(parts@), sep@),
{
    let mut out = String::new();
    let mut i: usize = 0;
    while i < parts.len()
        invariant
            i <= parts.len(),
            out@ == join(views(parts@).take(i as int), sep@),
        decreases parts.len() - i,
    {
        let ghost before = views(parts@).take(i as int);
        let ghost after = views(parts@).take(i + 1);
        proof {
            assert(after.drop_last() =~= before);
            assert(after.last() == parts@[i as int]@);
        }
        if i > 0 {
            out.append(sep);
        } else {
            assert(out@ + parts@[i as int]@ =~= parts@[i as int]@);
        }
        out.append(parts[i].as_str());
        i += 1;
    }
    assert(views(parts@).take(parts.len() as int) =~= views(parts@));
    out
}

/// A rendering has at least one digit, and more than one from `base` on.
pub proof fn lemma_digits_len(n: nat, base: nat)
    requires
        2 <= base <= 16,
    ensures
        digits(n, base).len() >= 1,
        n >= base ==> digits(n, base).len() >= 2,
    decreases n,
{
    if n >= base {
        assert(n / base < n) by (nonlinear_arith)
            requires
                n >= base,
                base >= 2,
        ;
        lemma_digits_len(n / base, base);
    }
}

/// Different numbers have different renderings.
pub proof fn lemma_digits_injective(a: nat, b: nat, base: nat)
    requires
        2 <= base <= 16,
        digits(a, base) == digits(b, base),
    ensures
        a == b,
    decreases a,
{
    lemma_digits_len(a, base);
    lemma_digits_len(b, base);
    if a >= base && b >= base {
        assert(a / base < a) by (nonlinear_arith)
            requires
                a >= base,
                base >= 2,
        ;
        let da = digits(a / base, base);
        let db = digits(b / base, base);
        let la = digit_char((a % base) as int);
        let lb = digit_char((b % base) as int);
        assert(da == da.push(la).drop_last());
        assert(db == db.push(lb).drop_last());
        assert(da.push(la).last() == la);
        assert(db.push(lb).last() == lb);
        lemma_digits_injective(a / base, b / base, base);
        assert(a % base == b % base);
        assert(a == b) by (nonlinear_arith)
            requires
                a / base == b / base,
                a % base == b % base,
                base >= 2,
        ;
    } else if a < base && b < base {
        assert(digits(a, base)[0] == digit_char(a as int));
        assert(digits(b, base)[0] == digit_char(b as int));
    }
}

/// The digits of a decimal rendering are decimal digits.
pub proof fn lemma_decimal_digits(n: nat)
    ensures
        forall|i: int|
            0 <= i < decimal(n).len() ==> '0' <= #[trigger] decimal(n)[i] && decimal(n)[i] <= '9',
    decreases n,
{
    if n >= 10 {
        lemma_decimal_digits(n / 10);
        let rest = decimal(n / 10);
        assert forall|i: int| 0 <= i < decimal(n).len() implies '0' <= #[trigger] decimal(n)[i]
            && decimal(n)[i] <= '9' by {
            if i < rest.len() {
                assert(decimal(n)[i] == rest[i]);
            }
        }
    }
}

/// Positions below `n`, none of them twice, are at most `n`.
pub proof fn lemma_distinct_positions(positions: Seq<int>, n: nat)
    requires
        positions.no_duplicates(),
        forall|k: int| 0 <= k < positions.len() ==> 0 <= #[trigger] positions[k] < n,
    ensures
        positions.len() <= n,
{
    positions.unique_seq_to_set();
    lemma_int_range(0, n as int);
    assert(positions.to_set().subset_of(set_int_range(0, n as int))) by {
        assert forall|x: int| positions.to_set().contains(x) implies set_int_range(
            0,
            n as int,
        ).contains(x) by {
            let k = choose|k: int| 0 <= k < positions.len() && positions[k] == x;
            assert(0 <= positions[k] < n);
        }
    }
    lemma_len_subset(positions.to_set(), set_int_range(0, n as int));
}

} // verus!
