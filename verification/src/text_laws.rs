//! What holds of the texts, character by character.
use vstd::prelude::*;

use crate::text::{
    begins_with, decimal_value, ends_in, find_last, join, last_index, parse_u16, place, precedes,
    push_padded, render_decimal, render_six_digits, texts, trim, trim_end_matches,
    trim_start_matches, trimmed, whitespace, without_prefixes, without_suffixes, Placement,
};

verus! {

broadcast use vstd::seq_lib::group_seq_properties;

/// Whether `a` is before `b`: they agree up to some place, at which `a` ends and `b` does not, or has
/// the lesser character.
pub open spec fn is_before(a: Seq<char>, b: Seq<char>) -> bool {
    exists|i: int|
        {
            &&& 0 <= i <= a.len()
            &&& i < b.len()
            &&& #[trigger] a.take(i) == b.take(i)
            &&& i < a.len() ==> a[i] < b[i]
        }
}

pub proof fn lemma_is_before(a: Seq<char>, b: Seq<char>)
    ensures
        precedes(a, b) == is_before(a, b),
    decreases a.len(),
{
    if b.len() > 0 && a.len() > 0 && a[0] == b[0] {
        let (x, y) = (a.drop_first(), b.drop_first());
        lemma_is_before(x, y);
        if is_before(x, y) {
            let i = choose|i: int|
                {
                    &&& 0 <= i <= x.len()
                    &&& i < y.len()
                    &&& #[trigger] x.take(i) == y.take(i)
                    &&& i < x.len() ==> x[i] < y[i]
                };
            assert(a.take(i + 1) =~= seq![a[0]] + x.take(i));
            assert(b.take(i + 1) =~= seq![b[0]] + y.take(i));
        }
        if is_before(a, b) {
            let i = choose|i: int|
                {
                    &&& 0 <= i <= a.len()
                    &&& i < b.len()
                    &&& #[trigger] a.take(i) == b.take(i)
                    &&& i < a.len() ==> a[i] < b[i]
                };
            assert(i > 0);
            assert(x.take(i - 1) =~= a.take(i).drop_first());
            assert(y.take(i - 1) =~= b.take(i).drop_first());
        }
    } else if b.len() > 0 && a.len() > 0 {
        if is_before(a, b) {
            let i = choose|i: int|
                {
                    &&& 0 <= i <= a.len()
                    &&& i < b.len()
                    &&& #[trigger] a.take(i) == b.take(i)
                    &&& i < a.len() ==> a[i] < b[i]
                };
            if i > 0 {
                assert(a.take(i)[0] == b.take(i)[0]);
            }
        }
        assert(a.take(0) =~= b.take(0));
    } else if b.len() > 0 {
        assert(a.take(0) =~= b.take(0));
    }
}

/// Texts are placed by the first character in which they differ; one that the other goes on from comes
/// first.
pub proof fn law_place_goes_by_the_first_difference(a: &str, b: &str, r: Placement)
    requires
        call_ensures(place, (a, b), r),
    ensures
        r == Placement::Before <==> is_before(a@, b@),
        r == Placement::After <==> is_before(b@, a@),
        r == Placement::Same <==> a@ == b@,
{
    lemma_is_before(a@, b@);
    lemma_is_before(b@, a@);
}

/// A number is written as what its tenth is written as, and its last digit.
pub proof fn law_decimal_digits(n: u64, s: String, tenth: String)
    requires
        call_ensures(render_decimal, (n,), s),
        call_ensures(render_decimal, (n / 10,), tenth),
    ensures
        n < 10 ==> s@.len() == 1,
        n >= 10 ==> s@ == tenth@.push(s@.last()),
        s@.len() > 0,
        s@.last() as u32 == '0' as u32 + n % 10,
        n > 0 ==> s@[0] != '0',
{
    lemma_first_digit(n as nat);
}

proof fn lemma_first_digit(n: nat)
    ensures
        crate::text::decimal(n).len() > 0,
        n > 0 ==> crate::text::decimal(n)[0] != '0',
    decreases n,
{
    if n >= 10 {
        lemma_first_digit(n / 10);
    }
}

proof fn lemma_places(m: int)
    requires
        0 <= m < 1000000,
    ensures
        m == 100000 * (m / 100000 % 10) + 10000 * (m / 10000 % 10) + 1000 * (m / 1000 % 10) + 100 * (m
            / 100 % 10) + 10 * (m / 10 % 10) + m % 10,
{
    let a = m / 10;
    let b = m / 100;
    let c = m / 1000;
    let d = m / 10000;
    let e = m / 100000;
    assert(b == a / 10 && c == b / 10 && d == c / 10 && e == d / 10);
    assert(m == 10 * a + m % 10);
    assert(a == 10 * b + a % 10);
    assert(b == 10 * c + b % 10);
    assert(c == 10 * d + c % 10);
    assert(d == 10 * e + d % 10);
    assert(e % 10 == e);
}

proof fn lemma_digit(d: int)
    requires
        0 <= d < 10,
    ensures
        crate::text::digit(d) as u32 == 48 + d,
        '0' <= crate::text::digit(d) && crate::text::digit(d) <= '9',
{
}

pub proof fn lemma_six_digits(n: u32)
    requires
        n < 1000000,
    ensures
        ({
            let s = crate::text::six_digits(n as nat);
            &&& s.len() == 6
            &&& forall|i: int| 0 <= i < 6 ==> '0' <= #[trigger] s[i] && s[i] <= '9'
            &&& n == 100000 * (s[0] as u32 - 48) + 10000 * (s[1] as u32 - 48) + 1000 * (s[2] as u32
                - 48) + 100 * (s[3] as u32 - 48) + 10 * (s[4] as u32 - 48) + (s[5] as u32 - 48)
        }),
{
    let m = n as int;
    lemma_places(m);
    lemma_digit(m / 100000 % 10);
    lemma_digit(m / 10000 % 10);
    lemma_digit(m / 1000 % 10);
    lemma_digit(m / 100 % 10);
    lemma_digit(m / 10 % 10);
    lemma_digit(m % 10);
}

/// The six digits of a number stand for it.
pub proof fn law_six_digits_stand_for_the_number(n: u32, s: String)
    requires
        call_ensures(render_six_digits, (n,), s),
        n < 1000000,
    ensures
        s@.len() == 6,
        forall|i: int| 0 <= i < 6 ==> '0' <= #[trigger] s@[i] && s@[i] <= '9',
        n == 100000 * (s@[0] as u32 - 48) + 10000 * (s@[1] as u32 - 48) + 1000 * (s@[2] as u32 - 48)
            + 100 * (s@[3] as u32 - 48) + 10 * (s@[4] as u32 - 48) + (s@[5] as u32 - 48),
{
    lemma_six_digits(n);
}

/// Whether `r` stands in `s` from `i` on, with nothing but whitespace before and after it.
pub open spec fn stands_at(r: Seq<char>, s: Seq<char>, i: int) -> bool {
    &&& 0 <= i
    &&& i + r.len() <= s.len()
    &&& forall|j: int| 0 <= j < r.len() ==> #[trigger] r[j] == s[i + j]
    &&& forall|j: int| 0 <= j < i ==> whitespace(#[trigger] s[j])
    &&& forall|j: int| i + r.len() <= j < s.len() ==> whitespace(#[trigger] s[j])
}

/// Whether `r` is what is left of `s` once whitespace is cut off from both ends.
pub open spec fn is_trimmed_of(r: Seq<char>, s: Seq<char>) -> bool {
    &&& r.len() > 0 ==> !whitespace(r[0]) && !whitespace(r.last())
    &&& exists|i: int| #[trigger] stands_at(r, s, i)
}

proof fn lemma_stands_in_rest(r: Seq<char>, s: Seq<char>, i: int)
    requires
        s.len() > 0,
        whitespace(s[0]),
        stands_at(r, s.drop_first(), i),
    ensures
        stands_at(r, s, i + 1),
{
    let x = s.drop_first();
    assert forall|j: int| 0 <= j < r.len() implies #[trigger] r[j] == s[i + 1 + j] by {
        assert(r[j] == x[i + j]);
    }
    assert forall|j: int| 0 <= j < i + 1 implies whitespace(#[trigger] s[j]) by {
        if j > 0 {
            assert(whitespace(x[j - 1]));
        }
    }
    assert forall|j: int| i + 1 + r.len() <= j < s.len() implies whitespace(#[trigger] s[j]) by {
        assert(whitespace(x[j - 1]));
    }
}

proof fn lemma_stands_before(r: Seq<char>, s: Seq<char>, i: int)
    requires
        s.len() > 0,
        whitespace(s.last()),
        stands_at(r, s.drop_last(), i),
    ensures
        stands_at(r, s, i),
{
    let x = s.drop_last();
    assert forall|j: int| 0 <= j < r.len() implies #[trigger] r[j] == s[i + j] by {
        assert(r[j] == x[i + j]);
    }
    assert forall|j: int| 0 <= j < i implies whitespace(#[trigger] s[j]) by {
        assert(whitespace(x[j]));
    }
    assert forall|j: int| i + r.len() <= j < s.len() implies whitespace(#[trigger] s[j]) by {
        if j < x.len() {
            assert(whitespace(x[j]));
        }
    }
}

proof fn lemma_trimmed_of(s: Seq<char>)
    ensures
        is_trimmed_of(trimmed(s), s),
    decreases s.len(),
{
    let r = trimmed(s);
    if s.len() > 0 && whitespace(s[0]) {
        let x = s.drop_first();
        lemma_trimmed_of(x);
        let i = choose|i: int| #[trigger] stands_at(r, x, i);
        lemma_stands_in_rest(r, s, i);
    } else if s.len() > 0 && whitespace(s.last()) {
        let x = s.drop_last();
        lemma_trimmed_of(x);
        let i = choose|i: int| #[trigger] stands_at(r, x, i);
        lemma_stands_before(r, s, i);
    } else {
        assert(stands_at(r, s, 0));
    }
}

/// Trimming takes the whitespace off both ends, all of it, and nothing else.
pub proof fn law_trim_takes_the_whitespace(s: &str, r: String)
    requires
        call_ensures(trim, (s,), r),
    ensures
        is_trimmed_of(r@, s@),
{
    lemma_trimmed_of(s@);
}

/// Taking a prefix off takes whole repetitions of it, all of them, and nothing else.
pub proof fn law_prefixes_are_taken_off(s: &str, prefix: &str, r: String)
    requires
        call_ensures(trim_start_matches, (s, prefix), r),
        prefix@.len() > 0,
    ensures
        ({
            let n = s@.len() - r@.len();
            &&& n >= 0
            &&& s@.skip(n) == r@
            &&& forall|i: int| 0 <= i < n ==> #[trigger] s@[i] == prefix@[i % prefix@.len() as int]
            &&& n % prefix@.len() as int == 0
            &&& !(r@.len() >= prefix@.len() && r@.take(prefix@.len() as int) == prefix@)
        }),
{
    lemma_prefixes(s@, prefix@);
}

proof fn lemma_prefixes(s: Seq<char>, p: Seq<char>)
    requires
        p.len() > 0,
    ensures
        ({
            let r = without_prefixes(s, p);
            let n = s.len() - r.len();
            &&& n >= 0
            &&& s.skip(n) == r
            &&& forall|i: int| 0 <= i < n ==> #[trigger] s[i] == p[i % p.len() as int]
            &&& n % p.len() as int == 0
            &&& !begins_with(r, p)
        }),
    decreases s.len(),
{
    let r = without_prefixes(s, p);
    let m = p.len() as int;
    if begins_with(s, p) {
        let x = s.skip(m);
        lemma_prefixes(x, p);
        let n = x.len() - r.len();
        assert(s.skip(n + m) =~= x.skip(n));
        assert((n + m) % m == 0) by (nonlinear_arith)
            requires
                m > 0,
                n % m == 0,
        {
            vstd::arithmetic::div_mod::lemma_mod_add_multiples_vanish(n, m);
        }
        assert forall|i: int| 0 <= i < n + m implies #[trigger] s[i] == p[i % m] by {
            if i < m {
                vstd::arithmetic::div_mod::lemma_small_mod(i as nat, m as nat);
                assert(s.take(m)[i] == p[i]);
            } else {
                vstd::arithmetic::div_mod::lemma_mod_add_multiples_vanish(i - m, m);
                assert(x[i - m] == p[(i - m) % m]);
            }
        }
    } else {
        assert(s.skip(0) =~= s);
        vstd::arithmetic::div_mod::lemma_small_mod(0, m as nat);
    }
}

/// Taking a suffix off takes it off as often as it stands there, and nothing else.
pub proof fn law_suffixes_are_taken_off(s: &str, suffix: &str, r: String)
    requires
        call_ensures(trim_end_matches, (s, suffix), r),
        suffix@.len() > 0,
    ensures
        r@.len() <= s@.len(),
        s@.take(r@.len() as int) == r@,
        forall|i: int|
            r@.len() <= i < s@.len() ==> #[trigger] s@[i] == suffix@[(i - r@.len())
                % suffix@.len() as int],
        (s@.len() - r@.len()) % suffix@.len() as int == 0,
        !(r@.len() >= suffix@.len() && r@.skip(r@.len() - suffix@.len()) == suffix@),
{
    lemma_suffixes(s@, suffix@);
}

proof fn lemma_suffixes(s: Seq<char>, p: Seq<char>)
    requires
        p.len() > 0,
    ensures
        ({
            let r = without_suffixes(s, p);
            &&& r.len() <= s.len()
            &&& s.take(r.len() as int) == r
            &&& forall|i: int|
                r.len() <= i < s.len() ==> #[trigger] s[i] == p[(i - r.len()) % p.len() as int]
            &&& (s.len() - r.len()) % p.len() as int == 0
            &&& !ends_in(r, p)
        }),
    decreases s.len(),
{
    let r = without_suffixes(s, p);
    let m = p.len() as int;
    if ends_in(s, p) {
        let x = s.take(s.len() - m);
        lemma_suffixes(x, p);
        let n = x.len() - r.len();
        assert(s.take(r.len() as int) =~= x.take(r.len() as int));
        vstd::arithmetic::div_mod::lemma_mod_add_multiples_vanish(n, m);
        assert forall|i: int| r.len() <= i < s.len() implies #[trigger] s[i] == p[(i - r.len()) % m] by {
            if i < x.len() {
                assert(x[i] == p[(i - r.len()) % m]);
            } else {
                let j = i - x.len();
                assert(s.skip(s.len() - m)[j] == p[j]);
                assert((j + n) % m == j) by {
                    assert(n == m * (n / m)) by (nonlinear_arith)
                        requires
                            m > 0,
                            n % m == 0,
                    ;
                    vstd::arithmetic::div_mod::lemma_mod_multiples_vanish(n / m, j, m);
                    vstd::arithmetic::div_mod::lemma_small_mod(j as nat, m as nat);
                }
            }
        }
    } else {
        assert(s.take(s.len() as int) =~= s);
        vstd::arithmetic::div_mod::lemma_small_mod(0, m as nat);
    }
}

/// A number is read digit by digit: one digit more makes it ten times what it was and the digit, where
/// that fits in sixteen bits, and no number where it does not. No digits are no number.
pub proof fn law_digits_are_read(v: &Vec<char>, a: Option<u16>, w: &Vec<char>, c: char, b: Option<u16>)
    requires
        call_ensures(parse_u16, (v,), a),
        call_ensures(parse_u16, (w,), b),
        w@ == v@.push(c),
        '0' <= c && c <= '9',
    ensures
        v@.len() == 0 ==> a is None && b == Some((c as u32 - '0' as u32) as u16),
        v@.len() > 0 && a is None ==> b is None,
        a matches Some(x) ==> {
            let n = 10 * x + (c as u32 - '0' as u32);
            b == (if n <= 65535 {
                Some(n as u16)
            } else {
                None
            })
        },
{
    assert(w@.drop_last() =~= v@);
    reveal_with_fuel(decimal_value, 2);
}

/// Joining goes on: one text more is put behind the separator. A single text is itself, and none is
/// the empty text.
pub proof fn law_join_goes_on(v: &Vec<String>, a: String, w: &Vec<String>, sep: &str, b: String)
    requires
        call_ensures(join, (v, sep), a),
        call_ensures(join, (w, sep), b),
        w@.len() == v@.len() + 1,
        forall|i: int| 0 <= i < v@.len() ==> (#[trigger] w@[i])@ == v@[i]@,
    ensures
        v@.len() == 0 ==> a@.len() == 0 && b@ == w@[0]@,
        v@.len() > 0 ==> b@ == a@ + sep@ + w@.last()@,
{
    assert(texts(w@).drop_last() =~= texts(v@));
    assert(texts(w@).last() == w@.last()@);
}

/// A text that is padded has its characters, then spaces, and is as wide as it should be or as it was.
pub proof fn law_padding_makes_the_width(out: &mut String, s: &str, width: usize)
    requires
        call_ensures(push_padded, (out, s, width), ()),
    ensures
        ({
            let n = old(out)@.len();
            let is = final(out)@;
            &&& is.take(n as int) == old(out)@
            &&& is.len() == n + (if s@.len() >= width {
                s@.len()
            } else {
                width as nat
            })
            &&& is.subrange(n as int, (n + s@.len()) as int) == s@
            &&& forall|i: int| n + s@.len() <= i < is.len() ==> #[trigger] is[i] == ' '
        }),
{
    let n = old(out)@.len();
    let is = final(out)@;
    assert(is.take(n as int) =~= old(out)@);
    assert(is.subrange(n as int, (n + s@.len()) as int) =~= s@);
}

/// What is found last is there, and nothing after it is the same; where nothing is found, it is
/// nowhere.
pub proof fn law_last_is_found(v: &Vec<char>, c: char, r: Option<usize>)
    requires
        call_ensures(find_last, (v, c), r),
    ensures
        r matches Some(i) ==> i < v@.len() && v@[i as int] == c && forall|j: int|
            i < j < v@.len() ==> #[trigger] v@[j] != c,
        r is None ==> forall|j: int| 0 <= j < v@.len() ==> #[trigger] v@[j] != c,
{
    lemma_last_index(v@, c);
}

pub proof fn lemma_last_index(s: Seq<char>, c: char)
    ensures
        match last_index(s, c) {
            Some(i) => 0 <= i < s.len() && s[i] == c && forall|j: int|
                i < j < s.len() ==> #[trigger] s[j] != c,
            None => forall|j: int| 0 <= j < s.len() ==> #[trigger] s[j] != c,
        },
    decreases s.len(),
{
    if s.len() > 0 && s.last() != c {
        let t = s.drop_last();
        lemma_last_index(t, c);
        match last_index(s, c) {
            Some(i) => {
                assert forall|j: int| i < j < s.len() implies #[trigger] s[j] != c by {
                    if j < t.len() {
                        assert(t[j] != c);
                    }
                }
            },
            None => {
                assert forall|j: int| 0 <= j < s.len() implies #[trigger] s[j] != c by {
                    if j < t.len() {
                        assert(t[j] != c);
                    }
                }
            },
        }
    }
}

} // verus!
