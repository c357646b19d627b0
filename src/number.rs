//! Decimal numbers as the recognizer prints them: an optional sign, digits
//! with an optional fraction, and an optional exponent.

use vstd::prelude::*;

verus! {

pub open spec fn is_digit(c: char) -> bool {
    '0' <= c && c <= '9'
}

/// The number of digits at the start of `s`.
pub open spec fn digit_run(s: Seq<char>) -> nat
    decreases s.len(),
{
    if s.len() > 0 && is_digit(s[0]) {
        1 + digit_run(s.drop_first())
    } else {
        0
    }
}

/// `s` without one leading sign.
pub open spec fn unsigned_part(s: Seq<char>) -> Seq<char> {
    if s.len() > 0 && (s[0] == '+' || s[0] == '-') {
        s.drop_first()
    } else {
        s
    }
}

/// Nothing, or `e` / `E`, an optional sign and at least one digit.
pub open spec fn is_exponent(s: Seq<char>) -> bool {
    s.len() == 0 || (s[0] == 'e' || s[0] == 'E') && {
        let t = unsigned_part(s.drop_first());
        t.len() > 0 && digit_run(t) == t.len()
    }
}

/// Whether `s` is a decimal number: an optional sign, digits with an optional
/// `.` and fraction digits, at least one digit in all, and an optional
/// exponent.
pub open spec fn is_number(s: Seq<char>) -> bool {
    let a = unsigned_part(s);
    let n1 = digit_run(a);
    let r1 = a.subrange(n1 as int, a.len() as int);
    if r1.len() > 0 && r1[0] == '.' {
        let f = r1.drop_first();
        let n2 = digit_run(f);
        n1 + n2 > 0 && is_exponent(f.subrange(n2 as int, f.len() as int))
    } else {
        n1 > 0 && is_exponent(r1)
    }
}

/// A decimal number, kept as the characters that spelled it.
#[derive(Debug)]
pub struct Number {
    text: String,
}

impl View for Number {
    type V = Seq<char>;

    closed spec fn view(&self) -> Seq<char> {
        self.text@
    }
}

impl Clone for Number {
    fn clone(&self) -> (r: Self)
        ensures
            r@ == self@,
    {
        proof {
            use_type_invariant(self);
        }
        Number { text: self.text.clone() }
    }
}

impl Number {
    #[verifier::type_invariant]
    spec fn spells_number(self) -> bool {
        is_number(self.text@)
    }

    /// The characters of the number.
    pub fn as_str(&self) -> (r: &str)
        ensures
            r@ == self@,
            is_number(r@),
    {
        proof {
            use_type_invariant(self);
        }
        self.text.as_str()
    }

    /// Reads `s` as a number; `None` where it is not one.
    pub fn parse(s: &str) -> (r: Option<Number>)
        ensures
            is_number(s@) <==> r is Some,
            r matches Some(n) ==> n@ == s@,
    {
        if number_check(s) {
            Some(Number { text: s.to_owned() })
        } else {
            None
        }
    }

    pub(crate) fn from_checked(s: &str) -> (r: Number)
        requires
            is_number(s@),
        ensures
            r@ == s@,
    {
        Number { text: s.to_owned() }
    }
}

fn number_check(s: &str) -> (r: bool)
    ensures
        r == is_number(s@),
{
    let v = crate::text::chars_of(s);
    let n = v.len();
    proof {
        assert(v@.subrange(0, n as int) =~= v@);
    }
    is_number_range(&v, 0, n)
}

/// The end of the run of digits that starts at `lo` in `v[lo..hi]`.
pub fn digit_run_end(v: &Vec<char>, lo: usize, hi: usize) -> (r: usize)
    requires
        lo <= hi <= v.len(),
    ensures
        lo <= r <= hi,
        r - lo == digit_run(v@.subrange(lo as int, hi as int)),
{
    let mut i: usize = lo;
    while i < hi && '0' <= v[i] && v[i] <= '9'
        invariant
            lo <= i <= hi <= v.len(),
            digit_run(v@.subrange(lo as int, hi as int)) == (i - lo) + digit_run(
                v@.subrange(i as int, hi as int),
            ),
        decreases hi - i,
    {
        assert(v@.subrange(i as int, hi as int).drop_first() =~= v@.subrange(i + 1, hi as int));
        i = i + 1;
    }
    proof {
        if i < hi {
            assert(v@.subrange(i as int, hi as int)[0] == v@[i as int]);
        }
    }
    i
}

/// The start of `v[lo..hi]` once one leading sign is passed over.
fn unsigned_start(v: &Vec<char>, lo: usize, hi: usize) -> (r: usize)
    requires
        lo <= hi <= v.len(),
    ensures
        lo <= r <= hi,
        v@.subrange(r as int, hi as int) == unsigned_part(v@.subrange(lo as int, hi as int)),
{
    if lo < hi && (v[lo] == '+' || v[lo] == '-') {
        assert(v@.subrange(lo as int, hi as int).drop_first() =~= v@.subrange(lo + 1, hi as int));
        lo + 1
    } else {
        lo
    }
}

fn is_exponent_range(v: &Vec<char>, lo: usize, hi: usize) -> (r: bool)
    requires
        lo <= hi <= v.len(),
    ensures
        r == is_exponent(v@.subrange(lo as int, hi as int)),
{
    if lo == hi {
        return true;
    }
    if v[lo] != 'e' && v[lo] != 'E' {
        return false;
    }
    assert(v@.subrange(lo as int, hi as int).drop_first() =~= v@.subrange(lo + 1, hi as int));
    let a = unsigned_start(v, lo + 1, hi);
    let e = digit_run_end(v, a, hi);
    a < hi && e == hi
}

/// Whether `v[lo..hi]` is a decimal number.
pub fn is_number_range(v: &Vec<char>, lo: usize, hi: usize) -> (r: bool)
    requires
        lo <= hi <= v.len(),
    ensures
        r == is_number(v@.subrange(lo as int, hi as int)),
{
    let ghost s = v@.subrange(lo as int, hi as int);
    let a = unsigned_start(v, lo, hi);
    let i = digit_run_end(v, a, hi);
    let ghost au = unsigned_part(s);
    assert(au.subrange(i - a, au.len() as int) =~= v@.subrange(i as int, hi as int));
    if i < hi && v[i] == '.' {
        assert(v@.subrange(i as int, hi as int).drop_first() =~= v@.subrange(i + 1, hi as int));
        let j = digit_run_end(v, i + 1, hi);
        let ghost f = v@.subrange(i + 1, hi as int);
        assert(f.subrange(j - (i + 1), f.len() as int) =~= v@.subrange(j as int, hi as int));
        let e = is_exponent_range(v, j, hi);
        (i - a) + (j - (i + 1)) > 0 && e
    } else {
        let e = is_exponent_range(v, i, hi);
        i > a && e
    }
}

/// A character that can stand in a number.
pub open spec fn is_number_char(c: char) -> bool {
    is_digit(c) || c == '+' || c == '-' || c == '.' || c == 'e' || c == 'E'
}

proof fn lemma_digit_run(s: Seq<char>)
    ensures
        digit_run(s) <= s.len(),
        forall|i: int| 0 <= i < digit_run(s) ==> is_digit(s[i]),
    decreases s.len(),
{
    if s.len() > 0 && is_digit(s[0]) {
        lemma_digit_run(s.drop_first());
        assert forall|i: int| 0 <= i < digit_run(s) implies is_digit(s[i]) by {
            if i > 0 {
                assert(s[i] == s.drop_first()[i - 1]);
            }
        }
    }
}

proof fn lemma_unsigned_chars(s: Seq<char>)
    requires
        forall|i: int| 0 <= i < unsigned_part(s).len() ==> is_number_char(unsigned_part(s)[i]),
    ensures
        forall|i: int| 0 <= i < s.len() ==> is_number_char(s[i]),
        s.len() >= unsigned_part(s).len(),
{
    assert forall|i: int| 0 <= i < s.len() implies is_number_char(s[i]) by {
        if s.len() > 0 && (s[0] == '+' || s[0] == '-') {
            if i > 0 {
                assert(s[i] == unsigned_part(s)[i - 1]);
            }
        } else {
            assert(s[i] == unsigned_part(s)[i]);
        }
    }
}

proof fn lemma_exponent_chars(e: Seq<char>)
    requires
        is_exponent(e),
    ensures
        forall|i: int| 0 <= i < e.len() ==> is_number_char(e[i]),
{
    if e.len() > 0 {
        let d = e.drop_first();
        let t = unsigned_part(d);
        lemma_digit_run(t);
        lemma_unsigned_chars(d);
        assert forall|i: int| 0 <= i < e.len() implies is_number_char(e[i]) by {
            if i > 0 {
                assert(e[i] == d[i - 1]);
            }
        }
    }
}

/// A number is not empty and is made of digits, signs, `.`, `e` and `E`.
pub proof fn lemma_number_chars(s: Seq<char>)
    requires
        is_number(s),
    ensures
        s.len() > 0,
        forall|i: int| 0 <= i < s.len() ==> is_number_char(s[i]),
{
    let a = unsigned_part(s);
    let n1 = digit_run(a);
    lemma_digit_run(a);
    let r1 = a.subrange(n1 as int, a.len() as int);
    if r1.len() > 0 && r1[0] == '.' {
        let f = r1.drop_first();
        let n2 = digit_run(f);
        lemma_digit_run(f);
        let e = f.subrange(n2 as int, f.len() as int);
        lemma_exponent_chars(e);
        assert forall|i: int| 0 <= i < f.len() implies is_number_char(f[i]) by {
            if i >= n2 {
                assert(f[i] == e[i - n2]);
            }
        }
        assert forall|i: int| 0 <= i < r1.len() implies is_number_char(r1[i]) by {
            if i > 0 {
                assert(r1[i] == f[i - 1]);
            }
        }
    } else {
        lemma_exponent_chars(r1);
    }
    assert forall|i: int| 0 <= i < a.len() implies is_number_char(a[i]) by {
        if i >= n1 {
            assert(a[i] == r1[i - n1]);
        }
    }
    lemma_unsigned_chars(s);
}

} // verus!
