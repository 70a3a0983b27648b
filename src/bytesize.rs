//! Byte sizes written with a unit suffix (`512MB`, `1GB`, `100KB`, `100B`).
use vstd::prelude::*;
use vstd::string::*;

verus! {

pub open spec fn is_digit(c: char) -> bool {
    '0' <= c && c <= '9'
}

pub open spec fn digit_value(c: char) -> nat {
    (c as int - '0' as int) as nat
}

/// The number that a string of decimal digits stands for.
pub open spec fn digits_value(s: Seq<char>) -> nat
    decreases s.len(),
{
    if s.len() == 0 {
        0
    } else {
        digits_value(s.drop_last()) * 10 + digit_value(s.last())
    }
}

pub open spec fn all_digits(s: Seq<char>) -> bool {
    forall|i: int| 0 <= i < s.len() ==> is_digit(#[trigger] s[i])
}

pub open spec fn ends_with(s: Seq<char>, t: Seq<char>) -> bool {
    s.len() >= t.len() && s.subrange(s.len() - t.len(), s.len() as int) == t
}

/// The unit suffix of a size and the bytes one unit stands for, where there is
/// one; the suffixes are tried in the order GB, MB, KB, B.
pub open spec fn size_suffix(s: Seq<char>) -> Option<(nat, nat)> {
    if ends_with(s, seq!['G', 'B']) {
        Some((2, 1073741824))
    } else if ends_with(s, seq!['M', 'B']) {
        Some((2, 1048576))
    } else if ends_with(s, seq!['K', 'B']) {
        Some((2, 1024))
    } else if ends_with(s, seq!['B']) {
        Some((1, 1))
    } else {
        None
    }
}

/// A magnitude without its optional leading plus sign.
pub open spec fn unsigned_part(m: Seq<char>) -> Seq<char> {
    if m.len() > 0 && m[0] == '+' {
        m.drop_first()
    } else {
        m
    }
}

pub open spec fn pow10(n: nat) -> nat
    decreases n,
{
    if n == 0 {
        1
    } else {
        10 * pow10((n - 1) as nat)
    }
}

/// The position of the first `.` in `d`, or its length when there is none.
pub open spec fn first_dot(d: Seq<char>) -> nat
    decreases d.len(),
{
    if d.len() == 0 {
        0
    } else if d[0] == '.' {
        0
    } else {
        1 + first_dot(d.drop_first())
    }
}

/// The bytes that a whole part and a fraction part stand for, `unit` bytes to
/// one, where they are well formed; a `.` is allowed only when `unit` exceeds 1.
pub open spec fn size_from_parts(whole: Seq<char>, frac: Seq<char>, unit: nat, dot: bool) -> Option<nat> {
    if all_digits(whole) && all_digits(frac) && whole.len() + frac.len() > 0 && (unit > 1 || !dot) {
        Some(digits_value(whole) * unit + (digits_value(frac) * unit) / pow10(frac.len()))
    } else {
        None
    }
}

/// The bytes that an unsigned magnitude stands for, `unit` bytes to one: the
/// digits before its first `.` are the whole part, those after it the fraction.
pub open spec fn magnitude_value(d: Seq<char>, unit: nat) -> Option<nat> {
    let p = first_dot(d);
    let whole = d.subrange(0, p as int);
    let frac = if p < d.len() {
        d.subrange(p as int + 1, d.len() as int)
    } else {
        Seq::empty()
    };
    size_from_parts(whole, frac, unit, p < d.len())
}

/// The number of bytes a size string stands for, where it is well formed: an
/// optional `+`, then decimal digits with, for KB, MB and GB, an optional
/// fractional part after a `.`, at least one digit in all, then a unit suffix.
/// A fractional size counts the whole bytes it holds (rounded down).
pub open spec fn size_in_bytes(s: Seq<char>) -> Option<nat> {
    match size_suffix(s) {
        Some((n, unit)) => magnitude_value(unsigned_part(s.subrange(0, s.len() - n)), unit),
        None => None,
    }
}

proof fn lemma_first_dot(d: Seq<char>, k: nat)
    requires
        k <= d.len(),
        forall|j: int| 0 <= j < k ==> d[j] != '.',
        k == d.len() || d[k as int] == '.',
    ensures
        first_dot(d) == k,
    decreases k,
{
    if k > 0 {
        lemma_first_dot(d.drop_first(), (k - 1) as nat);
    }
}

proof fn lemma_pow10_pos(n: nat)
    ensures
        pow10(n) > 0,
    decreases n,
{
    if n > 0 {
        lemma_pow10_pos((n - 1) as nat);
    }
}

/// The value of digits split after their first digit.
proof fn lemma_digits_front(d: Seq<char>)
    requires
        d.len() > 0,
    ensures
        digits_value(d) == digit_value(d[0]) * pow10((d.len() - 1) as nat) + digits_value(d.drop_first()),
    decreases d.len(),
{
    if d.len() > 1 {
        let dl = d.drop_last();
        let df = d.drop_first();
        lemma_digits_front(dl);
        assert(dl.drop_first() =~= df.drop_last());
        assert(dl[0] == d[0]);
        assert(df.last() == d.last());
        let a = digit_value(d[0]) as int;
        let p = pow10((d.len() - 2) as nat) as int;
        let b = digits_value(df.drop_last()) as int;
        let l = digit_value(d.last()) as int;
        assert(digits_value(d) == digits_value(dl) * 10 + l);
        assert(digits_value(df) == b * 10 + l);
        assert(digits_value(dl) == a * p + b);
        assert(pow10((d.len() - 1) as nat) == 10 * p);
        assert((a * p + b) * 10 + l == a * (10 * p) + (b * 10 + l)) by (nonlinear_arith);
        assert(digits_value(d) == a * pow10((d.len() - 1) as nat) + digits_value(df));
    } else {
        assert(d.drop_last().len() == 0);
        assert(d.drop_first().len() == 0);
        assert(digits_value(d.drop_last()) == 0);
        assert(digits_value(d.drop_first()) == 0);
        assert(pow10(0) == 1);
        assert(d.last() == d[0]);
        assert(digits_value(d) == digit_value(d[0]));
        assert(digit_value(d[0]) * pow10(0) == digit_value(d[0]));
    }
}

/// The share of a unit that fraction digits stand for, one digit in front at a time.
proof fn lemma_fraction_step(d: Seq<char>, unit: nat)
    requires
        d.len() > 0,
    ensures
        (digits_value(d) * unit) / pow10(d.len()) == (digit_value(d[0]) * unit + (digits_value(
            d.drop_first(),
        ) * unit) / pow10(d.drop_first().len())) / 10,
{
    lemma_digits_front(d);
    let c = pow10(d.drop_first().len()) as int;
    lemma_pow10_pos(d.drop_first().len());
    let a = (digit_value(d[0]) * unit) as int;
    let x = (digits_value(d.drop_first()) * unit) as int;
    assert(digits_value(d) * unit == a * c + x) by (nonlinear_arith)
        requires
            digits_value(d) == digit_value(d[0]) * c + digits_value(d.drop_first()),
            a == digit_value(d[0]) * unit,
            x == digits_value(d.drop_first()) * unit,
    ;
    assert(pow10(d.len()) == c * 10);
    vstd::arithmetic::div_mod::lemma_hoist_over_denominator(x, a, c as nat);
    assert(x / c + a == (x + a * c) / c);
    assert(a * c + x >= 0) by (nonlinear_arith)
        requires
            a >= 0,
            c > 0,
            x >= 0,
    ;
    vstd::arithmetic::div_mod::lemma_div_denominator(a * c + x, c, 10);
}

pub const SUFFIX_ERR: &'static str = "Number need a postfix -> GB, MB, KB or B";

pub const MAGNITUDE_ERR: &'static str = "Failed to parse numeric part";

pub(crate) fn ends_with_str(s: &str, n: usize, t: &str) -> (r: bool)
    requires
        n == s@.len(),
    ensures
        r == ends_with(s@, t@),
{
    let k = t.unicode_len();
    if n < k {
        return false;
    }
    let mut i: usize = 0;
    while i < k
        invariant
            k == t@.len(),
            n == s@.len(),
            k <= n,
            i <= k,
            forall|j: int| 0 <= j < i ==> s@[n - k + j] == t@[j],
        decreases k - i,
    {
        if s.get_char(n - k + i) != t.get_char(i) {
            assert(s@.subrange(n - k, n as int)[i as int] != t@[i as int]);
            return false;
        }
        i = i + 1;
    }
    assert(s@.subrange(n - k, n as int) =~= t@);
    true
}

/// The position of the first `.` in `s` between `start` and `end`, or `end`.
fn find_dot(s: &str, start: usize, end: usize) -> (p: usize)
    requires
        start <= end <= s@.len(),
    ensures
        start <= p <= end,
        p - start == first_dot(s@.subrange(start as int, end as int)),
{
    let mut p: usize = start;
    while p < end && s.get_char(p) != '.'
        invariant
            start <= p <= end,
            end <= s@.len(),
            forall|j: int| start <= j < p ==> s@[j] != '.',
        decreases end - p,
    {
        p = p + 1;
    }
    proof {
        lemma_first_dot(s@.subrange(start as int, end as int), (p - start) as nat);
    }
    p
}

/// The number that the characters between `from` and `to` stand for, if they
/// are all digits and it fits in a `usize`.
fn whole_part(s: &str, from: usize, to: usize) -> (r: Option<u128>)
    requires
        from <= to <= s@.len(),
    ensures
        r matches Some(v) ==> all_digits(s@.subrange(from as int, to as int)) && v == digits_value(
            s@.subrange(from as int, to as int),
        ) && v <= usize::MAX,
        r is None ==> !all_digits(s@.subrange(from as int, to as int)) || digits_value(
            s@.subrange(from as int, to as int),
        ) > usize::MAX,
{
    let mut acc: u128 = 0;
    let mut big = false;
    let mut i: usize = from;
    while i < to
        invariant
            from <= i <= to,
            to <= s@.len(),
            all_digits(s@.subrange(from as int, i as int)),
            !big ==> acc == digits_value(s@.subrange(from as int, i as int)) && acc <= usize::MAX,
            big ==> digits_value(s@.subrange(from as int, i as int)) > usize::MAX,
        decreases to - i,
    {
        let c = s.get_char(i);
        let ghost pre = s@.subrange(from as int, i as int);
        let ghost next = s@.subrange(from as int, i as int + 1);
        assert(next.drop_last() =~= pre);
        if !('0' <= c && c <= '9') {
            assert(s@.subrange(from as int, to as int)[i - from] == c);
            return None;
        }
        let dv: u128 = (c as u32 - '0' as u32) as u128;
        if !big {
            acc = acc * 10 + dv;
            if acc > usize::MAX as u128 {
                big = true;
            }
        }
        i = i + 1;
        assert(all_digits(next)) by {
            assert forall|j: int| 0 <= j < next.len() implies is_digit(#[trigger] next[j]) by {
                if j < pre.len() {
                    assert(next[j] == pre[j]);
                }
            }
        }
    }
    if big {
        None
    } else {
        Some(acc)
    }
}

/// The whole bytes that the fraction digits between `from` and `to` stand for,
/// with `unit` bytes to one, if they are all digits.
fn fraction_part(s: &str, from: usize, to: usize, unit: u128) -> (r: Option<u128>)
    requires
        from <= to <= s@.len(),
        0 < unit <= 1073741824,
    ensures
        r matches Some(q) ==> all_digits(s@.subrange(from as int, to as int)) && q == (digits_value(
            s@.subrange(from as int, to as int),
        ) * (unit as nat)) / pow10((to - from) as nat) && q < unit,
        r is None ==> !all_digits(s@.subrange(from as int, to as int)),
{
    let mut q: u128 = 0;
    let mut i: usize = to;
    proof {
        assert(s@.subrange(to as int, to as int) =~= Seq::<char>::empty());
        assert(digits_value(s@.subrange(to as int, to as int)) == 0);
        assert(pow10(0) == 1);
        assert(all_digits(s@.subrange(to as int, to as int)));
    }
    while i > from
        invariant
            from <= i <= to,
            to <= s@.len(),
            0 < unit <= 1073741824,
            all_digits(s@.subrange(i as int, to as int)),
            q == (digits_value(s@.subrange(i as int, to as int)) * (unit as nat)) / pow10((to - i) as nat),
            q < unit,
        decreases i,
    {
        let c = s.get_char(i - 1);
        let ghost tail = s@.subrange(i as int, to as int);
        let ghost d = s@.subrange(i - 1, to as int);
        assert(d.drop_first() =~= tail);
        assert(d[0] == c);
        if !('0' <= c && c <= '9') {
            assert(s@.subrange(from as int, to as int)[i - 1 - from] == c);
            return None;
        }
        let dv: u128 = (c as u32 - '0' as u32) as u128;
        assert(dv <= 9);
        assert(dv == digit_value(c));
        proof {
            lemma_fraction_step(d, unit as nat);
        }
        assert(unit * dv + q < 10 * unit) by (nonlinear_arith)
            requires
                dv <= 9,
                q < unit,
        ;
        assert(unit * dv <= 9 * 1073741824) by (nonlinear_arith)
            requires
                dv <= 9,
                unit <= 1073741824,
        ;
        let ghost q_old = q;
        q = (unit * dv + q) / 10;
        proof {
            assert((unit * dv) as int == digit_value(d[0]) * (unit as nat)) by (nonlinear_arith)
                requires
                    dv == digit_value(d[0]),
            ;
            assert(tail.len() == to - i);
            assert(d.len() == to - i + 1);
            assert(q == (digit_value(d[0]) * (unit as nat) + (digits_value(tail) * (unit as nat)) / pow10(
                tail.len(),
            )) / 10);
        }
        i = i - 1;
        assert(all_digits(d)) by {
            assert forall|j: int| 0 <= j < d.len() implies is_digit(#[trigger] d[j]) by {
                if j > 0 {
                    assert(d[j] == tail[j - 1]);
                }
            }
        }
    }
    Some(q)
}

/// The bytes that the magnitude between `start` and `end` stands for, `unit`
/// bytes to one, if it is well formed and the count fits in a `usize`.
fn magnitude_bytes(s: &str, start: usize, end: usize, unit: u128) -> (r: Option<usize>)
    requires
        start <= end <= s@.len(),
        0 < unit <= 1073741824,
    ensures
        match magnitude_value(s@.subrange(start as int, end as int), unit as nat) {
            Some(v) => if v <= usize::MAX {
                r == Some(v as usize)
            } else {
                r is None
            },
            None => r is None,
        },
{
    let ghost d = s@.subrange(start as int, end as int);
    let p = find_dot(s, start, end);
    let frac_from: usize = if p < end { p + 1 } else { end };
    let ghost whole_s = s@.subrange(start as int, p as int);
    let ghost frac_s = s@.subrange(frac_from as int, end as int);
    proof {
        assert(d.subrange(0, (p - start) as int) =~= whole_s);
        if p < end {
            assert(d.subrange(p - start + 1, d.len() as int) =~= frac_s);
        } else {
            assert(frac_s =~= Seq::<char>::empty());
        }
        assert(magnitude_value(d, unit as nat) == size_from_parts(whole_s, frac_s, unit as nat, p < end));
    }
    if unit == 1 && p < end {
        return None;
    }
    if p == start && end - frac_from == 0 {
        return None;
    }
    let whole = match whole_part(s, start, p) {
        Some(v) => v,
        None => {
            proof {
                if all_digits(whole_s) {
                    assert(digits_value(whole_s) * (unit as nat) >= digits_value(whole_s)) by (nonlinear_arith)
                        requires
                            unit >= 1,
                    ;
                    lemma_pow10_pos(frac_s.len());
                    let share = (digits_value(frac_s) * (unit as nat)) / pow10(frac_s.len());
                    assert(share >= 0);
                    assert(size_from_parts(whole_s, frac_s, unit as nat, p < end) matches Some(v) ==> v
                        > usize::MAX);
                }
            }
            return None;
        },
    };
    let q = match fraction_part(s, frac_from, end, unit) {
        Some(q) => q,
        None => {
            return None;
        },
    };
    assert(whole * unit <= 0xffff_ffff_ffff_ffff_ffff_ffff_ffff) by (nonlinear_arith)
        requires
            whole <= 0xffff_ffff_ffff_ffff,
            unit <= 1073741824,
    ;
    let total: u128 = whole * unit + q;
    if total > usize::MAX as u128 {
        return None;
    }
    Some(total as usize)
}

/// Converts a size with a unit suffix (GB, MB, KB or B) into a number of bytes.
/// Fails when no suffix is recognized, when the magnitude is not a decimal
/// number (an integer for B), or when the byte count does not fit in a `usize`.
pub fn string_to_bytesize(string: String) -> (r: Result<usize, &'static str>)
    ensures
        size_suffix(string@) is None ==> r == Err::<usize, &'static str>(SUFFIX_ERR),
        size_suffix(string@) is Some ==> match size_in_bytes(string@) {
            Some(n) => if n <= usize::MAX {
                r == Ok::<usize, &'static str>(n as usize)
            } else {
                r == Err::<usize, &'static str>(MAGNITUDE_ERR)
            },
            None => r == Err::<usize, &'static str>(MAGNITUDE_ERR),
        },
{
    let s = string.as_str();
    let n = s.unicode_len();
    proof {
        reveal_strlit("GB");
        reveal_strlit("MB");
        reveal_strlit("KB");
        reveal_strlit("B");
        assert("GB"@ =~= seq!['G', 'B']);
        assert("MB"@ =~= seq!['M', 'B']);
        assert("KB"@ =~= seq!['K', 'B']);
        assert("B"@ =~= seq!['B']);
    }
    let (suffix, unit): (usize, u128) = if ends_with_str(s, n, "GB") {
        (2, 1073741824)
    } else if ends_with_str(s, n, "MB") {
        (2, 1048576)
    } else if ends_with_str(s, n, "KB") {
        (2, 1024)
    } else if ends_with_str(s, n, "B") {
        (1, 1)
    } else {
        return Err(SUFFIX_ERR);
    };
    assert(size_suffix(string@) == Some((suffix as nat, unit as nat)));
    let end = n - suffix;
    let ghost m = s@.subrange(0, end as int);
    let mut start: usize = 0;
    if end > 0 && s.get_char(0) == '+' {
        start = 1;
    }
    let ghost d = unsigned_part(m);
    assert(d =~= s@.subrange(start as int, end as int));
    match magnitude_bytes(s, start, end, unit) {
        Some(v) => Ok(v),
        None => Err(MAGNITUDE_ERR),
    }
}

} // verus!

verus! {

proof fn lemma_digit_char(m: nat)
    requires
        m < 10,
    ensures
        is_digit(crate::text::digit_char(m)),
        digit_value(crate::text::digit_char(m)) == m,
{
    assert('0' as int == 48 && '1' as int == 49 && '2' as int == 50 && '3' as int == 51 && '4' as int
        == 52 && '5' as int == 53 && '6' as int == 54 && '7' as int == 55 && '8' as int == 56 && '9' as int
        == 57);
}

proof fn lemma_digits_of_decimal(n: nat)
    ensures
        all_digits(crate::text::nat_digits(n)),
        digits_value(crate::text::nat_digits(n)) == n,
        crate::text::nat_digits(n).len() > 0,
        forall|i: int| 0 <= i < crate::text::nat_digits(n).len() ==> #[trigger] crate::text::nat_digits(n)[i] != '.'
            && crate::text::nat_digits(n)[i] != '+' && crate::text::nat_digits(n)[i] != 'G'
            && crate::text::nat_digits(n)[i] != 'M' && crate::text::nat_digits(n)[i] != 'K',
    decreases n,
{
    let d = crate::text::nat_digits(n);
    lemma_digit_char(n % 10);
    if n >= 10 {
        lemma_digits_of_decimal(n / 10);
        let p = crate::text::nat_digits(n / 10);
        assert(d == p.push(crate::text::digit_char(n % 10)));
        assert(d.drop_last() =~= p);
        assert(d.last() == crate::text::digit_char(n % 10));
        assert(digits_value(d) == digits_value(p) * 10 + digit_value(d.last()));
        assert(digits_value(d) == n);
        assert(all_digits(d)) by {
            assert forall|i: int| 0 <= i < d.len() implies is_digit(#[trigger] d[i]) by {
                if i < p.len() {
                    assert(d[i] == p[i]);
                }
            }
        }
        assert forall|i: int| 0 <= i < d.len() implies #[trigger] d[i] != '.' && d[i] != '+' && d[i]
            != 'G' && d[i] != 'M' && d[i] != 'K' by {
            if i < p.len() {
                assert(d[i] == p[i]);
            }
        }
    } else {
        assert(d.drop_last() =~= Seq::<char>::empty());
        assert(n % 10 == n);
        assert(d.last() == crate::text::digit_char(n));
        assert(digits_value(d) == digits_value(d.drop_last()) * 10 + digit_value(d.last()));
        assert(digits_value(d) == n);
    }
}

/// A whole number of units written in decimal, followed by `B`, `KB`, `MB` or
/// `GB`, stands for exactly that number times 1, 1024, 1048576 or 1073741824
/// bytes.
pub proof fn lemma_decimal_size(n: nat, suffix: Seq<char>, unit: nat)
    requires
        (suffix == seq!['B'] && unit == 1) || (suffix == seq!['K', 'B'] && unit == 1024) || (suffix
            == seq!['M', 'B'] && unit == 1048576) || (suffix == seq!['G', 'B'] && unit == 1073741824),
    ensures
        size_in_bytes(crate::text::nat_digits(n) + suffix) == Some(n * unit),
{
    let d = crate::text::nat_digits(n);
    let s = d + suffix;
    lemma_digits_of_decimal(n);
    let k = suffix.len();
    assert(s.subrange(0, s.len() - k) =~= d);
    assert(s.subrange(s.len() - k, s.len() as int) =~= suffix);
    if k == 1 {
        let two = s.subrange(s.len() - 2, s.len() as int);
        assert(two[0] == d[d.len() - 1]);
        assert(!ends_with(s, seq!['G', 'B']));
        assert(!ends_with(s, seq!['M', 'B']));
        assert(!ends_with(s, seq!['K', 'B']));
    }
    assert(size_suffix(s) == Some((k as nat, unit)));
    assert(unsigned_part(d) == d);
    lemma_first_dot(d, d.len());
    assert(d.subrange(0, d.len() as int) =~= d);
    assert(digits_value(Seq::<char>::empty()) == 0);
    assert(pow10(0) == 1);
    assert(magnitude_value(d, unit) == Some(n * unit));
}

} // verus!
