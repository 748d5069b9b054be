//! Numbers as they are written: what a formatted number, or a literal, is read as.

use vstd::arithmetic::power::pow;
use vstd::prelude::*;

use crate::number;
use crate::number::Dec;
use crate::strings;
use crate::text;

verus! {

/// A fraction with an exponent, written out: `0.25e-3`.
pub open spec fn fraction_literal(negative: bool, digits: Seq<char>, exponent: int) -> Seq<char> {
    (if negative {
        seq!['-']
    } else {
        Seq::empty()
    }) + (seq!['0', '.'] + digits + seq!['e'] + text::decimal_int(exponent))
}

/// The digits of a number are digits, and stand for it.
pub proof fn decimal_reads_back(n: nat)
    ensures
        number::all_digits(text::decimal(n)),
        number::digits_value(text::decimal(n)) == n,
        text::decimal(n).len() > 0,
        text::decimal(n)[0] == '0' ==> n == 0,
    decreases n,
{
    let d = text::decimal(n);
    if n < 10 {
        assert(d.drop_last() =~= Seq::<char>::empty());
        assert(number::digits_value(d.drop_last()) == 0);
    } else {
        decimal_reads_back(n / 10);
        assert(d.drop_last() =~= text::decimal(n / 10));
    }
}

pub proof fn integer_reads_back(n: int)
    ensures
        number::signed_digits(text::decimal_int(n)) == Some(n),
{
    if n < 0 {
        decimal_reads_back((-n) as nat);
        let s = text::decimal_int(n);
        assert(s.skip(1) =~= text::decimal((-n) as nat));
    } else {
        decimal_reads_back(n as nat);
        assert(text::is_digit(text::decimal(n as nat)[0]));
    }
}

/// Zeros in front of digits do not count.
pub proof fn zeros_do_not_count(n: nat, s: Seq<char>)
    ensures
        number::digits_value(Seq::new(n, |i: int| '0') + s) == number::digits_value(s),
        number::all_digits(s) ==> number::all_digits(Seq::new(n, |i: int| '0') + s),
    decreases n, s.len(),
{
    let z = Seq::new(n, |i: int| '0');
    if s.len() > 0 {
        assert((z + s).drop_last() =~= z + s.drop_last());
        zeros_do_not_count(n, s.drop_last());
    } else if n > 0 {
        let less = Seq::new((n - 1) as nat, |i: int| '0');
        assert((z + s).drop_last() =~= less + s);
        zeros_do_not_count((n - 1) as nat, s);
    }
}

/// Digits and points hold no exponent's letter.
pub proof fn no_letter(s: Seq<char>, i: int)
    requires
        forall|k: int| 0 <= k < s.len() ==> text::is_digit(#[trigger] s[k]) || s[k] == '.',
    ensures
        number::letter_from(s, i) is None,
    decreases s.len() - i,
{
    if 0 <= i < s.len() {
        no_letter(s, i + 1);
    }
}

/// The first letter is found behind digits and points.
pub proof fn letter_behind(s: Seq<char>, i: int, at: int)
    requires
        0 <= i <= at < s.len(),
        s[at] == 'e',
        forall|k: int| 0 <= k < at ==> text::is_digit(#[trigger] s[k]) || s[k] == '.',
    ensures
        number::letter_from(s, i) == Some(at),
    decreases at - i,
{
    if i < at {
        assert(text::is_digit(s[i]) || s[i] == '.');
        letter_behind(s, i + 1, at);
    }
}

pub proof fn no_point(s: Seq<char>, i: int)
    requires
        number::all_digits(s),
    ensures
        strings::index_from(s, '.', i) is None,
    decreases s.len() - i,
{
    if 0 <= i < s.len() {
        no_point(s, i + 1);
    }
}

/// The point behind digits is found there.
pub proof fn point_behind(s: Seq<char>, i: int, at: int)
    requires
        0 <= i <= at < s.len(),
        s[at] == '.',
        number::all_digits(s.take(at)),
    ensures
        strings::index_from(s, '.', i) == Some(at),
    decreases at - i,
{
    if i < at {
        assert(text::is_digit(s.take(at)[i]));
        point_behind(s, i + 1, at);
    }
}

/// Digits alone are a literal.
proof fn digits_are_a_literal(s: Seq<char>)
    requires
        s.len() > 0,
        number::all_digits(s),
    ensures
        number::unsigned_literal(s) == Some((number::digits_value(s) as int, 0int)),
        number::literal(s) == number::unsigned_literal(s),
        number::literal(seq!['-'] + s) == Some((-(number::digits_value(s) as int), 0int)),
{
    reveal(number::literal);
    no_letter(s, 0);
    no_point(s, 0);
    assert(text::is_digit(s[0]));
    assert((seq!['-'] + s).skip(1) =~= s);
}

/// Digits with a point among them are a literal.
proof fn pointed_digits_are_a_literal(lead: Seq<char>, trail: Seq<char>)
    requires
        number::all_digits(lead),
        number::all_digits(trail),
        trail.len() > 0,
    ensures
        ({
            let s = lead + seq!['.'] + trail;
            let due = (number::digits_value(lead + trail) as int, trail.len() as int);
            &&& number::unsigned_literal(s) == Some(due)
            &&& number::literal(s) == Some(due)
            &&& number::literal(seq!['-'] + s) == Some((-due.0, due.1))
        }),
{
    reveal(number::literal);
    let s = lead + seq!['.'] + trail;
    assert forall|k: int| 0 <= k < s.len() implies text::is_digit(#[trigger] s[k]) || s[k] == '.' by {
        if k < lead.len() {
            assert(s[k] == lead[k]);
        } else if k > lead.len() {
            assert(s[k] == trail[k - lead.len() - 1]);
        }
    }
    no_letter(s, 0);
    assert(s.take(lead.len() as int) =~= lead);
    point_behind(s, 0, lead.len() as int);
    assert(s.skip(lead.len() as int + 1) =~= trail);
    assert(number::all_digits(lead + trail)) by {
        assert forall|k: int| 0 <= k < (lead + trail).len() implies text::is_digit(
            #[trigger] (lead + trail)[k],
        ) by {
            if k < lead.len() {
                assert((lead + trail)[k] == lead[k]);
            } else {
                assert((lead + trail)[k] == trail[k - lead.len()]);
            }
        }
    }
    assert(s[0] != '-') by {
        assert(text::is_digit(s[0]) || s[0] == '.');
    }
    assert((seq!['-'] + s).skip(1) =~= s);
}

/// A fraction with an exponent is a literal.
pub proof fn fractions_are_literals(negative: bool, digits: Seq<char>, exponent: int)
    requires
        number::all_digits(digits),
    ensures
        number::literal(fraction_literal(negative, digits, exponent)) == Some(
            (
                if negative {
                    -(number::digits_value(digits) as int)
                } else {
                    number::digits_value(digits) as int
                },
                digits.len() - exponent,
            ),
        ),
{
    reveal(number::literal);
    let head = seq!['0', '.'] + digits;
    let s = head + seq!['e'] + text::decimal_int(exponent);
    let at = head.len() as int;
    assert(seq!['0', '.'] + digits + seq!['e'] + text::decimal_int(exponent) == s);
    assert forall|k: int| 0 <= k < at implies text::is_digit(#[trigger] s[k]) || s[k] == '.' by {
        if k >= 2 {
            assert(s[k] == digits[k - 2]);
        }
    }
    letter_behind(s, 0, at);
    assert(s.take(at) =~= head);
    assert(s.skip(at + 1) =~= text::decimal_int(exponent));
    integer_reads_back(exponent);
    assert(head.take(1) =~= seq!['0']);
    assert(number::all_digits(seq!['0']));
    point_behind(head, 0, 1);
    assert(head.skip(2) =~= digits);
    zeros_do_not_count(1, digits);
    assert(Seq::new(1, |i: int| '0') =~= seq!['0']);
    assert(fraction_literal(false, digits, exponent) =~= s);
    assert(fraction_literal(true, digits, exponent) =~= seq!['-'] + s);
    assert((seq!['-'] + s).skip(1) =~= s);
}

/// Lowest terms do not change when a number is written with more zeros.
pub proof fn lowest_with_zeros(i: int, s: int, n: nat)
    ensures
        number::lowest(i * pow(10, n), s + n) == number::lowest(i, s),
    decreases n,
{
    reveal(pow);
    if n > 0 {
        lowest_with_zeros(i, s, (n - 1) as nat);
        let j = i * pow(10, (n - 1) as nat);
        assert(i * pow(10, n) == 10 * j) by (nonlinear_arith)
            requires
                pow(10, n) == 10 * pow(10, (n - 1) as nat),
                j == i * pow(10, (n - 1) as nat),
        ;
        if j != 0 {
            assert((10 * j) % 10 == 0 && (10 * j) / 10 == j);
        } else {
            assert(number::lowest(10 * j, s + n) == number::lowest(j, s + n - 1));
        }
    } else {
        assert(i * pow(10, 0) == i);
    }
}

/// The text of a number without a sign and with digits behind the point.
#[verifier::spinoff_prover]
#[verifier::rlimit(60)]
proof fn pointed_text(i: nat, scale: int)
    requires
        scale > 0,
        i % 10 != 0,
    ensures
        ({
            let t = number::without_zero(number::plain(i as int, scale));
            let u = number::without_zero(number::plain(-(i as int), scale));
            &&& number::literal(t) == Some((i as int, scale))
            &&& number::literal(u) == Some((-(i as int), scale))
            &&& u == seq!['-'] + t
            &&& t.len() >= 2
            &&& t.last() != '0' && t.last() != '.'
            &&& !(t[0] == '0' && t[1] == '.')
            &&& forall|k: int|
                0 <= k < t.len() ==> text::is_digit(#[trigger] t[k]) || t[k] == '.'
        }),
{
    let digits = text::decimal(i);
    decimal_reads_back(i);
    let all = text::zero_filled(digits, (scale + 1) as nat);
    if digits.len() < scale + 1 {
        zeros_do_not_count((scale + 1 - digits.len()) as nat, digits);
    }
    assert(number::all_digits(all) && number::digits_value(all) == i);
    let point = all.len() - scale;
    let trail = all.skip(point);
    let whole = all.take(point);
    assert(number::all_digits(trail)) by {
        assert forall|k: int| 0 <= k < trail.len() implies text::is_digit(#[trigger] trail[k]) by {
            assert(trail[k] == all[point + k]);
        }
    }
    assert(number::all_digits(whole)) by {
        assert forall|k: int| 0 <= k < whole.len() implies text::is_digit(#[trigger] whole[k]) by {
            assert(whole[k] == all[k]);
        }
    }
    let p = whole + seq!['.'] + trail;
    assert(number::plain(i as int, scale) =~= p);
    assert(i > 0);
    assert(number::plain(-(i as int), scale) =~= seq!['-'] + p);
    let lead = if whole == seq!['0'] {
        Seq::<char>::empty()
    } else {
        whole
    };
    let t = lead + seq!['.'] + trail;
    assert(whole.len() > 0);
    assert(p[0] == whole[0] && text::is_digit(whole[0]));
    if whole == seq!['0'] {
        assert(p[0] == '0' && p[1] == '.');
        assert(number::without_zero(p) =~= t);
        assert((seq!['-'] + p).skip(2) =~= t);
        assert(number::without_zero(seq!['-'] + p) =~= seq!['-'] + t);
        assert(seq!['0'] + trail =~= all);
        zeros_do_not_count(1, trail);
        assert(Seq::new(1, |k: int| '0') =~= seq!['0']);
        assert(lead + trail =~= trail);
    } else {
        if whole.len() == 1 {
            assert(whole =~= seq![whole[0]]);
            assert(whole[0] != '0');
        } else {
            assert(p[1] == whole[1] && text::is_digit(whole[1]));
        }
        let q = seq!['-'] + p;
        assert(q[1] == p[0] && q[2] == p[1]);
        assert(whole + trail =~= all);
    }
    pointed_digits_are_a_literal(lead, trail);
    assert(t.last() == trail.last() && trail.last() == all.last());
    assert(all.last() == digits.last());
    assert(digits.last() == text::digit_char((i % 10) as int));
    assert forall|k: int| 0 <= k < t.len() implies text::is_digit(#[trigger] t[k]) || t[k] == '.' by {
        if k < lead.len() {
            assert(t[k] == lead[k]);
        } else if k > lead.len() {
            assert(t[k] == trail[k - lead.len() - 1]);
        }
    }
    assert(!(t[0] == '0' && t[1] == '.')) by {
        if lead.len() == 1 {
            assert(lead =~= seq![lead[0]]);
        } else if lead.len() > 1 {
            assert(t[1] == lead[1] && text::is_digit(lead[1]));
        }
    }
}

/// Whether a text is as Oracle writes numbers: no exponent, no zeros at the end of a
/// fraction, and no zero in front of the point.
pub open spec fn is_tidy(s: Seq<char>) -> bool {
    &&& forall|k: int| 0 <= k < s.len() ==> #[trigger] s[k] != 'e' && s[k] != 'E'
    &&& s.contains('.') ==> s.last() != '0' && s.last() != '.'
    &&& !(s.len() >= 2 && s[0] == '0' && s[1] == '.')
    &&& !(s.len() >= 3 && s[0] == '-' && s[1] == '0' && s[2] == '.')
}

/// A formatted number reads back as that number, and is tidy.
pub proof fn a_formatted_number_reads_back(n: Dec)
    requires
        number::is_lowest(n),
        number::in_range(n),
    ensures
        number::number_of(number::number_text(n)) == Some(n),
        is_tidy(number::number_text(n)),
{
    let t = number::number_text(n);
    if n.scale > 0 {
        let i = number::abs(n.int_val) as nat;
        assert(number::at_scale(n, n.scale) == n.int_val) by {
            reveal(pow);
            assert(n.int_val * pow(10, 0) == n.int_val);
        }
        assert(n.int_val != 0);
        assert(n.int_val % 10 != 0) by {
            if n.int_val % 10 == 0 {
                number::lowest_not_above(n.int_val / 10, n.scale - 1);
            }
        }
        assert(i % 10 != 0);
        pointed_text(i, n.scale);
        if n.int_val < 0 {
            let u = number::without_zero(number::plain(i as int, n.scale));
            assert(t == seq!['-'] + u);
            assert(t.last() == u.last());
            assert forall|k: int| 0 <= k < t.len() implies #[trigger] t[k] != 'e' && t[k] != 'E' by {
                if k > 0 {
                    assert(t[k] == u[k - 1]);
                }
            }
            assert(t[1] == u[0] && t[2] == u[1]);
        }
    } else {
        let v = number::at_scale(n, 0);
        let i = number::abs(v) as nat;
        decimal_reads_back(i);
        let d = text::decimal(i);
        assert(number::zeros(0) =~= Seq::<char>::empty());
        digits_are_a_literal(d);
        let p = number::plain(v, 0);
        if v < 0 {
            assert(p =~= seq!['-'] + d);
            assert(text::is_digit(p[1]) && p[1] == d[0]);
            if p.len() >= 3 {
                assert(p[2] == d[1] && text::is_digit(d[1]));
            }
        } else {
            assert(p =~= d);
            if p.len() >= 2 {
                assert(text::is_digit(d[1]));
            }
        }
        assert(t == p);
        lowest_with_zeros(n.int_val, n.scale, (-n.scale) as nat);
        assert(number::lowest(v, 0) == n);
        assert forall|k: int| 0 <= k < t.len() implies #[trigger] t[k] != 'e' && t[k] != 'E' && t[k]
            != '.' by {
            if v < 0 {
                if k > 0 {
                    assert(t[k] == d[k - 1]);
                }
            } else {
                assert(t[k] == d[k]);
            }
        }
    }
}

} // verus!
