//! The order of versions: by their dotted parts, as numbers where these begin
//! with one.

use crate::text::{
    all_digits, chars_of, digits_value, lemma_less_strict, lemma_less_total, lemma_less_trans,
    less, pieces, split_at_char, text_between, text_less, texts,
};
use vstd::prelude::*;

verus! {

broadcast use vstd::string::group_string_axioms;

// ---------------------------------------------------------------------------
// Numbers
// ---------------------------------------------------------------------------

/// The powers of ten.
spec fn pow10(n: nat) -> nat
    decreases n,
{
    if n == 0 {
        1
    } else {
        10 * pow10((n - 1) as nat)
    }
}

/// The number of a digit.
spec fn digit_of(c: char) -> int {
    c as int - '0' as int
}

/// A number by its first digit.
proof fn lemma_value_by_first(s: Seq<char>)
    requires
        s.len() > 0,
        all_digits(s),
    ensures
        digits_value(s) == digit_of(s[0]) * pow10((s.len() - 1) as nat) + digits_value(
            s.drop_first(),
        ),
    decreases s.len(),
{
    if s.len() == 1 {
        assert(s.drop_last() =~= Seq::<char>::empty());
        assert(s.drop_first() =~= Seq::<char>::empty());
        assert(digits_value(s.drop_last()) == 0);
        assert(s.last() == s[0] && '0' <= s[0]);
        assert(digit_of(s[0]) * 1 == digit_of(s[0]));
        assert(pow10((s.len() - 1) as nat) == 1);
    } else {
        let t = s.drop_last();
        lemma_value_by_first(t);
        assert(t.drop_first() =~= s.drop_first().drop_last());
        assert(s.drop_first().last() == s.last());
        let d = digit_of(s[0]);
        let p = pow10((t.len() - 1) as nat);
        assert(pow10((s.len() - 1) as nat) == 10 * p);
        assert(t[0] == s[0]);
        assert('0' <= s.last());
        assert(10 * (d * p) == d * (10 * p)) by (nonlinear_arith);
    }
}

/// A number is below the power of ten of its length.
proof fn lemma_value_bound(s: Seq<char>)
    requires
        all_digits(s),
    ensures
        digits_value(s) < pow10(s.len()),
    decreases s.len(),
{
    if s.len() > 0 {
        lemma_value_bound(s.drop_last());
    }
}

/// The powers of ten grow.
proof fn lemma_pow10_grows(m: nat, n: nat)
    requires
        m <= n,
    ensures
        0 < pow10(m) <= pow10(n),
    decreases n,
{
    if m < n {
        lemma_pow10_grows(m, (n - 1) as nat);
    } else if m > 0 {
        lemma_pow10_grows((m - 1) as nat, (m - 1) as nat);
    }
}

/// Of two numbers without leading zeros the longer is the greater.
proof fn lemma_longer_is_greater(a: Seq<char>, b: Seq<char>)
    requires
        all_digits(a),
        all_digits(b),
        a.len() < b.len(),
        b[0] != '0',
    ensures
        digits_value(a) < digits_value(b),
{
    lemma_value_bound(a);
    lemma_value_by_first(b);
    lemma_pow10_grows(a.len(), (b.len() - 1) as nat);
    let p = pow10((b.len() - 1) as nat);
    assert(digit_of(b[0]) * p >= p) by (nonlinear_arith)
        requires
            digit_of(b[0]) >= 1,
            p > 0,
    ;
}

/// Of two equally long numbers the first digits decide, if they differ, and else
/// the digits behind them.
proof fn lemma_first_digit_decides(a: Seq<char>, b: Seq<char>)
    requires
        all_digits(a),
        all_digits(b),
        a.len() == b.len(),
        a.len() > 0,
    ensures
        a[0] == b[0] ==> (digits_value(a) < digits_value(b)) == (digits_value(a.drop_first())
            < digits_value(b.drop_first())),
        a[0] != b[0] ==> (digits_value(a) < digits_value(b)) == ((a[0] as int) < (b[0] as int)),
{
    lemma_value_by_first(a);
    lemma_value_by_first(b);
    lemma_value_bound(a.drop_first());
    lemma_value_bound(b.drop_first());
    let p = pow10((a.len() - 1) as nat);
    let x = digit_of(a[0]);
    let y = digit_of(b[0]);
    if x < y {
        assert(x * p + p <= y * p) by (nonlinear_arith)
            requires
                x < y,
                p >= 0,
        ;
    } else if y < x {
        assert(y * p + p <= x * p) by (nonlinear_arith)
            requires
                y < x,
                p >= 0,
        ;
    }
}

/// The first place that does not hold a zero.
fn behind_zeros(s: &Vec<char>) -> (r: usize)
    requires
        all_digits(s@),
    ensures
        r <= s@.len(),
        r < s@.len() ==> s@[r as int] != '0',
        digits_value(s@) == digits_value(s@.subrange(r as int, s@.len() as int)),
{
    let mut i: usize = 0;
    assert(s@.subrange(0, s@.len() as int) =~= s@);
    while i < s.len() && s[i] == '0'
        invariant
            i <= s@.len(),
            all_digits(s@),
            digits_value(s@) == digits_value(s@.subrange(i as int, s@.len() as int)),
        decreases s@.len() - i,
    {
        proof {
            let t = s@.subrange(i as int, s@.len() as int);
            lemma_value_by_first(t);
            assert(t.drop_first() =~= s@.subrange(i + 1, s@.len() as int));
            assert(0 * pow10((t.len() - 1) as nat) == 0);
        }
        i = i + 1;
    }
    i
}

/// Whether one number is smaller than another.
fn digits_less(a: &Vec<char>, b: &Vec<char>) -> (r: bool)
    requires
        all_digits(a@),
        all_digits(b@),
    ensures
        r == (digits_value(a@) < digits_value(b@)),
{
    let mut i: usize = behind_zeros(a);
    let mut j: usize = behind_zeros(b);
    let ghost x = a@.subrange(i as int, a@.len() as int);
    let ghost y = b@.subrange(j as int, b@.len() as int);
    if a.len() - i != b.len() - j {
        proof {
            if x.len() < y.len() {
                lemma_longer_is_greater(x, y);
            } else {
                lemma_longer_is_greater(y, x);
            }
        }
        return a.len() - i < b.len() - j;
    }
    while i < a.len()
        invariant
            i <= a@.len(),
            j <= b@.len(),
            a.len() - i == b.len() - j,
            all_digits(a@),
            all_digits(b@),
            (digits_value(a@) < digits_value(b@)) == (digits_value(
                a@.subrange(i as int, a@.len() as int),
            ) < digits_value(b@.subrange(j as int, b@.len() as int))),
        decreases a@.len() - i,
    {
        proof {
            let x = a@.subrange(i as int, a@.len() as int);
            let y = b@.subrange(j as int, b@.len() as int);
            lemma_first_digit_decides(x, y);
            assert(x.drop_first() =~= a@.subrange(i + 1, a@.len() as int));
            assert(y.drop_first() =~= b@.subrange(j + 1, b@.len() as int));
        }
        if a[i] != b[j] {
            return (a[i] as u32) < (b[j] as u32);
        }
        assert(j < b@.len());
        i = i + 1;
        j = j + 1;
    }
    assert(a@.subrange(i as int, a@.len() as int) =~= b@.subrange(j as int, b@.len() as int));
    false
}

// ---------------------------------------------------------------------------
// Parts
// ---------------------------------------------------------------------------

/// How many digits a part begins with.
pub open spec fn lead(s: Seq<char>) -> nat
    decreases s.len(),
{
    if s.len() > 0 && '0' <= s[0] && s[0] <= '9' {
        1 + lead(s.drop_first())
    } else {
        0
    }
}

/// The number that a part begins with.
pub open spec fn lead_value(s: Seq<char>) -> nat {
    digits_value(s.subrange(0, lead(s) as int))
}

/// What follows the number that a part begins with.
pub open spec fn behind_lead(s: Seq<char>) -> Seq<char> {
    s.subrange(lead(s) as int, s.len() as int)
}

/// One part of a version stands before another: by the numbers that they begin
/// with, then by what follows these; as text where one begins with no number, or
/// where that leaves them alike.
pub open spec fn part_less(a: Seq<char>, b: Seq<char>) -> bool {
    if lead(a) > 0 && lead(b) > 0 && lead_value(a) != lead_value(b) {
        lead_value(a) < lead_value(b)
    } else if lead(a) > 0 && lead(b) > 0 && behind_lead(a) != behind_lead(b) {
        less(behind_lead(a), behind_lead(b))
    } else {
        less(a, b)
    }
}

/// The digits that a part begins with are all of them.
pub proof fn lemma_lead_fits(s: Seq<char>)
    ensures
        lead(s) <= s.len(),
        all_digits(s.subrange(0, lead(s) as int)),
        lead(s) < s.len() ==> !('0' <= s[lead(s) as int] && s[lead(s) as int] <= '9'),
    decreases s.len(),
{
    if s.len() > 0 && '0' <= s[0] && s[0] <= '9' {
        let t = s.drop_first();
        lemma_lead_fits(t);
        assert forall|i: int| 0 <= i < lead(s) implies '0' <= #[trigger] s.subrange(
            0,
            lead(s) as int,
        )[i] <= '9' by {
            if i > 0 {
                assert(t.subrange(0, lead(t) as int)[i - 1] == s[i]);
            }
        }
    }
}

proof fn lemma_part_total(a: Seq<char>, b: Seq<char>)
    ensures
        a == b || part_less(a, b) || part_less(b, a),
        !part_less(a, a),
        part_less(a, b) ==> !part_less(b, a),
{
    lemma_less_total(a, b);
    lemma_less_total(behind_lead(a), behind_lead(b));
    lemma_less_strict(a, a);
    lemma_less_strict(a, b);
    lemma_less_strict(behind_lead(a), behind_lead(b));
}

proof fn lemma_part_trans(a: Seq<char>, b: Seq<char>, c: Seq<char>)
    requires
        part_less(a, b),
        part_less(b, c),
    ensures
        part_less(a, c),
{
    if lead(a) > 0 && lead(b) > 0 && lead(c) > 0 {
        if behind_lead(a) != behind_lead(b) && behind_lead(b) != behind_lead(c) && lead_value(a)
            == lead_value(b) && lead_value(b) == lead_value(c) {
            lemma_less_trans(behind_lead(a), behind_lead(b), behind_lead(c));
            lemma_less_strict(behind_lead(a), behind_lead(c));
        } else if behind_lead(a) == behind_lead(b) && behind_lead(b) == behind_lead(c)
            && lead_value(a) == lead_value(b) && lead_value(b) == lead_value(c) {
            lemma_less_trans(a, b, c);
        }
    } else {
        lemma_part_trans_as_text(a, b, c);
    }
}

/// Characters stand in the order of their code points.
proof fn lemma_char_order(c: char, d: char)
    ensures
        (c as u32 <= d as u32) == (c <= d),
{
}

/// A part that begins with no number begins before all digits or behind them.
proof fn lemma_no_lead(s: Seq<char>)
    requires
        lead(s) == 0,
        s.len() > 0,
    ensures
        (s[0] as u32) < ('0' as u32) || (s[0] as u32) > ('9' as u32),
{
    lemma_char_order('0', s[0]);
    lemma_char_order(s[0], '9');
}

/// A part that begins with a number begins with a digit.
proof fn lemma_has_lead(s: Seq<char>)
    requires
        lead(s) > 0,
    ensures
        s.len() > 0,
        '0' as u32 <= s[0] as u32 <= '9' as u32,
{
    lemma_char_order('0', s[0]);
    lemma_char_order(s[0], '9');
}

/// What stands first begins no later.
proof fn lemma_less_by_first(a: Seq<char>, b: Seq<char>)
    ensures
        less(a, b) ==> b.len() > 0 && (a.len() > 0 ==> a[0] as u32 <= b[0] as u32),
        b.len() > 0 && (a.len() == 0 || (a[0] as u32) < (b[0] as u32)) ==> less(a, b),
{
}

/// Where one of three parts begins with no number, the order of the texts
/// carries over.
proof fn lemma_part_trans_as_text(a: Seq<char>, b: Seq<char>, c: Seq<char>)
    requires
        part_less(a, b),
        part_less(b, c),
        lead(a) == 0 || lead(b) == 0 || lead(c) == 0,
    ensures
        part_less(a, c),
{
    lemma_less_by_first(a, b);
    lemma_less_by_first(b, c);
    lemma_less_by_first(a, c);
    if lead(a) > 0 && lead(b) > 0 {
        lemma_has_lead(a);
        lemma_has_lead(b);
        lemma_no_lead(c);
    } else if lead(b) > 0 && lead(c) > 0 {
        lemma_has_lead(b);
        lemma_has_lead(c);
        if a.len() > 0 {
            lemma_no_lead(a);
        }
    } else if lead(a) > 0 && lead(c) > 0 {
        lemma_has_lead(a);
        lemma_has_lead(c);
        lemma_no_lead(b);
    } else {
        lemma_less_trans(a, b, c);
    }
}

/// Whether one part of a version stands before another.
fn is_part_less(a: &str, b: &str) -> (r: bool)
    ensures
        r == part_less(a@, b@),
{
    let x = chars_of(a);
    let y = chars_of(b);
    let i = lead_of(&x);
    let j = lead_of(&y);
    if i > 0 && j > 0 {
        proof {
            lemma_lead_fits(a@);
            lemma_lead_fits(b@);
        }
        let m = chars_of(&text_between(&x, 0, i));
        let n = chars_of(&text_between(&y, 0, j));
        if digits_less(&m, &n) {
            return true;
        }
        if digits_less(&n, &m) {
            return false;
        }
        let p = text_between(&x, i, x.len());
        let q = text_between(&y, j, y.len());
        proof {
            lemma_less_strict(p@, q@);
            lemma_less_total(p@, q@);
        }
        if text_less(&p, &q) {
            return true;
        }
        if text_less(&q, &p) {
            proof {
                lemma_less_strict(q@, p@);
                lemma_less_strict(q@, q@);
            }
            return false;
        }
    }
    text_less(a, b)
}

fn lead_of(s: &Vec<char>) -> (r: usize)
    ensures
        r <= s@.len(),
        r == lead(s@),
{
    let mut i: usize = 0;
    assert(s@.subrange(0, s@.len() as int) =~= s@);
    while i < s.len() && '0' <= s[i] && s[i] <= '9'
        invariant
            i <= s@.len(),
            lead(s@) == i + lead(s@.subrange(i as int, s@.len() as int)),
        decreases s@.len() - i,
    {
        assert(s@.subrange(i as int, s@.len() as int).drop_first() =~= s@.subrange(
            i + 1,
            s@.len() as int,
        ));
        i = i + 1;
    }
    i
}

// ---------------------------------------------------------------------------
// Versions
// ---------------------------------------------------------------------------

/// One row of parts stands before another: by the first part in which they
/// differ, and the shorter where there is none.
pub open spec fn parts_less(p: Seq<Seq<char>>, q: Seq<Seq<char>>) -> bool
    decreases p.len(),
{
    if q.len() == 0 {
        false
    } else if p.len() == 0 {
        true
    } else if p[0] != q[0] {
        part_less(p[0], q[0])
    } else {
        parts_less(p.drop_first(), q.drop_first())
    }
}

/// One version is older than another.
pub open spec fn version_less(a: Seq<char>, b: Seq<char>) -> bool {
    parts_less(pieces(a, '.'), pieces(b, '.'))
}

proof fn lemma_parts_total(p: Seq<Seq<char>>, q: Seq<Seq<char>>)
    ensures
        p == q || parts_less(p, q) || parts_less(q, p),
        !parts_less(p, p),
        parts_less(p, q) ==> !parts_less(q, p),
    decreases p.len(),
{
    if p.len() > 0 {
        lemma_parts_total(p.drop_first(), q.drop_first());
    }
    if p.len() > 0 && q.len() > 0 {
        lemma_part_total(p[0], q[0]);
        if p[0] == q[0] && p.drop_first() == q.drop_first() {
            assert(p =~= seq![p[0]] + p.drop_first());
            assert(q =~= seq![q[0]] + q.drop_first());
        }
    } else if p.len() == 0 && q.len() == 0 {
        assert(p =~= q);
    }
}

proof fn lemma_parts_trans(p: Seq<Seq<char>>, q: Seq<Seq<char>>, r: Seq<Seq<char>>)
    requires
        parts_less(p, q),
        parts_less(q, r),
    ensures
        parts_less(p, r),
    decreases p.len(),
{
    if p.len() > 0 {
        lemma_part_total(p[0], q[0]);
        if p[0] == q[0] && q[0] == r[0] {
            lemma_parts_trans(p.drop_first(), q.drop_first(), r.drop_first());
        } else if p[0] != q[0] && q[0] != r[0] {
            lemma_part_trans(p[0], q[0], r[0]);
        }
    }
}

/// Law: of any two versions that differ in their parts one is older, never both,
/// and what is older than an older one is older.
pub proof fn law_versions_are_ordered(a: Seq<char>, b: Seq<char>, c: Seq<char>)
    ensures
        !version_less(a, a),
        version_less(a, b) ==> !version_less(b, a),
        pieces(a, '.') == pieces(b, '.') || version_less(a, b) || version_less(b, a),
        version_less(a, b) && version_less(b, c) ==> version_less(a, c),
{
    lemma_parts_total(pieces(a, '.'), pieces(b, '.'));
    if version_less(a, b) && version_less(b, c) {
        lemma_parts_trans(pieces(a, '.'), pieces(b, '.'), pieces(c, '.'));
    }
}

/// Whether one version is older than another.
pub fn is_older(a: &str, b: &str) -> (r: bool)
    ensures
        r == version_less(a@, b@),
{
    let p = split_at_char(a, '.');
    let q = split_at_char(b, '.');
    let mut i: usize = 0;
    let ghost x = pieces(a@, '.');
    let ghost y = pieces(b@, '.');
    assert(x.subrange(0, x.len() as int) =~= x);
    assert(y.subrange(0, y.len() as int) =~= y);
    assert(p@.len() == texts(p@).len() && q@.len() == texts(q@).len());
    loop
        invariant
            texts(p@) == x,
            texts(q@) == y,
            p@.len() == x.len(),
            q@.len() == y.len(),
            i <= x.len(),
            i <= y.len(),
            parts_less(x, y) == parts_less(
                x.subrange(i as int, x.len() as int),
                y.subrange(i as int, y.len() as int),
            ),
            x == pieces(a@, '.'),
            y == pieces(b@, '.'),
        decreases x.len() - i,
    {
        if i == q.len() {
            return false;
        }
        if i == p.len() {
            return true;
        }
        proof {
            let s = x.subrange(i as int, x.len() as int);
            let t = y.subrange(i as int, y.len() as int);
            assert(s[0] == p@[i as int]@ && t[0] == q@[i as int]@);
            assert(s.drop_first() =~= x.subrange(i + 1, x.len() as int));
            assert(t.drop_first() =~= y.subrange(i + 1, y.len() as int));
            lemma_part_total(s[0], t[0]);
        }
        if is_part_less(&p[i], &q[i]) {
            return true;
        }
        if is_part_less(&q[i], &p[i]) {
            return false;
        }
        i = i + 1;
    }
}

proof fn lemma_parts_common(p: Seq<Seq<char>>, q: Seq<Seq<char>>, n: int)
    requires
        0 <= n <= p.len(),
        n <= q.len(),
        forall|i: int| 0 <= i < n ==> p[i] == q[i],
    ensures
        parts_less(p, q) == parts_less(
            p.subrange(n, p.len() as int),
            q.subrange(n, q.len() as int),
        ),
    decreases n,
{
    if n == 0 {
        assert(p.subrange(0, p.len() as int) =~= p);
        assert(q.subrange(0, q.len() as int) =~= q);
    } else {
        lemma_parts_common(p.drop_first(), q.drop_first(), n - 1);
        assert(p.drop_first().subrange(n - 1, p.len() - 1) =~= p.subrange(n, p.len() as int));
        assert(q.drop_first().subrange(n - 1, q.len() - 1) =~= q.subrange(n, q.len() as int));
    }
}

proof fn lemma_lead_of_digits(s: Seq<char>)
    requires
        all_digits(s),
    ensures
        lead(s) == s.len(),
    decreases s.len(),
{
    if s.len() > 0 {
        let t = s.drop_first();
        assert forall|i: int| 0 <= i < t.len() implies '0' <= #[trigger] t[i] <= '9' by {
            assert(t[i] == s[i + 1]);
        }
        lemma_lead_of_digits(t);
    }
}

/// Law: of two versions whose parts agree up to one that is a number in both, the
/// one with the smaller number is older, whatever follows.
pub proof fn law_smaller_number_is_older(a: Seq<char>, b: Seq<char>, n: int)
    requires
        0 <= n < pieces(a, '.').len(),
        n < pieces(b, '.').len(),
        forall|i: int| 0 <= i < n ==> pieces(a, '.')[i] == pieces(b, '.')[i],
        pieces(a, '.')[n].len() > 0 && all_digits(pieces(a, '.')[n]),
        pieces(b, '.')[n].len() > 0 && all_digits(pieces(b, '.')[n]),
        digits_value(pieces(a, '.')[n]) < digits_value(pieces(b, '.')[n]),
    ensures
        version_less(a, b),
        !version_less(b, a),
{
    let p = pieces(a, '.');
    let q = pieces(b, '.');
    lemma_parts_common(p, q, n);
    lemma_parts_common(q, p, n);
    lemma_lead_of_digits(p[n]);
    lemma_lead_of_digits(q[n]);
    assert(p[n].subrange(0, p[n].len() as int) =~= p[n]);
    assert(q[n].subrange(0, q[n].len() as int) =~= q[n]);
    let x = p.subrange(n, p.len() as int);
    let y = q.subrange(n, q.len() as int);
    assert(x[0] == p[n] && y[0] == q[n]);
}

/// Law: a version is older than one that goes on where it ends.
pub proof fn law_shorter_version_is_older(a: Seq<char>, b: Seq<char>)
    requires
        pieces(a, '.').len() < pieces(b, '.').len(),
        forall|i: int| 0 <= i < pieces(a, '.').len() ==> pieces(a, '.')[i] == pieces(b, '.')[i],
    ensures
        version_less(a, b),
        !version_less(b, a),
{
    let p = pieces(a, '.');
    let q = pieces(b, '.');
    lemma_parts_common(p, q, p.len() as int);
    lemma_parts_total(p, q);
}

} // verus!
