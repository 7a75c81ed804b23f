//! The patterns in a JSON Schema: whether they can be built, and whether they
//! match without going back.
//!
//! A text is taken as it is written, with its escapes. Every string in it is
//! looked at, whether or not it is a pattern.

use crate::media::reference::{is_spelled_out, next_spot, spelled_out, spot_after, Spot};
use crate::text::{
    all_digits, chars_of, contains_text, digits_value, occurs, occurs_at, text_between,
    texts,
};
use crate::version::{lead, lead_value};
use vstd::prelude::*;

verus! {

broadcast use vstd::string::group_string_axioms;

// ---------------------------------------------------------------------------
// Strings
// ---------------------------------------------------------------------------

/// The strings from `i` on; `open` is where the one began that `i` is in.
pub open spec fn strings_from(s: Seq<char>, i: int, open: int, spot: Spot) -> Seq<Seq<char>>
    decreases s.len() - i,
{
    if i < 0 || i >= s.len() {
        Seq::empty()
    } else if spot == Spot::Outside {
        strings_from(s, i + 1, i + 1, spot_after(spot, s[i]))
    } else if spot == Spot::InString && s[i] == '"' {
        seq![s.subrange(open, i)] + strings_from(s, i + 1, open, Spot::Outside)
    } else {
        strings_from(s, i + 1, open, spot_after(spot, s[i]))
    }
}

/// The strings of JSON text as they are written, names of members among them.
pub open spec fn strings(s: Seq<char>) -> Seq<Seq<char>> {
    strings_from(s, 0, 0, Spot::Outside)
}

/// The strings of JSON text as they are written.
pub fn strings_of(text: &str) -> (r: Vec<String>)
    ensures
        texts(r@) == strings(text@),
{
    let s = chars_of(text);
    let mut out: Vec<String> = Vec::new();
    let mut i: usize = 0;
    let mut open: usize = 0;
    let mut spot: Spot = Spot::Outside;
    assert(texts(out@) + strings(s@) =~= strings(s@));
    while i < s.len()
        invariant
            open <= i <= s@.len(),
            strings(s@) == texts(out@) + strings_from(s@, i as int, open as int, spot),
        decreases s@.len() - i,
    {
        if spot == Spot::Outside {
            spot = next_spot(spot, s[i]);
            open = i + 1;
        } else if spot == Spot::InString && s[i] == '"' {
            let ghost before = texts(out@);
            let ghost rest = strings_from(s@, i + 1, open as int, Spot::Outside);
            let ghost one = s@.subrange(open as int, i as int);
            out.push(text_between(&s, open, i));
            assert(texts(out@) =~= before.push(one));
            assert(before + (seq![one] + rest) =~= before.push(one) + rest);
            spot = Spot::Outside;
        } else {
            spot = next_spot(spot, s[i]);
        }
        i = i + 1;
    }
    assert(texts(out@) + Seq::<Seq<char>>::empty() =~= texts(out@));
    out
}

// ---------------------------------------------------------------------------
// Repeats
// ---------------------------------------------------------------------------

/// How often something may be repeated by what follows a brace; once where no
/// number does.
pub open spec fn count_behind(s: Seq<char>) -> nat {
    if lead_value(s) > 0 {
        lead_value(s)
    } else {
        1
    }
}

/// The repeat counts behind the braces from `i` on, multiplied.
pub open spec fn weight_from(s: Seq<char>, i: int) -> nat
    decreases s.len() - i,
{
    if i < 0 || i >= s.len() {
        1
    } else if s[i] == '{' {
        count_behind(s.subrange(i + 1, s.len() as int)) * weight_from(s, i + 1)
    } else {
        weight_from(s, i + 1)
    }
}

/// The most that the length of a match times the repeat counts may come to.
pub const SIZE_LIMIT: u64 = 0x7fff_ffff;

/// What a pattern can match at the shortest fits a counter: no more than its own
/// length, times all its repeat counts.
pub open spec fn fits(s: Seq<char>) -> bool {
    weight_from(s, 0) * s.len() <= SIZE_LIMIT
}

/// Every string of the text fits.
pub open spec fn repeats_fit(text: Seq<char>) -> bool {
    forall|i: int| 0 <= i < strings(text).len() ==> fits(#[trigger] strings(text)[i])
}

proof fn lemma_weight_positive(s: Seq<char>, i: int)
    ensures
        weight_from(s, i) >= 1,
    decreases s.len() - i,
{
    if 0 <= i < s.len() {
        lemma_weight_positive(s, i + 1);
        if s[i] == '{' {
            let c = count_behind(s.subrange(i + 1, s.len() as int));
            let w = weight_from(s, i + 1);
            assert(c * w >= 1) by (nonlinear_arith)
                requires
                    c >= 1,
                    w >= 1,
            ;
        }
    }
}

/// A number does not shrink when digits are put behind it.
proof fn lemma_digits_grow(s: Seq<char>, n: int)
    requires
        0 <= n <= s.len(),
    ensures
        digits_value(s.subrange(0, n)) <= digits_value(s),
    decreases s.len(),
{
    if n < s.len() {
        lemma_digits_grow(s.drop_last(), n);
        assert(s.drop_last().subrange(0, n) =~= s.subrange(0, n));
    } else {
        assert(s.subrange(0, n) =~= s);
    }
}

proof fn lemma_lead_at(s: Seq<char>, n: int)
    requires
        0 <= n <= s.len(),
        all_digits(s.subrange(0, n)),
    ensures
        lead(s) == n + lead(s.subrange(n, s.len() as int)),
    decreases n,
{
    if n > 0 {
        let t = s.drop_first();
        assert(s.subrange(0, n)[0] == s[0]);
        assert forall|i: int| 0 <= i < n - 1 implies '0' <= #[trigger] t.subrange(0, n - 1)[i]
            <= '9' by {
            assert(s.subrange(0, n)[i + 1] == t.subrange(0, n - 1)[i]);
        }
        lemma_lead_at(t, n - 1);
        assert(t.subrange(n - 1, t.len() as int) =~= s.subrange(n, s.len() as int));
    } else {
        assert(s.subrange(0, s.len() as int) =~= s);
    }
}

/// The repeat count behind a brace at `from`, where it is within the limit.
fn read_count(s: &Vec<char>, from: usize) -> (r: Option<u64>)
    requires
        from <= s@.len(),
    ensures
        match r {
            Some(n) => n == count_behind(s@.subrange(from as int, s@.len() as int)) && 1 <= n
                <= SIZE_LIMIT,
            None => count_behind(s@.subrange(from as int, s@.len() as int)) > SIZE_LIMIT,
        },
{
    let ghost t = s@.subrange(from as int, s@.len() as int);
    let mut i: usize = from;
    let mut value: u64 = 0;
    assert(t.subrange(0, 0) =~= Seq::<char>::empty());
    while i < s.len() && '0' <= s[i] && s[i] <= '9'
        invariant
            from <= i <= s@.len(),
            t == s@.subrange(from as int, s@.len() as int),
            all_digits(t.subrange(0, i - from)),
            value == digits_value(t.subrange(0, i - from)),
            value <= SIZE_LIMIT,
        decreases s@.len() - i,
    {
        let ghost k = i - from;
        let ghost next = t.subrange(0, k + 1);
        assert(next.drop_last() =~= t.subrange(0, k));
        assert(next.last() == s@[i as int]);
        assert(all_digits(next)) by {
            assert forall|j: int| 0 <= j < next.len() implies '0' <= #[trigger] next[j] <= '9' by {
                if j < k {
                    assert(t.subrange(0, k)[j] == next[j]);
                }
            }
        }
        let d: u64 = (s[i] as u32 - '0' as u32) as u64;
        value = value * 10 + d;
        if value > SIZE_LIMIT {
            proof {
                lemma_lead_at(t, k + 1);
                let whole = t.subrange(0, lead(t) as int);
                crate::version::lemma_lead_fits(t);
                lemma_digits_grow(whole, k + 1);
                assert(whole.subrange(0, k + 1) =~= next);
            }
            return None;
        }
        i = i + 1;
    }
    proof {
        lemma_lead_at(t, i - from);
        let rest = t.subrange(i - from, t.len() as int);
        assert(rest.len() > 0 ==> rest[0] == s@[i as int]);
        assert(lead(rest) == 0);
    }
    if value == 0 {
        Some(1)
    } else {
        Some(value)
    }
}

/// Whether a string fits.
fn check_fits(text: &str) -> (r: bool)
    ensures
        r == fits(text@),
{
    let s = chars_of(text);
    let n: usize = s.len();
    if n == 0 {
        assert(weight_from(text@, 0) * 0 == 0) by (nonlinear_arith);
        return true;
    }
    let mut product: u64 = 1;
    let mut i: usize = 0;
    while i < n
        invariant
            i <= n,
            n == s@.len(),
            n > 0,
            s@ == text@,
            1 <= product <= SIZE_LIMIT,
            weight_from(s@, 0) == product * weight_from(s@, i as int),
        decreases n - i,
    {
        if s[i] == '{' {
            let ghost w = weight_from(s@, i + 1);
            let ghost c = count_behind(s@.subrange(i + 1, s@.len() as int));
            proof {
                lemma_weight_positive(s@, i + 1);
                assert(product * (c * w) == (product * c) * w) by (nonlinear_arith);
            }
            match read_count(&s, i + 1) {
                None => {
                    proof {
                        assert((product * c) * w * n > SIZE_LIMIT) by (nonlinear_arith)
                            requires
                                product >= 1,
                                c > SIZE_LIMIT,
                                w >= 1,
                                n >= 1,
                        ;
                    }
                    return false;
                },
                Some(count) => {
                    assert(product * count <= SIZE_LIMIT * SIZE_LIMIT) by (nonlinear_arith)
                        requires
                            product <= SIZE_LIMIT,
                            count <= SIZE_LIMIT,
                    ;
                    assert(SIZE_LIMIT * SIZE_LIMIT <= u64::MAX) by (nonlinear_arith)
                        requires
                            SIZE_LIMIT == 0x7fff_ffff,
                    ;
                    let ghost was = product;
                    product = product * count;
                    if product > SIZE_LIMIT {
                        proof {
                            assert(product * w * n > SIZE_LIMIT) by (nonlinear_arith)
                                requires
                                    product > SIZE_LIMIT,
                                    w >= 1,
                                    n >= 1,
                            ;
                        }
                        return false;
                    }
                    assert(product >= 1) by (nonlinear_arith)
                        requires
                            product == was * count,
                            was >= 1,
                            count >= 1,
                    ;
                },
            }
        }
        i = i + 1;
    }
    assert(weight_from(s@, n as int) == 1);
    assert(product * 1 == product) by (nonlinear_arith);
    assert(weight_from(s@, 0) == product);
    match product.checked_mul(n as u64) {
        Some(size) => size <= SIZE_LIMIT,
        None => false,
    }
}

fn check_repeats(text: &str) -> (r: bool)
    ensures
        r == repeats_fit(text@),
{
    let all = strings_of(text);
    let mut i: usize = 0;
    while i < all.len()
        invariant
            i <= all@.len(),
            texts(all@) == strings(text@),
            forall|j: int| 0 <= j < i ==> fits(#[trigger] strings(text@)[j]),
        decreases all@.len() - i,
    {
        assert(strings(text@)[i as int] == all@[i as int]@);
        if !check_fits(&all[i]) {
            return false;
        }
        i = i + 1;
    }
    assert(strings(text@).len() == all@.len());
    true
}

// ---------------------------------------------------------------------------
// Groups and what can be built
// ---------------------------------------------------------------------------

/// What may follow the opening of a special group: it sets no flag and is no
/// comment, so that what is written in a pattern is what counts.
pub open spec fn is_group_kind(c: char) -> bool {
    c == ':' || c == '=' || c == '!' || c == '<' || c == '>' || c == 'P' || c == '('
}

/// No group of the text sets flags or is a comment.
pub open spec fn groups_are_plain(text: Seq<char>) -> bool {
    forall|i: int| #[trigger]
        occurs_at(text, "(?"@, i) ==> i + 2 < text.len() && is_group_kind(text[i + 2])
}

fn check_groups(text: &str) -> (r: bool)
    ensures
        r == groups_are_plain(text@),
{
    let s = chars_of(text);
    proof {
        reveal_strlit("(?");
    }
    let mut i: usize = 0;
    while i < s.len() && s.len() - i > 1
        invariant
            i <= s@.len(),
            s@ == text@,
            "(?"@.len() == 2,
            "(?"@[0] == '(',
            "(?"@[1] == '?',
            forall|j: int|
                j < i && #[trigger] occurs_at(text@, "(?"@, j) ==> j + 2 < text@.len()
                    && is_group_kind(text@[j + 2]),
        decreases s@.len() - i,
    {
        if s[i] == '(' && s[i + 1] == '?' {
            assert(text@.subrange(i as int, i + 2) =~= "(?"@);
            assert(occurs_at(text@, "(?"@, i as int));
            if i + 2 >= s.len() {
                return false;
            }
            let c = s[i + 2];
            if !(c == ':' || c == '=' || c == '!' || c == '<' || c == '>' || c == 'P' || c == '(') {
                return false;
            }
        } else {
            assert(!occurs_at(text@, "(?"@, i as int)) by {
                if occurs_at(text@, "(?"@, i as int) {
                    assert(text@.subrange(i as int, i + 2)[0] == text@[i as int]);
                    assert(text@.subrange(i as int, i + 2)[1] == text@[i + 1]);
                }
            }
        }
        i = i + 1;
    }
    true
}

/// Building the patterns of the text is safe: what they are made of stands as it
/// is, none refers to a group by a name or number in brackets, and their sizes
/// fit.
pub open spec fn is_buildable(text: Seq<char>) -> bool {
    is_spelled_out(text) && !occurs(text, "\\\\k"@) && groups_are_plain(text) && repeats_fit(text)
}

/// Whether building the patterns of the text is safe.
pub fn has_buildable_patterns(text: &str) -> (r: bool)
    ensures
        r == is_buildable(text@),
{
    spelled_out(text) && !contains_text(text, "\\\\k") && check_groups(text) && check_repeats(text)
}

// ---------------------------------------------------------------------------
// Patterns that match without going back
// ---------------------------------------------------------------------------

/// What makes a pattern one that goes back: references to groups, what looks
/// around, word boundaries, what keeps what it has matched, and conditions.
pub open spec fn hard_forms() -> Seq<Seq<char>> {
    seq![
        "\\\\0"@,
        "\\\\1"@,
        "\\\\2"@,
        "\\\\3"@,
        "\\\\4"@,
        "\\\\5"@,
        "\\\\6"@,
        "\\\\7"@,
        "\\\\8"@,
        "\\\\9"@,
        "\\\\k"@,
        "\\\\K"@,
        "\\\\G"@,
        "\\\\b"@,
        "\\\\B"@,
        "\\\\<"@,
        "\\\\>"@,
        "(?="@,
        "(?!"@,
        "(?<"@,
        "(?>"@,
        "(?("@,
        "(?P="@,
        "*+"@,
        "++"@,
        "?+"@,
        "}+"@,
    ]
}

/// No pattern of the text goes back.
pub open spec fn patterns_are_plain(text: Seq<char>) -> bool {
    forall|i: int| 0 <= i < hard_forms().len() ==> !occurs(text, #[trigger] hard_forms()[i])
}

fn hard_form_list() -> (r: Vec<&'static str>)
    ensures
        r@.len() == hard_forms().len(),
        forall|i: int| 0 <= i < r@.len() ==> (#[trigger] r@[i])@ == hard_forms()[i],
{
    vec![
        "\\\\0",
        "\\\\1",
        "\\\\2",
        "\\\\3",
        "\\\\4",
        "\\\\5",
        "\\\\6",
        "\\\\7",
        "\\\\8",
        "\\\\9",
        "\\\\k",
        "\\\\K",
        "\\\\G",
        "\\\\b",
        "\\\\B",
        "\\\\<",
        "\\\\>",
        "(?=",
        "(?!",
        "(?<",
        "(?>",
        "(?(",
        "(?P=",
        "*+",
        "++",
        "?+",
        "}+",
    ]
}

/// Whether no pattern of the text goes back.
pub fn has_plain_patterns(text: &str) -> (r: bool)
    ensures
        r == patterns_are_plain(text@),
{
    let forms = hard_form_list();
    let mut i: usize = 0;
    while i < forms.len()
        invariant
            i <= forms@.len(),
            forms@.len() == hard_forms().len(),
            forall|j: int| 0 <= j < forms@.len() ==> (#[trigger] forms@[j])@ == hard_forms()[j],
            forall|j: int| 0 <= j < i ==> !occurs(text@, #[trigger] hard_forms()[j]),
        decreases forms@.len() - i,
    {
        assert(forms@[i as int]@ == hard_forms()[i as int]);
        if contains_text(text, forms[i]) {
            return false;
        }
        i = i + 1;
    }
    true
}

// ---------------------------------------------------------------------------
// Numbers that may be zero
// ---------------------------------------------------------------------------

/// The number at `i` has an exponent.
pub open spec fn has_exponent(s: Seq<char>, i: int) -> bool
    decreases s.len() - i,
{
    if i < 0 || i >= s.len() {
        false
    } else if s[i] == 'e' || s[i] == 'E' {
        true
    } else if ('0' <= s[i] && s[i] <= '9') || s[i] == '.' {
        has_exponent(s, i + 1)
    } else {
        false
    }
}

/// The number at `i` may be read as zero: it starts with one or has an exponent.
pub open spec fn may_be_zero(s: Seq<char>, i: int) -> bool {
    0 <= i < s.len() && (s[i] == '0' || has_exponent(s, i))
}

/// A minus sign of a number, and not of its exponent, stands at `i`.
pub open spec fn is_sign(s: Seq<char>, i: int) -> bool {
    s[i] == '-' && !(i > 0 && (s[i - 1] == 'e' || s[i - 1] == 'E'))
}

/// From `i` on, outside of strings, a number with a minus sign may be read as
/// zero.
pub open spec fn negative_zero_from(s: Seq<char>, i: int, spot: Spot) -> bool
    decreases s.len() - i,
{
    if i < 0 || i >= s.len() {
        false
    } else if spot == Spot::Outside && is_sign(s, i) && may_be_zero(s, i + 1) {
        true
    } else {
        negative_zero_from(s, i + 1, spot_after(spot, s[i]))
    }
}

} // verus!
