//! Text as sequences of characters: the small vocabulary of reading, comparing
//! and rendering that the rest of the crate is written in.

use vstd::prelude::*;
use vstd::utf8::{encode_utf8, encode_utf8_decode_utf8};

verus! {

broadcast use vstd::string::group_string_axioms;

/// `String::push` appends the character to the end of the string.
pub assume_specification[ String::push ](s: &mut String, c: char)
    ensures
        final(s)@ == old(s)@.push(c),
;

// ---------------------------------------------------------------------------
// Characters and strings
// ---------------------------------------------------------------------------

/// The characters of `s`, in order.
pub fn chars_of(s: &str) -> (r: Vec<char>)
    ensures
        r@ == s@,
{
    let mut out: Vec<char> = Vec::new();
    for c in it: s.chars()
        invariant
            out@.len() == it.index(),
            it.seq() == s@,
            forall|j: int| 0 <= j < out@.len() ==> out@[j] == it.seq()[j],
    {
        out.push(c);
    }
    out
}

/// The string whose characters are `cs[from..to]`.
pub fn text_between(cs: &Vec<char>, from: usize, to: usize) -> (r: String)
    requires
        from <= to <= cs@.len(),
    ensures
        r@ == cs@.subrange(from as int, to as int),
{
    let mut out = String::new();
    let mut i: usize = from;
    while i < to
        invariant
            from <= i <= to <= cs@.len(),
            out@ == cs@.subrange(from as int, i as int),
        decreases to - i,
    {
        out.push(cs[i]);
        i = i + 1;
    }
    out
}

/// A copy of `s` as an owned string.
pub fn owned(s: &str) -> (r: String)
    ensures
        r@ == s@,
{
    s.to_owned()
}

/// Whether two texts hold the same characters.
pub fn same_text(a: &str, b: &str) -> (r: bool)
    ensures
        r == (a@ == b@),
{
    let x = a.as_bytes();
    let y = b.as_bytes();
    proof {
        encode_utf8_decode_utf8(a@);
        encode_utf8_decode_utf8(b@);
    }
    if x.len() != y.len() {
        return false;
    }
    let mut i: usize = 0;
    while i < x.len()
        invariant
            x@ == encode_utf8(a@),
            y@ == encode_utf8(b@),
            x@.len() == y@.len(),
            i <= x@.len(),
            forall|j: int| 0 <= j < i ==> x@[j] == y@[j],
        decreases x@.len() - i,
    {
        if x[i] != y[i] {
            return false;
        }
        i = i + 1;
    }
    assert(x@ =~= y@);
    true
}

/// Appends `tail` to `s`.
pub fn add_text(s: &mut String, tail: &str)
    ensures
        final(s)@ == old(s)@ + tail@,
{
    s.append(tail);
}

/// The characters of each string of a list.
pub open spec fn texts(v: Seq<String>) -> Seq<Seq<char>> {
    Seq::new(v.len(), |i: int| v[i]@)
}

/// The characters of an optional string.
pub open spec fn opt_text(o: Option<String>) -> Option<Seq<char>> {
    match o {
        Some(s) => Some(s@),
        None => None,
    }
}

/// A copy of an optional string.
pub fn clone_opt(o: &Option<String>) -> (r: Option<String>)
    ensures
        opt_text(r) == opt_text(*o),
{
    match o {
        Some(s) => Some(s.clone()),
        None => None,
    }
}

/// Whether two optional texts are equal.
pub fn same_opt(a: &Option<String>, b: &Option<String>) -> (r: bool)
    ensures
        r == (opt_text(*a) == opt_text(*b)),
{
    match (a, b) {
        (Some(x), Some(y)) => same_text(x, y),
        (None, None) => true,
        _ => false,
    }
}

/// A copy of a list of strings.
pub fn clone_texts(v: &Vec<String>) -> (r: Vec<String>)
    ensures
        texts(r@) == texts(v@),
{
    let mut out: Vec<String> = Vec::new();
    let mut i: usize = 0;
    while i < v.len()
        invariant
            i <= v@.len(),
            out@.len() == i,
            forall|j: int| 0 <= j < i ==> out@[j]@ == v@[j]@,
        decreases v@.len() - i,
    {
        out.push(v[i].clone());
        i = i + 1;
    }
    assert(texts(out@) =~= texts(v@));
    out
}

/// Whether `needle` is one of the texts of `v`.
pub fn has_text(v: &Vec<String>, needle: &str) -> (r: bool)
    ensures
        r == texts(v@).contains(needle@),
{
    let mut i: usize = 0;
    while i < v.len()
        invariant
            i <= v@.len(),
            forall|j: int| 0 <= j < i ==> v@[j]@ != needle@,
        decreases v@.len() - i,
    {
        if same_text(&v[i], needle) {
            assert(texts(v@)[i as int] == needle@);
            return true;
        }
        i = i + 1;
    }
    assert(!texts(v@).contains(needle@)) by {
        if texts(v@).contains(needle@) {
            let k = choose|k: int| 0 <= k < texts(v@).len() && texts(v@)[k] == needle@;
            assert(v@[k]@ == needle@);
        }
    }
    false
}

// ---------------------------------------------------------------------------
// Prefixes, suffixes, occurrences
// ---------------------------------------------------------------------------

/// `s` begins with `p`.
pub open spec fn begins(s: Seq<char>, p: Seq<char>) -> bool {
    p.len() <= s.len() && s.subrange(0, p.len() as int) == p
}

/// `s` ends with `p`.
pub open spec fn ends(s: Seq<char>, p: Seq<char>) -> bool {
    p.len() <= s.len() && s.subrange(s.len() - p.len(), s.len() as int) == p
}

/// `needle` stands in `s` at position `at`.
pub open spec fn occurs_at(s: Seq<char>, needle: Seq<char>, at: int) -> bool {
    0 <= at && at + needle.len() <= s.len() && s.subrange(at, at + needle.len()) == needle
}

/// `needle` stands somewhere in `s`.
pub open spec fn occurs(s: Seq<char>, needle: Seq<char>) -> bool {
    exists|at: int| #[trigger] occurs_at(s, needle, at)
}

/// Whether `needle` stands in `s` at position `at`.
pub fn chars_at(s: &Vec<char>, needle: &Vec<char>, at: usize) -> (r: bool)
    ensures
        r == occurs_at(s@, needle@, at as int),
{
    if at > s.len() || needle.len() > s.len() - at {
        return false;
    }
    let mut i: usize = 0;
    while i < needle.len()
        invariant
            i <= needle@.len(),
            at + needle.len() <= s.len(),
            forall|j: int| 0 <= j < i ==> s@[at + j] == needle@[j],
        decreases needle@.len() - i,
    {
        if s[at + i] != needle[i] {
            assert(s@.subrange(at as int, at + needle@.len())[i as int] != needle@[i as int]);
            return false;
        }
        i = i + 1;
    }
    assert(s@.subrange(at as int, at + needle@.len()) =~= needle@);
    true
}

/// Whether `s` begins with `p`.
pub fn begins_with(s: &str, p: &str) -> (r: bool)
    ensures
        r == begins(s@, p@),
{
    chars_at(&chars_of(s), &chars_of(p), 0)
}

/// Whether `s` ends with `p`.
pub fn ends_with(s: &str, p: &str) -> (r: bool)
    ensures
        r == ends(s@, p@),
{
    let a = chars_of(s);
    let b = chars_of(p);
    if b.len() > a.len() {
        return false;
    }
    chars_at(&a, &b, a.len() - b.len())
}

/// Whether `needle` stands somewhere in `s`.
pub fn contains_text(s: &str, needle: &str) -> (r: bool)
    ensures
        r == occurs(s@, needle@),
{
    let a = chars_of(s);
    let b = chars_of(needle);
    let mut i: usize = 0;
    while i < a.len()
        invariant
            a@ == s@,
            b@ == needle@,
            i <= a@.len(),
            forall|j: int| 0 <= j < i ==> !occurs_at(s@, needle@, j),
        decreases a@.len() - i,
    {
        if chars_at(&a, &b, i) {
            return true;
        }
        i = i + 1;
    }
    if chars_at(&a, &b, i) {
        return true;
    }
    assert(!occurs(s@, needle@)) by {
        if occurs(s@, needle@) {
            let k = choose|k: int| occurs_at(s@, needle@, k);
            assert(0 <= k <= a@.len());
        }
    }
    false
}

// ---------------------------------------------------------------------------
// White space
// ---------------------------------------------------------------------------

/// The Unicode `White_Space` characters.
pub open spec fn is_space(c: char) -> bool {
    ||| 0x09 <= c as u32 <= 0x0d
    ||| c as u32 == 0x20
    ||| c as u32 == 0x85
    ||| c as u32 == 0xa0
    ||| c as u32 == 0x1680
    ||| 0x2000 <= c as u32 <= 0x200a
    ||| c as u32 == 0x2028
    ||| c as u32 == 0x2029
    ||| c as u32 == 0x202f
    ||| c as u32 == 0x205f
    ||| c as u32 == 0x3000
}

/// Whether `c` is white space.
pub fn is_space_char(c: char) -> (r: bool)
    ensures
        r == is_space(c),
{
    let n: u32 = c as u32;
    (0x09 <= n && n <= 0x0d) || n == 0x20 || n == 0x85 || n == 0xa0 || n == 0x1680 || (0x2000 <= n
        && n <= 0x200a) || n == 0x2028 || n == 0x2029 || n == 0x202f || n == 0x205f || n == 0x3000
}

/// `s` without the white space at its front.
pub open spec fn trimmed_front(s: Seq<char>) -> Seq<char>
    decreases s.len(),
{
    if s.len() > 0 && is_space(s[0]) {
        trimmed_front(s.drop_first())
    } else {
        s
    }
}

/// `s` without the white space at its back.
pub open spec fn trimmed_back(s: Seq<char>) -> Seq<char>
    decreases s.len(),
{
    if s.len() > 0 && is_space(s.last()) {
        trimmed_back(s.drop_last())
    } else {
        s
    }
}

/// `s` without the white space at both ends.
pub open spec fn trimmed(s: Seq<char>) -> Seq<char> {
    trimmed_back(trimmed_front(s))
}

/// `s` without the white space at both ends.
pub fn trim(s: &str) -> (r: String)
    ensures
        r@ == trimmed(s@),
{
    let cs = chars_of(s);
    let mut lo: usize = 0;
    assert(cs@.subrange(0, cs@.len() as int) =~= cs@);
    while lo < cs.len() && is_space_char(cs[lo])
        invariant
            lo <= cs@.len(),
            trimmed_front(cs@) == trimmed_front(cs@.subrange(lo as int, cs@.len() as int)),
        decreases cs@.len() - lo,
    {
        assert(cs@.subrange(lo as int, cs@.len() as int).drop_first() =~= cs@.subrange(
            lo + 1,
            cs@.len() as int,
        ));
        lo = lo + 1;
    }
    let ghost front = trimmed_front(cs@);
    assert(front == cs@.subrange(lo as int, cs@.len() as int));
    let mut hi: usize = cs.len();
    while hi > lo && is_space_char(cs[hi - 1])
        invariant
            lo <= hi <= cs@.len(),
            trimmed_back(front) == trimmed_back(cs@.subrange(lo as int, hi as int)),
        decreases hi,
    {
        assert(cs@.subrange(lo as int, hi as int).drop_last() =~= cs@.subrange(lo as int, hi - 1));
        hi = hi - 1;
    }
    text_between(&cs, lo, hi)
}

// ---------------------------------------------------------------------------
// Lowercase
// ---------------------------------------------------------------------------

/// The Unicode lowercase form of a text.
pub uninterp spec fn lowercase(s: Seq<char>) -> Seq<char>;

/// `str::to_lowercase`: the lowercase form is a function of the text alone.
#[verifier::external_body]
pub(crate) fn to_lowercase(s: &str) -> (r: String)
    ensures
        r@ == lowercase(s@),
{
    s.to_lowercase()
}

/// Bytes as text, with the replacement character where they are no UTF-8.
pub uninterp spec fn lossy_text(bytes: Seq<u8>) -> Seq<char>;

/// `String::from_utf8_lossy`: the text is a function of the bytes alone.
#[verifier::external_body]
pub(crate) fn to_lossy_text(bytes: &[u8]) -> (r: String)
    ensures
        r@ == lossy_text(bytes@),
{
    String::from_utf8_lossy(bytes).into_owned()
}

// ---------------------------------------------------------------------------
// Splitting and joining
// ---------------------------------------------------------------------------

/// The pieces of `s` between occurrences of `sep`; always at least one piece.
pub open spec fn pieces(s: Seq<char>, sep: char) -> Seq<Seq<char>>
    decreases s.len(),
{
    if s.len() == 0 {
        seq![Seq::<char>::empty()]
    } else {
        let before = pieces(s.drop_last(), sep);
        if s.last() == sep {
            before.push(Seq::<char>::empty())
        } else {
            before.update(before.len() - 1, before.last().push(s.last()))
        }
    }
}

/// There is always at least one piece.
pub proof fn lemma_pieces_nonempty(s: Seq<char>, sep: char)
    ensures
        pieces(s, sep).len() > 0,
    decreases s.len(),
{
    if s.len() > 0 {
        lemma_pieces_nonempty(s.drop_last(), sep);
    }
}

/// The pieces of `s` between occurrences of `sep`.
pub fn split_at_char(s: &str, sep: char) -> (r: Vec<String>)
    ensures
        texts(r@) == pieces(s@, sep),
{
    let cs = chars_of(s);
    let mut done: Vec<String> = Vec::new();
    let mut current = String::new();
    let mut i: usize = 0;
    assert(cs@.subrange(0, 0) =~= Seq::<char>::empty());
    assert(texts(done@).push(current@) =~= seq![Seq::<char>::empty()]);
    while i < cs.len()
        invariant
            i <= cs@.len(),
            texts(done@).push(current@) == pieces(cs@.subrange(0, i as int), sep),
        decreases cs@.len() - i,
    {
        let ghost upto = cs@.subrange(0, i + 1);
        assert(upto.drop_last() =~= cs@.subrange(0, i as int));
        let ghost before = texts(done@).push(current@);
        if cs[i] == sep {
            done.push(current);
            current = String::new();
            assert(texts(done@).push(current@) =~= before.push(Seq::<char>::empty()));
        } else {
            current.push(cs[i]);
            assert(texts(done@).push(current@) =~= before.update(
                before.len() - 1,
                before.last().push(cs@[i as int]),
            ));
        }
        i = i + 1;
    }
    assert(cs@.subrange(0, cs@.len() as int) =~= s@);
    let ghost head = texts(done@);
    let ghost tail = current@;
    done.push(current);
    assert(texts(done@) =~= head.push(tail));
    done
}

/// The texts of `parts`, with `sep` between each two.
pub open spec fn joined(parts: Seq<Seq<char>>, sep: Seq<char>) -> Seq<char>
    decreases parts.len(),
{
    if parts.len() == 0 {
        Seq::empty()
    } else if parts.len() == 1 {
        parts[0]
    } else {
        joined(parts.drop_last(), sep) + sep + parts.last()
    }
}

/// A joined list is its first part, the separator and the rest.
pub proof fn lemma_joined_front(parts: Seq<Seq<char>>, sep: Seq<char>)
    requires
        parts.len() >= 2,
    ensures
        joined(parts, sep) == parts[0] + sep + joined(parts.drop_first(), sep),
    decreases parts.len(),
{
    if parts.len() == 2 {
        assert(joined(parts.drop_last(), sep) == parts[0]);
        assert(joined(parts.drop_first(), sep) == parts[1]);
    } else {
        lemma_joined_front(parts.drop_last(), sep);
        assert(parts.drop_last().drop_first() =~= parts.drop_first().drop_last());
        assert(parts.drop_first().last() == parts.last());
        assert(joined(parts, sep) =~= parts[0] + sep + joined(parts.drop_first(), sep));
    }
}

/// The texts of `parts`, with `sep` between each two.
pub fn join(parts: &Vec<String>, sep: &str) -> (r: String)
    ensures
        r@ == joined(texts(parts@), sep@),
{
    let mut out = String::new();
    let mut i: usize = 0;
    while i < parts.len()
        invariant
            i <= parts@.len(),
            out@ == joined(texts(parts@).subrange(0, i as int), sep@),
        decreases parts@.len() - i,
    {
        let ghost upto = texts(parts@).subrange(0, i + 1);
        assert(upto.drop_last() =~= texts(parts@).subrange(0, i as int));
        if i > 0 {
            out.append(sep);
        }
        out.append(&parts[i]);
        assert(out@ =~= joined(upto, sep@));
        i = i + 1;
    }
    assert(texts(parts@).subrange(0, parts@.len() as int) =~= texts(parts@));
    out
}

/// What stands before and after the first `c` in `s`.
pub open spec fn cut(s: Seq<char>, c: char) -> Option<(Seq<char>, Seq<char>)>
    decreases s.len(),
{
    if s.len() == 0 {
        None
    } else if s[0] == c {
        Some((Seq::empty(), s.subrange(1, s.len() as int)))
    } else {
        match cut(s.subrange(1, s.len() as int), c) {
            Some((head, tail)) => Some((seq![s[0]] + head, tail)),
            None => None,
        }
    }
}

/// What stands before and after the first `c` in `s`, put after `n` characters
/// that are not `c`.
pub proof fn lemma_cut_later(s: Seq<char>, c: char, n: int)
    requires
        0 <= n <= s.len(),
        forall|i: int| 0 <= i < n ==> s[i] != c,
    ensures
        cut(s, c) == match cut(s.subrange(n, s.len() as int), c) {
            Some((head, tail)) => Some((s.subrange(0, n) + head, tail)),
            None => None,
        },
    decreases n,
{
    if n == 0 {
        assert(s.subrange(0, s.len() as int) =~= s);
        match cut(s, c) {
            Some((head, tail)) => {
                assert(s.subrange(0, 0) + head =~= head);
            },
            None => {},
        }
    } else {
        let rest = s.subrange(1, s.len() as int);
        lemma_cut_later(rest, c, n - 1);
        assert(rest.subrange(n - 1, rest.len() as int) =~= s.subrange(n, s.len() as int));
        match cut(s.subrange(n, s.len() as int), c) {
            Some((head, tail)) => {
                assert(seq![s[0]] + (rest.subrange(0, n - 1) + head) =~= s.subrange(0, n) + head);
            },
            None => {},
        }
    }
}

/// What stands before and after the first `c` in `s`.
pub fn cut_at(s: &str, c: char) -> (r: Option<(String, String)>)
    ensures
        match r {
            Some((head, tail)) => cut(s@, c) == Some((head@, tail@)),
            None => cut(s@, c) is None,
        },
{
    let cs = chars_of(s);
    let mut i: usize = 0;
    while i < cs.len()
        invariant
            i <= cs@.len(),
            cs@ == s@,
            forall|j: int| 0 <= j < i ==> cs@[j] != c,
        decreases cs@.len() - i,
    {
        if cs[i] == c {
            proof {
                lemma_cut_later(s@, c, i as int);
                let rest = s@.subrange(i as int, s@.len() as int);
                assert(rest.subrange(1, rest.len() as int) =~= s@.subrange(
                    i + 1,
                    s@.len() as int,
                ));
                assert(s@.subrange(0, i as int) + Seq::<char>::empty() =~= s@.subrange(
                    0,
                    i as int,
                ));
            }
            return Some((text_between(&cs, 0, i), text_between(&cs, i + 1, cs.len())));
        }
        i = i + 1;
    }
    proof {
        lemma_cut_later(s@, c, s@.len() as int);
    }
    None
}

/// `s` with every occurrence of `needle` replaced, from the front and without
/// overlap.
pub open spec fn replaced(s: Seq<char>, needle: Seq<char>, by: Seq<char>) -> Seq<char>
    decreases s.len(),
{
    if s.len() == 0 || needle.len() == 0 {
        s
    } else if begins(s, needle) {
        by + replaced(s.subrange(needle.len() as int, s.len() as int), needle, by)
    } else {
        seq![s[0]] + replaced(s.subrange(1, s.len() as int), needle, by)
    }
}

/// `s` with every occurrence of `needle` replaced.
pub fn replace_all(s: &str, needle: &str, by: &str) -> (r: String)
    ensures
        r@ == replaced(s@, needle@, by@),
{
    let cs = chars_of(s);
    let ns = chars_of(needle);
    if ns.len() == 0 {
        return owned(s);
    }
    let mut out = String::new();
    let mut i: usize = 0;
    assert(cs@.subrange(0, cs@.len() as int) =~= s@);
    while i < cs.len()
        invariant
            i <= cs@.len(),
            cs@ == s@,
            ns@ == needle@,
            ns@.len() > 0,
            out@ + replaced(cs@.subrange(i as int, cs@.len() as int), needle@, by@) == replaced(
                s@,
                needle@,
                by@,
            ),
        decreases cs@.len() - i,
    {
        let ghost rest = cs@.subrange(i as int, cs@.len() as int);
        let ghost before = out@;
        let found = chars_at(&cs, &ns, i);
        proof {
            if found {
                assert(rest.subrange(0, ns@.len() as int) =~= cs@.subrange(
                    i as int,
                    i + ns@.len(),
                ));
            } else if begins(rest, ns@) {
                assert(cs@.subrange(i as int, i + ns@.len()) =~= rest.subrange(
                    0,
                    ns@.len() as int,
                ));
            }
        }
        if found {
            out.append(by);
            i = i + ns.len();
            assert(rest.subrange(ns@.len() as int, rest.len() as int) =~= cs@.subrange(
                i as int,
                cs@.len() as int,
            ));
            assert(before + (by@ + replaced(
                cs@.subrange(i as int, cs@.len() as int),
                needle@,
                by@,
            )) =~= out@ + replaced(cs@.subrange(i as int, cs@.len() as int), needle@, by@));
        } else {
            out.push(cs[i]);
            i = i + 1;
            assert(rest.subrange(1, rest.len() as int) =~= cs@.subrange(
                i as int,
                cs@.len() as int,
            ));
            assert(before + (seq![rest[0]] + replaced(
                cs@.subrange(i as int, cs@.len() as int),
                needle@,
                by@,
            )) =~= out@ + replaced(cs@.subrange(i as int, cs@.len() as int), needle@, by@));
        }
    }
    assert(out@ + Seq::<char>::empty() =~= out@);
    out
}

// ---------------------------------------------------------------------------
// Numbers
// ---------------------------------------------------------------------------

/// The decimal digit of a number below ten.
pub open spec fn digit(d: int) -> char {
    (48 + d) as char
}

/// `n` in decimal, without leading zeros.
pub open spec fn decimal(n: nat) -> Seq<char>
    decreases n,
{
    if n < 10 {
        seq![digit(n as int)]
    } else {
        decimal(n / 10).push(digit((n % 10) as int))
    }
}

/// `n` in decimal.
pub fn decimal_text_wide(n: u128) -> (r: String)
    ensures
        r@ == decimal(n as nat),
    decreases n,
{
    if n < 10 {
        let mut s = String::new();
        s.push((48u8 + n as u8) as char);
        assert(s@ =~= decimal(n as nat));
        s
    } else {
        let mut s = decimal_text_wide(n / 10);
        s.push((48u8 + (n % 10) as u8) as char);
        s
    }
}

/// `n` in decimal.
pub fn decimal_text(n: u64) -> (r: String)
    ensures
        r@ == decimal(n as nat),
{
    decimal_text_wide(n as u128)
}

/// `n` in decimal, with a minus sign where it is negative.
pub open spec fn signed_decimal(n: int) -> Seq<char> {
    if n < 0 {
        seq!['-'] + decimal((-n) as nat)
    } else {
        decimal(n as nat)
    }
}

/// `n` in decimal, with a minus sign where it is negative.
pub fn signed_decimal_text(n: i64) -> (r: String)
    ensures
        r@ == signed_decimal(n as int),
{
    if n < 0 {
        let mut s = String::new();
        s.push('-');
        let magnitude: u128 = (-(n as i128)) as u128;
        s.append(&decimal_text_wide(magnitude));
        assert(s@ =~= seq!['-'] + decimal((-n) as nat));
        s
    } else {
        decimal_text_wide(n as u128)
    }
}

/// All characters are decimal digits.
pub open spec fn all_digits(s: Seq<char>) -> bool {
    forall|i: int| 0 <= i < s.len() ==> '0' <= #[trigger] s[i] <= '9'
}

/// The value of a row of decimal digits.
pub open spec fn digits_value(s: Seq<char>) -> nat
    decreases s.len(),
{
    if s.len() == 0 {
        0
    } else {
        10 * digits_value(s.drop_last()) + ((s.last() as int - '0' as int) as nat)
    }
}

/// The digits of a number: what follows a leading plus sign.
pub open spec fn after_plus(s: Seq<char>) -> Seq<char> {
    if s.len() > 0 && s[0] == '+' {
        s.subrange(1, s.len() as int)
    } else {
        s
    }
}

/// The number that `s` writes in decimal: digits, of which there is at least
/// one, after a plus sign or none, with a value of at most `max`.
pub open spec fn number(s: Seq<char>, max: nat) -> Option<nat> {
    let ds = after_plus(s);
    if ds.len() > 0 && all_digits(ds) && digits_value(ds) <= max {
        Some(digits_value(ds))
    } else {
        None
    }
}

/// The value grows with the digits.
proof fn lemma_digits_value_grows(s: Seq<char>, n: int)
    requires
        0 <= n <= s.len(),
        all_digits(s),
    ensures
        digits_value(s.subrange(0, n)) <= digits_value(s),
    decreases s.len(),
{
    if n < s.len() {
        lemma_digits_value_grows(s.drop_last(), n);
        assert(s.drop_last().subrange(0, n) =~= s.subrange(0, n));
    } else {
        assert(s.subrange(0, n) =~= s);
    }
}

/// The number that `s` writes in decimal.
pub fn parse_number(s: &str, max: u64) -> (r: Option<u64>)
    ensures
        match r {
            Some(n) => number(s@, max as nat) == Some(n as nat),
            None => number(s@, max as nat) is None,
        },
{
    let cs = chars_of(s);
    let start: usize = if cs.len() > 0 && cs[0] == '+' {
        1
    } else {
        0
    };
    let ghost ds = after_plus(s@);
    assert(ds =~= cs@.subrange(start as int, cs@.len() as int));
    if cs.len() == start {
        return None;
    }
    let mut value: u64 = 0;
    let mut i: usize = start;
    assert(ds.subrange(0, 0) =~= Seq::<char>::empty());
    while i < cs.len()
        invariant
            start <= i <= cs@.len(),
            ds == after_plus(s@),
            ds =~= cs@.subrange(start as int, cs@.len() as int),
            all_digits(ds.subrange(0, i - start)),
            value == digits_value(ds.subrange(0, i - start)),
            value <= max,
        decreases cs@.len() - i,
    {
        let c = cs[i];
        let ghost k = i - start;
        assert(ds[k] == c);
        if c < '0' || c > '9' {
            return None;
        }
        let d: u64 = (c as u32 - '0' as u32) as u64;
        let ghost next = ds.subrange(0, k + 1);
        assert(next.drop_last() =~= ds.subrange(0, k));
        assert(next.last() == c);
        proof {
            if all_digits(ds) {
                lemma_digits_value_grows(ds, k + 1);
            }
        }
        let tens = match value.checked_mul(10) {
            Some(t) => t,
            None => {
                return None;
            },
        };
        let sum = match tens.checked_add(d) {
            Some(t) => t,
            None => {
                return None;
            },
        };
        if sum > max {
            return None;
        }
        value = sum;
        i = i + 1;
    }
    assert(ds.subrange(0, ds.len() as int) =~= ds);
    Some(value)
}

/// The lowercase hexadecimal digit of a number below sixteen.
pub open spec fn hex_digit(d: int) -> char {
    if d < 10 {
        (48 + d) as char
    } else {
        (87 + d) as char
    }
}

/// The bytes as lowercase hexadecimal, two digits each.
pub open spec fn hex(bytes: Seq<u8>) -> Seq<char> {
    Seq::new(
        2 * bytes.len(),
        |i: int|
            if i % 2 == 0 {
                hex_digit(bytes[i / 2] as int / 16)
            } else {
                hex_digit(bytes[i / 2] as int % 16)
            },
    )
}

/// The lowercase hexadecimal digit of `d`.
fn hex_char(d: u8) -> (r: char)
    requires
        d < 16,
    ensures
        r == hex_digit(d as int),
{
    if d < 10 {
        (48u8 + d) as char
    } else {
        (87u8 + d) as char
    }
}

/// The bytes as lowercase hexadecimal, two digits each.
pub fn hex_lower(bytes: &[u8]) -> (r: String)
    ensures
        r@ == hex(bytes@),
{
    let mut out = String::new();
    let mut i: usize = 0;
    while i < bytes.len()
        invariant
            i <= bytes@.len(),
            out@.len() == 2 * i,
            forall|j: int| 0 <= j < 2 * i ==> out@[j] == hex(bytes@)[j],
        decreases bytes@.len() - i,
    {
        let b: u8 = bytes[i];
        out.push(hex_char(b / 16));
        out.push(hex_char(b % 16));
        i = i + 1;
    }
    assert(out@ =~= hex(bytes@));
    out
}

// ---------------------------------------------------------------------------
// Order
// ---------------------------------------------------------------------------

/// `a` stands before `b` in the order of code points.
pub open spec fn less(a: Seq<char>, b: Seq<char>) -> bool
    decreases a.len(),
{
    if b.len() == 0 {
        false
    } else if a.len() == 0 {
        true
    } else if a[0] != b[0] {
        (a[0] as u32) < (b[0] as u32)
    } else {
        less(a.drop_first(), b.drop_first())
    }
}

/// Different characters have different code points.
proof fn lemma_code_points(c: char, d: char)
    ensures
        (c as u32 == d as u32) == (c == d),
{
}

/// The order is total.
pub proof fn lemma_less_total(a: Seq<char>, b: Seq<char>)
    ensures
        a == b || less(a, b) || less(b, a),
    decreases a.len(),
{
    if a.len() > 0 && b.len() > 0 && a[0] != b[0] {
        lemma_code_points(a[0], b[0]);
    } else if a.len() > 0 && b.len() > 0 {
        lemma_less_total(a.drop_first(), b.drop_first());
        if a.drop_first() == b.drop_first() {
            assert(a =~= seq![a[0]] + a.drop_first());
            assert(b =~= seq![b[0]] + b.drop_first());
        }
    } else if a.len() == 0 && b.len() == 0 {
        assert(a =~= b);
    }
}

/// Nothing stands before itself, and no two texts stand before each other.
pub proof fn lemma_less_strict(a: Seq<char>, b: Seq<char>)
    ensures
        !less(a, a),
        less(a, b) ==> !less(b, a),
    decreases a.len(),
{
    if a.len() > 0 {
        lemma_less_strict(a.drop_first(), b.drop_first());
    }
}

/// The order is transitive.
pub proof fn lemma_less_trans(a: Seq<char>, b: Seq<char>, c: Seq<char>)
    requires
        less(a, b),
        less(b, c),
    ensures
        less(a, c),
    decreases a.len(),
{
    if a.len() > 0 && b.len() > 0 && c.len() > 0 && a[0] == b[0] && b[0] == c[0] {
        lemma_less_trans(a.drop_first(), b.drop_first(), c.drop_first());
    }
}

/// Whether `a` stands before `b` in the order of code points.
pub fn text_less(a: &str, b: &str) -> (r: bool)
    ensures
        r == less(a@, b@),
{
    let x = chars_of(a);
    let y = chars_of(b);
    let mut i: usize = 0;
    assert(x@.subrange(0, x@.len() as int) =~= x@);
    assert(y@.subrange(0, y@.len() as int) =~= y@);
    loop
        invariant
            i <= x@.len(),
            i <= y@.len(),
            less(x@, y@) == less(
                x@.subrange(i as int, x@.len() as int),
                y@.subrange(i as int, y@.len() as int),
            ),
            x@ == a@,
            y@ == b@,
        decreases x@.len() - i,
    {
        if i == y.len() {
            return false;
        }
        if i == x.len() {
            return true;
        }
        if x[i] != y[i] {
            return (x[i] as u32) < (y[i] as u32);
        }
        proof {
            assert(x@.subrange(i as int, x@.len() as int).drop_first() =~= x@.subrange(
                i + 1,
                x@.len() as int,
            ));
            assert(y@.subrange(i as int, y@.len() as int).drop_first() =~= y@.subrange(
                i + 1,
                y@.len() as int,
            ));
        }
        i = i + 1;
    }
}

// ---------------------------------------------------------------------------
// Laws
// ---------------------------------------------------------------------------

proof fn lemma_decimal(n: nat)
    ensures
        decimal(n).len() > 0,
        all_digits(decimal(n)),
        digits_value(decimal(n)) == n,
    decreases n,
{
    reveal_with_fuel(digits_value, 2);
    if n < 10 {
        assert(decimal(n).drop_last() =~= Seq::<char>::empty());
        assert(digit(n as int) as int == 48 + n);
    } else {
        lemma_decimal(n / 10);
        let d = digit((n % 10) as int);
        assert(d as int == 48 + (n % 10));
        assert(decimal(n).drop_last() =~= decimal(n / 10));
        assert(decimal(n).last() == d);
    }
}

/// Law: a number that is written reads back, unless it is above the bound.
pub proof fn law_decimal_reads_back(n: nat, max: nat)
    ensures
        n <= max ==> number(decimal(n), max) == Some(n),
        n > max ==> number(decimal(n), max) is None,
        number(seq!['+'] + decimal(n), max) == number(decimal(n), max),
{
    lemma_decimal(n);
    assert('0' <= decimal(n)[0] <= '9');
    let plus = seq!['+'] + decimal(n);
    assert(plus.subrange(1, plus.len() as int) =~= decimal(n));
}

/// Law: what is read as a number holds nothing but digits behind its sign, and
/// none above the bound is read.
pub proof fn law_number_is_made_of_digits(s: Seq<char>, max: nat)
    requires
        number(s, max) is Some,
    ensures
        number(s, max)->0 <= max,
        forall|i: int|
            0 <= i < s.len() ==> '0' <= #[trigger] s[i] <= '9' || (i == 0 && s[i] == '+'),
        s.len() > 0,
{
    let ds = after_plus(s);
    assert forall|i: int| 0 <= i < s.len() implies '0' <= #[trigger] s[i] <= '9' || (i == 0 && s[i]
        == '+') by {
        if s[0] == '+' {
            if i > 0 {
                assert(ds[i - 1] == s[i]);
            }
        } else {
            assert(ds[i] == s[i]);
        }
    }
}

/// The number of a lowercase hexadecimal digit.
pub open spec fn hex_value(c: char) -> int {
    if '0' <= c && c <= '9' {
        c as int - '0' as int
    } else {
        c as int - 'a' as int + 10
    }
}

/// Law: two hexadecimal digits stand for each byte, the first for its upper half.
pub proof fn law_hex_stands_for_the_bytes(bytes: Seq<u8>, i: int)
    requires
        0 <= i < bytes.len(),
    ensures
        hex(bytes).len() == 2 * bytes.len(),
        16 * hex_value(hex(bytes)[2 * i]) + hex_value(hex(bytes)[2 * i + 1]) == bytes[i],
{
    let b = bytes[i] as int;
    assert((2 * i) / 2 == i && (2 * i) % 2 == 0);
    assert((2 * i + 1) / 2 == i && (2 * i + 1) % 2 == 1);
    assert(0 <= b / 16 < 16 && 0 <= b % 16 < 16);
    assert(hex_value(hex_digit(b / 16)) == b / 16);
    assert(hex_value(hex_digit(b % 16)) == b % 16);
}

/// Law: the pieces of a text do not hold the separator, and make up the text
/// when they are joined by it.
pub proof fn law_pieces_make_up_the_text(s: Seq<char>, sep: char)
    ensures
        joined(pieces(s, sep), seq![sep]) == s,
        forall|i: int| 0 <= i < pieces(s, sep).len() ==> !(#[trigger] pieces(s, sep)[i]).contains(sep),
    decreases s.len(),
{
    let all = pieces(s, sep);
    if s.len() > 0 {
        let before = pieces(s.drop_last(), sep);
        lemma_pieces_nonempty(s.drop_last(), sep);
        law_pieces_make_up_the_text(s.drop_last(), sep);
        let front = joined(before, seq![sep]);
        assert(front == s.drop_last());
        if s.last() == sep {
            assert(all.drop_last() =~= before);
            assert(joined(all, seq![sep]) =~= s);
        } else {
            assert(all.drop_last() =~= before.drop_last());
            assert(all.last() == before.last().push(s.last()));
            assert(joined(all, seq![sep]) =~= front.push(s.last()));
            assert(front.push(s.last()) =~= s);
            assert forall|i: int| 0 <= i < all.len() implies !(#[trigger] all[i]).contains(sep) by {
                if i == all.len() - 1 {
                    let last = before.last();
                    assert(last == before[before.len() - 1]);
                    assert forall|k: int| 0 <= k < all[i].len() implies all[i][k] != sep by {
                        if k < last.len() {
                            assert(last.contains(last[k]));
                        }
                    }
                } else {
                    assert(all[i] == before[i]);
                }
            }
        }
    }
}

/// Law: what is trimmed has no white space at its ends, and lost nothing else.
pub proof fn law_trim_takes_white_space_only(s: Seq<char>)
    ensures
        exists|a: int, b: int|
            {
                &&& 0 <= a <= b <= s.len()
                &&& trimmed(s) == #[trigger] s.subrange(a, b)
                &&& forall|i: int| 0 <= i < a ==> is_space(#[trigger] s[i])
                &&& forall|i: int| b <= i < s.len() ==> is_space(#[trigger] s[i])
            },
        trimmed(s).len() > 0 ==> !is_space(trimmed(s)[0]) && !is_space(trimmed(s).last()),
{
    lemma_trimmed_front(s);
    let f = trimmed_front(s);
    lemma_trimmed_back(f);
    let a = s.len() - f.len();
    let b = a + trimmed_back(f).len();
    assert(f =~= s.subrange(a, s.len() as int));
    assert(trimmed(s) =~= s.subrange(a, b));
    assert forall|i: int| b <= i < s.len() implies is_space(#[trigger] s[i]) by {
        assert(f[i - a] == s[i]);
    }
}

proof fn lemma_trimmed_front(s: Seq<char>)
    ensures
        trimmed_front(s).len() <= s.len(),
        trimmed_front(s) == s.subrange(s.len() - trimmed_front(s).len(), s.len() as int),
        forall|i: int| 0 <= i < s.len() - trimmed_front(s).len() ==> is_space(#[trigger] s[i]),
        trimmed_front(s).len() > 0 ==> !is_space(trimmed_front(s)[0]),
    decreases s.len(),
{
    let r = trimmed_front(s);
    if s.len() > 0 && is_space(s[0]) {
        let t = s.drop_first();
        lemma_trimmed_front(t);
        assert(r =~= s.subrange(s.len() - r.len(), s.len() as int));
        assert forall|i: int| 0 <= i < s.len() - r.len() implies is_space(#[trigger] s[i]) by {
            if i > 0 {
                assert(t[i - 1] == s[i]);
            }
        }
    } else {
        assert(s.subrange(0, s.len() as int) =~= s);
    }
}

proof fn lemma_trimmed_back(s: Seq<char>)
    ensures
        trimmed_back(s).len() <= s.len(),
        trimmed_back(s) == s.subrange(0, trimmed_back(s).len() as int),
        forall|i: int| trimmed_back(s).len() <= i < s.len() ==> is_space(#[trigger] s[i]),
        trimmed_back(s).len() > 0 ==> !is_space(trimmed_back(s).last()),
    decreases s.len(),
{
    let r = trimmed_back(s);
    if s.len() > 0 && is_space(s.last()) {
        let t = s.drop_last();
        lemma_trimmed_back(t);
        assert(r =~= s.subrange(0, r.len() as int));
        assert forall|i: int| r.len() <= i < s.len() implies is_space(#[trigger] s[i]) by {
            if i < t.len() {
                assert(t[i] == s[i]);
            }
        }
    } else {
        assert(s.subrange(0, s.len() as int) =~= s);
    }
}

/// Law: a text that is cut falls into what stands before the first occurrence of
/// the character and what stands behind it.
pub proof fn law_cut_is_at_the_first(s: Seq<char>, c: char)
    ensures
        match cut(s, c) {
            Some((head, tail)) => s == head + seq![c] + tail && !head.contains(c),
            None => !s.contains(c),
        },
    decreases s.len(),
{
    if s.len() > 0 && s[0] != c {
        let rest = s.subrange(1, s.len() as int);
        law_cut_is_at_the_first(rest, c);
        match cut(rest, c) {
            Some((head, tail)) => {
                let h = seq![s[0]] + head;
                assert(rest == head + seq![c] + tail);
                assert(s =~= seq![s[0]] + rest);
                assert(s =~= h + seq![c] + tail);
                assert forall|k: int| 0 <= k < h.len() implies h[k] != c by {
                    if k > 0 {
                        assert(head.contains(head[k - 1]));
                    }
                }
            },
            None => {
                assert forall|k: int| 0 <= k < s.len() implies s[k] != c by {
                    if k > 0 {
                        assert(rest.contains(rest[k - 1]));
                    }
                }
            },
        }
    } else if s.len() > 0 {
        assert(s =~= Seq::<char>::empty() + seq![c] + s.subrange(1, s.len() as int));
    }
}

/// Law: a text is replaced from the front: what stands before the first
/// occurrence stays, the occurrence gives way, and the rest is treated alike; a
/// text without an occurrence stays as it is.
pub proof fn law_replacing_works_from_the_front(
    before: Seq<char>,
    needle: Seq<char>,
    rest: Seq<char>,
    by: Seq<char>,
)
    requires
        needle.len() > 0,
        forall|at: int| 0 <= at < before.len() ==> !#[trigger] occurs_at(
            before + needle + rest,
            needle,
            at,
        ),
    ensures
        replaced(before + needle + rest, needle, by) == before + by + replaced(rest, needle, by),
    decreases before.len(),
{
    let s = before + needle + rest;
    let n = needle.len() as int;
    if before.len() == 0 {
        assert(s.subrange(0, n) =~= needle);
        assert(s.subrange(n, s.len() as int) =~= rest);
        assert(before + by =~= by);
    } else {
        let front = before.drop_first();
        let next = s.subrange(1, s.len() as int);
        assert(!occurs_at(s, needle, 0));
        assert(s.subrange(0, n).len() == n);
        assert(!begins(s, needle));
        assert(next =~= front + needle + rest);
        assert forall|at: int| 0 <= at < front.len() implies !#[trigger] occurs_at(
            front + needle + rest,
            needle,
            at,
        ) by {
            assert(!occurs_at(s, needle, at + 1));
            assert(s.subrange(at + 1, at + 1 + n) =~= next.subrange(at, at + n));
        }
        law_replacing_works_from_the_front(front, needle, rest, by);
        assert(seq![s[0]] + (front + by + replaced(rest, needle, by)) =~= before + by + replaced(
            rest,
            needle,
            by,
        ));
    }
}

/// Law: a text in which nothing is to be replaced stays as it is.
pub proof fn law_nothing_to_replace_changes_nothing(s: Seq<char>, needle: Seq<char>, by: Seq<char>)
    requires
        !occurs(s, needle),
    ensures
        replaced(s, needle, by) == s,
    decreases s.len(),
{
    if s.len() > 0 && needle.len() > 0 {
        let next = s.subrange(1, s.len() as int);
        if begins(s, needle) {
            assert(occurs_at(s, needle, 0));
        }
        if occurs(next, needle) {
            let at = choose|at: int| #[trigger] occurs_at(next, needle, at);
            assert(s.subrange(at + 1, at + 1 + needle.len()) =~= next.subrange(
                at,
                at + needle.len(),
            ));
            assert(occurs_at(s, needle, at + 1));
        }
        law_nothing_to_replace_changes_nothing(next, needle, by);
        assert(seq![s[0]] + next =~= s);
    }
}

/// Law: texts are ordered by the first character in which they differ; one that
/// the other starts with stands before it.
pub proof fn law_order_is_that_of_the_characters(
    common: Seq<char>,
    x: char,
    y: char,
    a: Seq<char>,
    b: Seq<char>,
)
    ensures
        (x as u32) < (y as u32) ==> less(common + seq![x] + a, common + seq![y] + b),
        (x as u32) < (y as u32) ==> !less(common + seq![y] + b, common + seq![x] + a),
        less(common, common + seq![x] + a),
        !less(common + seq![x] + a, common),
        !less(common, common),
    decreases common.len(),
{
    let p = common + seq![x] + a;
    let q = common + seq![y] + b;
    if common.len() == 0 {
        assert(p[0] == x);
        assert(q[0] == y);
    } else {
        let c = common.drop_first();
        assert(p.drop_first() =~= c + seq![x] + a);
        assert(q.drop_first() =~= c + seq![y] + b);
        assert(p[0] == common[0] && q[0] == common[0]);
        law_order_is_that_of_the_characters(c, x, y, a, b);
    }
}

/// The bytes that hexadecimal digits stand for.
pub open spec fn unhex(s: Seq<char>) -> Seq<u8> {
    Seq::new(s.len() / 2, |i: int| (16 * hex_value(s[2 * i]) + hex_value(s[2 * i + 1])) as u8)
}

/// Law: lower-case hexadecimal digits, an even number of them, are the digits of
/// the bytes that they stand for; and bytes have no other digits.
pub proof fn law_hex_digits_stand_for_bytes(s: Seq<char>, bytes: Seq<u8>)
    requires
        s.len() % 2 == 0,
        forall|i: int|
            0 <= i < s.len() ==> '0' <= #[trigger] s[i] <= '9' || 'a' <= s[i] <= 'f',
    ensures
        hex(unhex(s)) == s,
        unhex(s).len() * 2 == s.len(),
        forall|i: int|
            0 <= i < hex(bytes).len() ==> '0' <= #[trigger] hex(bytes)[i] <= '9' || 'a' <= hex(
                bytes,
            )[i] <= 'f',
{
    let t = hex(unhex(s));
    assert(t.len() == s.len());
    assert forall|i: int| 0 <= i < s.len() implies t[i] == s[i] by {
        let k = i / 2;
        let hi = hex_value(s[2 * k]);
        let lo = hex_value(s[2 * k + 1]);
        assert('0' <= s[2 * k] <= '9' || 'a' <= s[2 * k] <= 'f');
        assert('0' <= s[2 * k + 1] <= '9' || 'a' <= s[2 * k + 1] <= 'f');
        assert(0 <= hi < 16 && 0 <= lo < 16);
        let b = unhex(s)[k] as int;
        assert(b == 16 * hi + lo);
        assert(b / 16 == hi && b % 16 == lo);
        assert(hex_digit(hi) == s[2 * k]);
        assert(hex_digit(lo) == s[2 * k + 1]);
    }
    assert(t =~= s);
    assert forall|i: int| 0 <= i < hex(bytes).len() implies '0' <= #[trigger] hex(bytes)[i] <= '9'
        || 'a' <= hex(bytes)[i] <= 'f' by {
        let b = bytes[i / 2] as int;
        assert(0 <= b / 16 < 16 && 0 <= b % 16 < 16);
    }
}

} // verus!
