//! Tagged URNs: `media:` and `cap:` names made of sorted tags.
//!
//! A URN is a prefix, a colon and tags separated by semicolons. A tag is a bare
//! key (a marker) or `key=value`; a value that is not made of plain lowercase
//! characters stands in double quotes, with `\"` and `\\` as its escapes.
//! Letters outside quotes are read as lowercase. No key occurs twice, and the
//! canonical text lists the tags in the order of their keys.

use crate::text::{
    add_text, chars_of, joined, lemma_joined_front, lemma_less_strict, lemma_less_total,
    lemma_less_trans, less, owned, same_text, text_less, texts,
};
use vstd::prelude::*;

verus! {

broadcast use vstd::string::group_string_axioms;

// ---------------------------------------------------------------------------
// Model
// ---------------------------------------------------------------------------

/// A tag in the model: its key, and its value unless it is a marker.
pub ghost struct TagView {
    pub key: Seq<char>,
    pub value: Option<Seq<char>>,
}

/// A lowercase letter, a digit or one of `_ - / : .`.
pub open spec fn is_plain_char(c: char) -> bool {
    ('a' <= c && c <= 'z') || ('0' <= c && c <= '9') || c == '_' || c == '-' || c == '/' || c == ':'
        || c == '.'
}

/// `c` with an ASCII capital made small.
pub open spec fn lower(c: char) -> char {
    if 'A' <= c && c <= 'Z' {
        ((c as u32) + 32) as char
    } else {
        c
    }
}

/// A character that a key may be written with.
pub open spec fn is_key_char(c: char) -> bool {
    is_plain_char(c) || ('A' <= c && c <= 'Z')
}

/// A character that a value may be written with outside quotes.
pub open spec fn is_value_char(c: char) -> bool {
    is_key_char(c) || c == '*' || c == '?' || c == '!'
}

/// `s` with ASCII capitals made small.
pub open spec fn lowered(s: Seq<char>) -> Seq<char> {
    s.map_values(|c: char| lower(c))
}

/// How many characters at the front of `s` can belong to a key.
pub open spec fn key_span(s: Seq<char>) -> nat
    decreases s.len(),
{
    if s.len() > 0 && is_key_char(s[0]) {
        1 + key_span(s.drop_first())
    } else {
        0
    }
}

/// How many characters at the front of `s` can belong to an unquoted value.
pub open spec fn value_span(s: Seq<char>) -> nat
    decreases s.len(),
{
    if s.len() > 0 && is_value_char(s[0]) {
        1 + value_span(s.drop_first())
    } else {
        0
    }
}

/// What stands before the closing quote of `s`, unescaped, and what follows it.
pub open spec fn read_quoted(s: Seq<char>) -> Option<(Seq<char>, Seq<char>)>
    decreases s.len(),
{
    if s.len() == 0 {
        None
    } else if s[0] == '"' {
        Some((Seq::empty(), s.subrange(1, s.len() as int)))
    } else if s[0] == '\\' {
        if s.len() >= 2 && (s[1] == '"' || s[1] == '\\') {
            match read_quoted(s.subrange(2, s.len() as int)) {
                Some((v, rest)) => Some((seq![s[1]] + v, rest)),
                None => None,
            }
        } else {
            None
        }
    } else {
        match read_quoted(s.subrange(1, s.len() as int)) {
            Some((v, rest)) => Some((seq![s[0]] + v, rest)),
            None => None,
        }
    }
}

/// The value at the front of `s` and what follows it.
pub open spec fn read_value(s: Seq<char>) -> Option<(Seq<char>, Seq<char>)> {
    if s.len() > 0 && s[0] == '"' {
        read_quoted(s.subrange(1, s.len() as int))
    } else {
        let n = value_span(s) as int;
        if n == 0 {
            None
        } else {
            Some((lowered(s.subrange(0, n)), s.subrange(n, s.len() as int)))
        }
    }
}

/// The tag at the front of `s` and what follows it.
pub open spec fn read_tag(s: Seq<char>) -> Option<(TagView, Seq<char>)> {
    let k = key_span(s) as int;
    if k == 0 {
        None
    } else {
        let key = lowered(s.subrange(0, k));
        let rest = s.subrange(k, s.len() as int);
        if rest.len() > 0 && rest[0] == '=' {
            match read_value(rest.subrange(1, rest.len() as int)) {
                Some((v, after)) => Some((TagView { key, value: Some(v) }, after)),
                None => None,
            }
        } else {
            Some((TagView { key, value: None }, rest))
        }
    }
}

/// The tags of `s` as written, or `None` where `s` is no list of tags.
pub open spec fn read_tags(s: Seq<char>) -> Option<Seq<TagView>>
    decreases s.len(),
{
    if s.len() == 0 {
        Some(Seq::empty())
    } else {
        match read_tag(s) {
            None => None,
            Some((t, rest)) => if rest.len() == 0 {
                Some(seq![t])
            } else if rest[0] == ';' && rest.len() <= s.len() {
                match read_tags(rest.subrange(1, rest.len() as int)) {
                    Some(ts) => Some(seq![t] + ts),
                    None => None,
                }
            } else {
                None
            },
        }
    }
}

/// `t` put into the sorted list `ts`; `None` where its key is already there.
pub open spec fn insert_tag(ts: Seq<TagView>, t: TagView) -> Option<Seq<TagView>>
    decreases ts.len(),
{
    if ts.len() == 0 {
        Some(seq![t])
    } else if t.key == ts[0].key {
        None
    } else if less(t.key, ts[0].key) {
        Some(seq![t] + ts)
    } else {
        match insert_tag(ts.drop_first(), t) {
            Some(r) => Some(seq![ts[0]] + r),
            None => None,
        }
    }
}

/// The tags in the order of their keys; `None` where a key occurs twice.
pub open spec fn collect_tags(ts: Seq<TagView>) -> Option<Seq<TagView>>
    decreases ts.len(),
{
    if ts.len() == 0 {
        Some(Seq::empty())
    } else {
        match collect_tags(ts.drop_last()) {
            Some(r) => insert_tag(r, ts.last()),
            None => None,
        }
    }
}

/// The tags of the URN `s` with prefix `prefix`, sorted.
pub open spec fn parse_urn(prefix: Seq<char>, s: Seq<char>) -> Option<Seq<TagView>> {
    if s.len() > prefix.len() && lowered(s.subrange(0, prefix.len() as int)) == prefix
        && s[prefix.len() as int] == ':' {
        match read_tags(s.subrange(prefix.len() as int + 1, s.len() as int)) {
            Some(ts) => collect_tags(ts),
            None => None,
        }
    } else {
        None
    }
}

/// A value that can be written without quotes.
pub open spec fn is_bare(v: Seq<char>) -> bool {
    v.len() > 0 && forall|i: int|
        0 <= i < v.len() ==> is_plain_char(#[trigger] v[i]) || v[i] == '*' || v[i] == '?' || v[i]
            == '!'
}

/// `v` with a backslash before each quote and backslash.
pub open spec fn escaped(v: Seq<char>) -> Seq<char>
    decreases v.len(),
{
    if v.len() == 0 {
        Seq::empty()
    } else if v.last() == '"' || v.last() == '\\' {
        escaped(v.drop_last()).push('\\').push(v.last())
    } else {
        escaped(v.drop_last()).push(v.last())
    }
}

/// A value as it is written.
pub open spec fn write_value(v: Seq<char>) -> Seq<char> {
    if is_bare(v) {
        v
    } else {
        seq!['"'] + escaped(v) + seq!['"']
    }
}

/// A tag as it is written.
pub open spec fn write_tag(t: TagView) -> Seq<char> {
    match t.value {
        None => t.key,
        Some(v) => t.key + seq!['='] + write_value(v),
    }
}

/// The tags as they are written, separated by semicolons.
pub open spec fn write_tags(ts: Seq<TagView>) -> Seq<char> {
    joined(ts.map_values(|t: TagView| write_tag(t)), seq![';'])
}

/// The canonical text of a URN.
pub open spec fn write_urn(prefix: Seq<char>, ts: Seq<TagView>) -> Seq<char> {
    prefix + seq![':'] + write_tags(ts)
}

/// Keys are not empty, hold plain characters only, and stand in order.
pub open spec fn tags_wf(ts: Seq<TagView>) -> bool {
    &&& forall|i: int| 0 <= i < ts.len() ==> (#[trigger] ts[i]).key.len() > 0
    &&& forall|i: int, j: int|
        0 <= i < ts.len() && 0 <= j < ts[i].key.len() ==> is_plain_char(#[trigger] ts[i].key[j])
    &&& forall|i: int, j: int|
        0 <= i < j < ts.len() ==> less((#[trigger] ts[i]).key, (#[trigger] ts[j]).key)
}

/// The value of `key`: `None` where there is no such tag, `Some(None)` where it
/// is a marker.
pub open spec fn lookup(ts: Seq<TagView>, key: Seq<char>) -> Option<Option<Seq<char>>>
    decreases ts.len(),
{
    if ts.len() == 0 {
        None
    } else if ts.last().key == key {
        Some(ts.last().value)
    } else {
        lookup(ts.drop_last(), key)
    }
}

/// Whether an instance's entry for a key meets a pattern's value for it: `?`
/// asks nothing, `!` asks that the key be missing, `*` and a marker ask that it
/// be there, any other value asks for exactly that value.
pub open spec fn value_meets(
    pattern: Option<Seq<char>>,
    instance: Option<Option<Seq<char>>>,
) -> bool {
    match pattern {
        None => instance is Some,
        Some(v) => if v == seq!['?'] {
            true
        } else if v == seq!['!'] {
            instance is None
        } else if v == seq!['*'] {
            instance is Some
        } else {
            instance == Some(Some(v))
        },
    }
}

/// Every tag of the pattern is met by the instance.
pub open spec fn tags_accept(pattern: Seq<TagView>, instance: Seq<TagView>) -> bool {
    forall|i: int|
        0 <= i < pattern.len() ==> value_meets(
            (#[trigger] pattern[i]).value,
            lookup(instance, pattern[i].key),
        )
}

/// What one tag adds to the specificity: 3 for a marker or an exact value, 2
/// for `*`, 1 for `!`, 0 for `?`.
pub open spec fn tag_score(value: Option<Seq<char>>) -> nat {
    match value {
        None => 3,
        Some(v) => if v == seq!['?'] {
            0
        } else if v == seq!['!'] {
            1
        } else if v == seq!['*'] {
            2
        } else {
            3
        },
    }
}

/// The sum of the tags' scores.
pub open spec fn tags_score(ts: Seq<TagView>) -> nat
    decreases ts.len(),
{
    if ts.len() == 0 {
        0
    } else {
        tags_score(ts.drop_last()) + tag_score(ts.last().value)
    }
}

// ---------------------------------------------------------------------------
// Tags and the reader
// ---------------------------------------------------------------------------

/// One tag of a URN: a key, and a value unless it is a marker.
#[derive(Debug, PartialEq, Eq)]
pub struct Tag {
    pub key: String,
    pub value: Option<String>,
}

impl View for Tag {
    type V = TagView;

    open spec fn view(&self) -> TagView {
        TagView {
            key: self.key@,
            value: match self.value {
                Some(v) => Some(v@),
                None => None,
            },
        }
    }
}

impl Tag {
    /// A copy of the tag.
    pub fn copied(&self) -> (r: Tag)
        ensures
            r@ == self@,
    {
        Tag {
            key: self.key.clone(),
            value: match &self.value {
                Some(v) => Some(v.clone()),
                None => None,
            },
        }
    }
}

/// The models of a list of tags.
pub open spec fn tag_views(v: Seq<Tag>) -> Seq<TagView> {
    Seq::new(v.len(), |i: int| v[i]@)
}

/// `s` from position `at` on.
pub open spec fn from_at(s: Seq<char>, at: int) -> Seq<char> {
    s.subrange(at, s.len() as int)
}

fn plain_char(c: char) -> (r: bool)
    ensures
        r == is_plain_char(c),
{
    ('a' <= c && c <= 'z') || ('0' <= c && c <= '9') || c == '_' || c == '-' || c == '/' || c == ':'
        || c == '.'
}

fn key_char(c: char) -> (r: bool)
    ensures
        r == is_key_char(c),
{
    plain_char(c) || ('A' <= c && c <= 'Z')
}

fn value_char(c: char) -> (r: bool)
    ensures
        r == is_value_char(c),
{
    key_char(c) || c == '*' || c == '?' || c == '!'
}

/// `c` with an ASCII capital made small.
pub fn lower_char(c: char) -> (r: char)
    ensures
        r == lower(c),
{
    if 'A' <= c && c <= 'Z' {
        ((c as u8) + 32u8) as char
    } else {
        c
    }
}

/// `cs[from..to]` with ASCII capitals made small.
fn lower_between(cs: &Vec<char>, from: usize, to: usize) -> (r: String)
    requires
        from <= to <= cs@.len(),
    ensures
        r@ == lowered(cs@.subrange(from as int, to as int)),
{
    let mut out = String::new();
    let mut i: usize = from;
    while i < to
        invariant
            from <= i <= to <= cs@.len(),
            out@ == lowered(cs@.subrange(from as int, i as int)),
        decreases to - i,
    {
        out.push(lower_char(cs[i]));
        assert(out@ =~= lowered(cs@.subrange(from as int, i + 1)));
        i = i + 1;
    }
    out
}

/// Where the key that starts at `at` ends.
fn key_end(cs: &Vec<char>, at: usize) -> (r: usize)
    requires
        at <= cs@.len(),
    ensures
        at <= r <= cs@.len(),
        r == at + key_span(from_at(cs@, at as int)),
{
    let mut i: usize = at;
    while i < cs.len() && key_char(cs[i])
        invariant
            at <= i <= cs@.len(),
            key_span(from_at(cs@, at as int)) == (i - at) + key_span(from_at(cs@, i as int)),
        decreases cs@.len() - i,
    {
        assert(from_at(cs@, i as int).drop_first() =~= from_at(cs@, i + 1));
        i = i + 1;
    }
    i
}

/// Where the unquoted value that starts at `at` ends.
fn value_end(cs: &Vec<char>, at: usize) -> (r: usize)
    requires
        at <= cs@.len(),
    ensures
        at <= r <= cs@.len(),
        r == at + value_span(from_at(cs@, at as int)),
{
    let mut i: usize = at;
    while i < cs.len() && value_char(cs[i])
        invariant
            at <= i <= cs@.len(),
            value_span(from_at(cs@, at as int)) == (i - at) + value_span(from_at(cs@, i as int)),
        decreases cs@.len() - i,
    {
        assert(from_at(cs@, i as int).drop_first() =~= from_at(cs@, i + 1));
        i = i + 1;
    }
    i
}

/// A reading with `front` put before what was read.
spec fn with_front(front: Seq<char>, read: Option<(Seq<char>, Seq<char>)>) -> Option<
    (Seq<char>, Seq<char>),
> {
    match read {
        Some((v, rest)) => Some((front + v, rest)),
        None => None,
    }
}

/// Reads up to the closing quote from `at` on; the result is the text and the
/// position behind the quote.
fn quoted_at(cs: &Vec<char>, at: usize) -> (r: Option<(String, usize)>)
    requires
        at <= cs@.len(),
    ensures
        match read_quoted(from_at(cs@, at as int)) {
            Some((v, rest)) => r is Some && (r->0).0@ == v && at < (r->0).1 <= cs@.len() && rest
                == from_at(cs@, (r->0).1 as int),
            None => r is None,
        },
{
    let mut out = String::new();
    let mut i: usize = at;
    let ghost whole = read_quoted(from_at(cs@, at as int));
    proof {
        if let Some((v, rest)) = whole {
            assert(Seq::<char>::empty() + v =~= v);
        }
    }
    while i < cs.len()
        invariant
            at <= i <= cs@.len(),
            whole == read_quoted(from_at(cs@, at as int)),
            whole == with_front(out@, read_quoted(from_at(cs@, i as int))),
        decreases cs@.len() - i,
    {
        let ghost here = from_at(cs@, i as int);
        assert(here[0] == cs@[i as int]);
        assert(here.subrange(1, here.len() as int) =~= from_at(cs@, i + 1));
        let ghost before = out@;
        if cs[i] == '"' {
            assert(out@ + Seq::<char>::empty() =~= out@);
            return Some((out, i + 1));
        }
        if cs[i] == '\\' {
            if cs.len() - i < 2 {
                return None;
            }
            assert(here[1] == cs@[i + 1]);
            if cs[i + 1] != '"' && cs[i + 1] != '\\' {
                return None;
            }
            assert(here.subrange(2, here.len() as int) =~= from_at(cs@, i + 2));
            out.push(cs[i + 1]);
            proof {
                if let Some((v, rest)) = read_quoted(from_at(cs@, i + 2)) {
                    assert(before + (seq![cs@[i + 1]] + v) =~= out@ + v);
                }
            }
            i = i + 2;
        } else {
            out.push(cs[i]);
            proof {
                if let Some((v, rest)) = read_quoted(from_at(cs@, i + 1)) {
                    assert(before + (seq![cs@[i as int]] + v) =~= out@ + v);
                }
            }
            i = i + 1;
        }
    }
    None
}

/// Reads the tag at `at`; the result is the tag and the position behind it.
fn tag_at(cs: &Vec<char>, at: usize) -> (r: Option<(Tag, usize)>)
    requires
        at <= cs@.len(),
    ensures
        match read_tag(from_at(cs@, at as int)) {
            Some((t, rest)) => r is Some && (r->0).0@ == t && at < (r->0).1 <= cs@.len() && rest
                == from_at(cs@, (r->0).1 as int),
            None => r is None,
        },
{
    let ghost s = from_at(cs@, at as int);
    let k = key_end(cs, at);
    if k == at {
        return None;
    }
    let key = lower_between(cs, at, k);
    assert(s.subrange(0, k - at) =~= cs@.subrange(at as int, k as int));
    let ghost rest = s.subrange(k - at, s.len() as int);
    assert(rest =~= from_at(cs@, k as int));
    if k < cs.len() && cs[k] == '=' {
        let start: usize = k + 1;
        let ghost vs = rest.subrange(1, rest.len() as int);
        assert(vs =~= from_at(cs@, start as int));
        if start < cs.len() && cs[start] == '"' {
            assert(vs.subrange(1, vs.len() as int) =~= from_at(cs@, start + 1));
            match quoted_at(cs, start + 1) {
                Some((v, end)) => Some((Tag { key, value: Some(v) }, end)),
                None => None,
            }
        } else {
            let end = value_end(cs, start);
            if end == start {
                return None;
            }
            let v = lower_between(cs, start, end);
            assert(vs.subrange(0, end - start) =~= cs@.subrange(start as int, end as int));
            assert(vs.subrange(end - start, vs.len() as int) =~= from_at(cs@, end as int));
            Some((Tag { key, value: Some(v) }, end))
        }
    } else {
        Some((Tag { key, value: None }, k))
    }
}

/// A list of tags with `front` put before it.
spec fn with_tags(front: Seq<TagView>, read: Option<Seq<TagView>>) -> Option<Seq<TagView>> {
    match read {
        Some(ts) => Some(front + ts),
        None => None,
    }
}

/// Reads the list of tags that starts at `at`.
fn tags_at(cs: &Vec<char>, at: usize) -> (r: Option<Vec<Tag>>)
    requires
        at <= cs@.len(),
    ensures
        match read_tags(from_at(cs@, at as int)) {
            Some(ts) => r is Some && tag_views(r->0@) == ts,
            None => r is None,
        },
{
    let mut out: Vec<Tag> = Vec::new();
    let mut i: usize = at;
    let ghost whole = read_tags(from_at(cs@, at as int));
    proof {
        if let Some(ts) = whole {
            assert(tag_views(out@) + ts =~= ts);
        }
    }
    while i < cs.len()
        invariant
            at <= i <= cs@.len(),
            whole == read_tags(from_at(cs@, at as int)),
            whole == with_tags(tag_views(out@), read_tags(from_at(cs@, i as int))),
        decreases cs@.len() - i,
    {
        let ghost here = from_at(cs@, i as int);
        let ghost before = tag_views(out@);
        match tag_at(cs, i) {
            None => {
                return None;
            },
            Some((t, end)) => {
                let ghost rest = from_at(cs@, end as int);
                let ghost tv = t@;
                out.push(t);
                assert(tag_views(out@) =~= before.push(tv));
                if end == cs.len() {
                    assert(tag_views(out@) =~= before + seq![tv]);
                    return Some(out);
                }
                assert(rest[0] == cs@[end as int]);
                if cs[end] != ';' {
                    return None;
                }
                assert(rest.subrange(1, rest.len() as int) =~= from_at(cs@, end + 1));
                proof {
                    if let Some(ts) = read_tags(from_at(cs@, end + 1)) {
                        assert(before + (seq![tv] + ts) =~= tag_views(out@) + ts);
                    }
                }
                i = end + 1;
            },
        }
    }
    assert(tag_views(out@) + Seq::<TagView>::empty() =~= tag_views(out@));
    Some(out)
}

/// Puts `t` into the sorted list `v`, unless its key is already there.
fn insert_sorted(v: &mut Vec<Tag>, t: Tag) -> (done: bool)
    ensures
        match insert_tag(tag_views(old(v)@), t@) {
            Some(ts) => done && tag_views(final(v)@) == ts,
            None => !done && final(v)@ == old(v)@,
        },
{
    let mut i: usize = 0;
    let ghost all = tag_views(v@);
    let ghost whole = insert_tag(all, t@);
    proof {
        assert(all.subrange(0, all.len() as int) =~= all);
        if let Some(ts) = whole {
            assert(all.subrange(0, 0) + ts =~= ts);
        }
    }
    while i < v.len()
        invariant
            i <= v@.len(),
            v@ == old(v)@,
            all == tag_views(v@),
            whole == insert_tag(all, t@),
            whole == with_tags(
                all.subrange(0, i as int),
                insert_tag(all.subrange(i as int, all.len() as int), t@),
            ),
        decreases v@.len() - i,
    {
        let ghost here = all.subrange(i as int, all.len() as int);
        assert(here[0] == all[i as int]);
        if same_text(&t.key, &v[i].key) {
            return false;
        }
        if text_less(&t.key, &v[i].key) {
            let ghost tv = t@;
            v.insert(i, t);
            assert(tag_views(v@) =~= all.subrange(0, i as int) + (seq![tv] + here));
            return true;
        }
        assert(here.drop_first() =~= all.subrange(i + 1, all.len() as int));
        proof {
            if let Some(ts) = insert_tag(all.subrange(i + 1, all.len() as int), t@) {
                assert(all.subrange(0, i as int) + (seq![here[0]] + ts) =~= all.subrange(0, i + 1)
                    + ts);
            }
        }
        i = i + 1;
    }
    let ghost tv = t@;
    v.push(t);
    assert(tag_views(v@) =~= all.subrange(0, i as int) + seq![tv]);
    true
}

/// Sorts the tags by key; `None` where a key occurs twice.
fn sorted_tags(ts: Vec<Tag>) -> (r: Option<Vec<Tag>>)
    ensures
        match collect_tags(tag_views(ts@)) {
            Some(c) => r is Some && tag_views(r->0@) == c,
            None => r is None,
        },
{
    let mut out: Vec<Tag> = Vec::new();
    let mut i: usize = 0;
    let ghost all = tag_views(ts@);
    assert(tag_views(out@) =~= Seq::<TagView>::empty());
    assert(all.subrange(0, 0) =~= Seq::<TagView>::empty());
    while i < ts.len()
        invariant
            i <= ts@.len(),
            all == tag_views(ts@),
            collect_tags(all.subrange(0, i as int)) == Some(tag_views(out@)),
        decreases ts@.len() - i,
    {
        assert(all.subrange(0, i + 1).drop_last() =~= all.subrange(0, i as int));
        let t = ts[i].copied();
        assert(all.subrange(0, i + 1).last() == t@);
        if !insert_sorted(&mut out, t) {
            proof {
                lemma_collect_stuck(all, i + 1);
            }
            return None;
        }
        i = i + 1;
    }
    assert(all.subrange(0, all.len() as int) =~= all);
    Some(out)
}

/// Once a key has occurred twice, no longer list can be sorted.
proof fn lemma_collect_stuck(all: Seq<TagView>, upto: int)
    requires
        0 <= upto <= all.len(),
        collect_tags(all.subrange(0, upto)) is None,
    ensures
        collect_tags(all) is None,
    decreases all.len() - upto,
{
    if upto == all.len() {
        assert(all.subrange(0, upto) =~= all);
    } else {
        assert(all.subrange(0, upto + 1).drop_last() =~= all.subrange(0, upto));
        lemma_collect_stuck(all, upto + 1);
    }
}

/// The sorted tags of the URN `s` with prefix `prefix`, or `None` where `s` is
/// no such URN.
pub fn parse_tags(prefix: &str, s: &str) -> (r: Option<Vec<Tag>>)
    ensures
        match parse_urn(prefix@, s@) {
            Some(ts) => r is Some && tag_views(r->0@) == ts,
            None => r is None,
        },
{
    let cs = chars_of(s);
    let p = chars_of(prefix);
    if cs.len() <= p.len() {
        return None;
    }
    let head = lower_between(&cs, 0, p.len());
    if !same_text(&head, prefix) || cs[p.len()] != ':' {
        return None;
    }
    match tags_at(&cs, p.len() + 1) {
        Some(ts) => sorted_tags(ts),
        None => None,
    }
}

// ---------------------------------------------------------------------------
// The writer
// ---------------------------------------------------------------------------

/// Whether `v` can be written without quotes.
fn bare(v: &Vec<char>) -> (r: bool)
    ensures
        r == is_bare(v@),
{
    if v.len() == 0 {
        return false;
    }
    let mut i: usize = 0;
    while i < v.len()
        invariant
            i <= v@.len(),
            forall|j: int|
                0 <= j < i ==> is_plain_char(#[trigger] v@[j]) || v@[j] == '*' || v@[j] == '?'
                    || v@[j] == '!',
        decreases v@.len() - i,
    {
        let c = v[i];
        if !(plain_char(c) || c == '*' || c == '?' || c == '!') {
            assert(!(is_plain_char(v@[i as int]) || v@[i as int] == '*' || v@[i as int] == '?'
                || v@[i as int] == '!'));
            return false;
        }
        i = i + 1;
    }
    true
}

/// The value as it is written.
fn value_text(v: &str) -> (r: String)
    ensures
        r@ == write_value(v@),
{
    let cs = chars_of(v);
    if bare(&cs) {
        return owned(v);
    }
    let mut out = String::new();
    out.push('"');
    let mut i: usize = 0;
    assert(cs@.subrange(0, 0) =~= Seq::<char>::empty());
    assert(out@ =~= seq!['"'] + escaped(cs@.subrange(0, 0)));
    while i < cs.len()
        invariant
            i <= cs@.len(),
            out@ == seq!['"'] + escaped(cs@.subrange(0, i as int)),
        decreases cs@.len() - i,
    {
        assert(cs@.subrange(0, i + 1).drop_last() =~= cs@.subrange(0, i as int));
        if cs[i] == '"' || cs[i] == '\\' {
            out.push('\\');
        }
        out.push(cs[i]);
        assert(out@ =~= seq!['"'] + escaped(cs@.subrange(0, i + 1)));
        i = i + 1;
    }
    assert(cs@.subrange(0, cs@.len() as int) =~= cs@);
    out.push('"');
    assert(out@ =~= seq!['"'] + escaped(v@) + seq!['"']);
    out
}

/// The tag as it is written.
fn tag_text(t: &Tag) -> (r: String)
    ensures
        r@ == write_tag(t@),
{
    let mut out = t.key.clone();
    match &t.value {
        None => {},
        Some(v) => {
            out.push('=');
            add_text(&mut out, &value_text(v));
            assert(out@ =~= t.key@ + seq!['='] + write_value(v@));
        },
    }
    out
}

/// The canonical text of the URN with these tags.
pub fn urn_text(prefix: &str, ts: &Vec<Tag>) -> (r: String)
    ensures
        r@ == write_urn(prefix@, tag_views(ts@)),
{
    let mut parts: Vec<String> = Vec::new();
    let ghost want = tag_views(ts@).map_values(|t: TagView| write_tag(t));
    let mut i: usize = 0;
    while i < ts.len()
        invariant
            i <= ts@.len(),
            parts@.len() == i,
            want == tag_views(ts@).map_values(|t: TagView| write_tag(t)),
            forall|j: int| 0 <= j < i ==> (#[trigger] parts@[j])@ == want[j],
        decreases ts@.len() - i,
    {
        parts.push(tag_text(&ts[i]));
        i = i + 1;
    }
    assert(texts(parts@) =~= want);
    let mut out = owned(prefix);
    out.push(':');
    let mut sep = String::new();
    sep.push(';');
    assert(sep@ =~= seq![';']);
    add_text(&mut out, &crate::text::join(&parts, &sep));
    assert(out@ =~= write_urn(prefix@, tag_views(ts@)));
    out
}

// ---------------------------------------------------------------------------
// Matching
// ---------------------------------------------------------------------------

/// The position of the tag with key `key`.
fn find_tag(ts: &Vec<Tag>, key: &str) -> (r: Option<usize>)
    ensures
        match r {
            Some(i) => i < ts@.len() && lookup(tag_views(ts@), key@) == Some(ts@[i as int]@.value),
            None => lookup(tag_views(ts@), key@) is None,
        },
{
    let mut n: usize = ts.len();
    let ghost all = tag_views(ts@);
    assert(all.subrange(0, all.len() as int) =~= all);
    while n > 0
        invariant
            n <= ts@.len(),
            all == tag_views(ts@),
            lookup(all, key@) == lookup(all.subrange(0, n as int), key@),
        decreases n,
    {
        assert(all.subrange(0, n as int).drop_last() =~= all.subrange(0, n - 1));
        if same_text(&ts[n - 1].key, key) {
            return Some(n - 1);
        }
        n = n - 1;
    }
    None
}

/// The special values, as they are written.
fn is_char(v: &str, c: char) -> (r: bool)
    ensures
        r == (v@ == seq![c]),
{
    let cs = chars_of(v);
    let r = cs.len() == 1 && cs[0] == c;
    assert(r ==> v@ =~= seq![c]);
    r
}

/// Whether every tag of the pattern is met by the instance.
pub fn accepts_tags(pattern: &Vec<Tag>, instance: &Vec<Tag>) -> (r: bool)
    ensures
        r == tags_accept(tag_views(pattern@), tag_views(instance@)),
{
    let mut i: usize = 0;
    while i < pattern.len()
        invariant
            i <= pattern@.len(),
            forall|j: int|
                0 <= j < i ==> value_meets(
                    (#[trigger] tag_views(pattern@)[j]).value,
                    lookup(tag_views(instance@), tag_views(pattern@)[j].key),
                ),
        decreases pattern@.len() - i,
    {
        let found = find_tag(instance, &pattern[i].key);
        let ok = match &pattern[i].value {
            None => found.is_some(),
            Some(v) => if is_char(v, '?') {
                true
            } else if is_char(v, '!') {
                found.is_none()
            } else if is_char(v, '*') {
                found.is_some()
            } else {
                match found {
                    None => false,
                    Some(k) => match &instance[k].value {
                        Some(w) => same_text(v, w),
                        None => false,
                    },
                }
            },
        };
        assert(ok == value_meets(
            tag_views(pattern@)[i as int].value,
            lookup(tag_views(instance@), tag_views(pattern@)[i as int].key),
        ));
        if !ok {
            return false;
        }
        i = i + 1;
    }
    true
}

/// The sum of the tags' scores.
pub fn score_tags(ts: &Vec<Tag>) -> (r: u128)
    ensures
        r == tags_score(tag_views(ts@)),
{
    let mut total: u128 = 0;
    let mut i: usize = 0;
    let ghost all = tag_views(ts@);
    while i < ts.len()
        invariant
            i <= ts.len(),
            all == tag_views(ts@),
            total == tags_score(all.subrange(0, i as int)),
            total <= 3 * i,
        decreases ts@.len() - i,
    {
        assert(all.subrange(0, i + 1).drop_last() =~= all.subrange(0, i as int));
        let score: u128 = match &ts[i].value {
            None => 3,
            Some(v) => if is_char(v, '?') {
                0
            } else if is_char(v, '!') {
                1
            } else if is_char(v, '*') {
                2
            } else {
                3
            },
        };
        total = total + score;
        i = i + 1;
    }
    assert(all.subrange(0, all.len() as int) =~= all);
    total
}

// ---------------------------------------------------------------------------
// Media URNs
// ---------------------------------------------------------------------------

/// A text that is not a URN of the kind that was asked for.
#[derive(Debug, Clone, Copy, PartialEq, Eq, Structural)]
pub struct UrnError;

impl UrnError {
    /// The error as a message.
    pub fn to_string(&self) -> (r: String)
        ensures
            r@ == "malformed URN"@,
    {
        owned("malformed URN")
    }
}

/// A media URN: the name of a kind of data.
#[derive(Debug, PartialEq, Eq)]
pub struct MediaUrn {
    pub tags: Vec<Tag>,
}

impl View for MediaUrn {
    type V = Seq<TagView>;

    open spec fn view(&self) -> Seq<TagView> {
        tag_views(self.tags@)
    }
}

/// The tags that the media URN `s` is read into.
pub open spec fn media_parse(s: Seq<char>) -> Option<Seq<TagView>> {
    parse_urn("media"@, s)
}

/// The canonical text of a media URN.
pub open spec fn media_text(ts: Seq<TagView>) -> Seq<char> {
    write_urn("media"@, ts)
}

impl MediaUrn {
    /// The tags are sorted by plain keys, none of them twice.
    pub open spec fn wf(&self) -> bool {
        tags_wf(self@)
    }

    /// Reads a media URN.
    pub fn from_string(s: &str) -> (r: Result<MediaUrn, UrnError>)
        ensures
            match media_parse(s@) {
                Some(ts) => r is Ok && r->Ok_0@ == ts && r->Ok_0.wf(),
                None => r == Err::<MediaUrn, UrnError>(UrnError),
            },
    {
        match parse_tags("media", s) {
            Some(tags) => {
                proof {
                    law_parsed_tags_are_sorted("media"@, s@);
                }
                Ok(MediaUrn { tags })
            },
            None => Err(UrnError),
        }
    }

    /// The canonical text.
    pub fn to_string(&self) -> (r: String)
        ensures
            r@ == media_text(self@),
    {
        urn_text("media", &self.tags)
    }

    /// Whether this URN, read as a pattern, accepts `instance`.
    pub fn accepts(&self, instance: &MediaUrn) -> (r: bool)
        ensures
            r == tags_accept(self@, instance@),
    {
        accepts_tags(&self.tags, &instance.tags)
    }

    /// Whether `pattern` accepts this URN.
    pub fn conforms_to(&self, pattern: &MediaUrn) -> (r: bool)
        ensures
            r == tags_accept(pattern@, self@),
    {
        accepts_tags(&pattern.tags, &self.tags)
    }

    /// Whether the two URNs have the same tags.
    pub fn is_equivalent(&self, other: &MediaUrn) -> (r: bool)
        ensures
            r == (self@ == other@),
    {
        same_tags(&self.tags, &other.tags)
    }

    /// How narrow the URN is.
    pub fn specificity(&self) -> (r: u128)
        ensures
            r == tags_score(self@),
    {
        score_tags(&self.tags)
    }

    /// Whether the URN has a tag with this key.
    pub fn has_tag(&self, key: &str) -> (r: bool)
        ensures
            r == (lookup(self@, key@) is Some),
    {
        find_tag(&self.tags, key).is_some()
    }

    /// A copy of the URN.
    pub fn copied(&self) -> (r: MediaUrn)
        ensures
            r@ == self@,
    {
        MediaUrn { tags: copy_tags(&self.tags) }
    }
}

/// A copy of a list of tags.
fn copy_tags(ts: &Vec<Tag>) -> (r: Vec<Tag>)
    ensures
        tag_views(r@) == tag_views(ts@),
{
    let mut out: Vec<Tag> = Vec::new();
    let mut i: usize = 0;
    while i < ts.len()
        invariant
            i <= ts@.len(),
            out@.len() == i,
            forall|j: int| 0 <= j < i ==> (#[trigger] out@[j])@ == ts@[j]@,
        decreases ts@.len() - i,
    {
        out.push(ts[i].copied());
        i = i + 1;
    }
    assert(tag_views(out@) =~= tag_views(ts@));
    out
}

/// Whether two lists hold the same tags in the same order.
fn same_tags(a: &Vec<Tag>, b: &Vec<Tag>) -> (r: bool)
    ensures
        r == (tag_views(a@) == tag_views(b@)),
{
    if a.len() != b.len() {
        assert(tag_views(a@).len() != tag_views(b@).len());
        return false;
    }
    let mut i: usize = 0;
    while i < a.len()
        invariant
            i <= a@.len(),
            a@.len() == b@.len(),
            forall|j: int| 0 <= j < i ==> (#[trigger] a@[j])@ == b@[j]@,
        decreases a@.len() - i,
    {
        if !same_text(&a[i].key, &b[i].key) || !crate::text::same_opt(&a[i].value, &b[i].value) {
            assert(tag_views(a@)[i as int] != tag_views(b@)[i as int]);
            return false;
        }
        i = i + 1;
    }
    assert(tag_views(a@) =~= tag_views(b@));
    true
}

// ---------------------------------------------------------------------------
// Cap URNs
// ---------------------------------------------------------------------------

/// A cap URN: the name of a capability, with the media it takes (`in`) and
/// gives (`out`) among its tags.
#[derive(Debug, PartialEq, Eq)]
pub struct CapUrn {
    pub tags: Vec<Tag>,
}

impl View for CapUrn {
    type V = Seq<TagView>;

    open spec fn view(&self) -> Seq<TagView> {
        tag_views(self.tags@)
    }
}

/// A tag of a cap URN: `in` and `out` hold `*` or a media URN, which is put
/// into canonical form; every other tag stays. `None` where `in` or `out` holds
/// something else.
pub open spec fn cap_tag(t: TagView) -> Option<TagView> {
    if t.key == "in"@ || t.key == "out"@ {
        match t.value {
            None => None,
            Some(v) => if v == seq!['*'] {
                Some(t)
            } else {
                match media_parse(v) {
                    Some(m) => Some(TagView { key: t.key, value: Some(media_text(m)) }),
                    None => None,
                }
            },
        }
    } else {
        Some(t)
    }
}

/// Every tag put through [`cap_tag`].
pub open spec fn cap_tags(ts: Seq<TagView>) -> Option<Seq<TagView>> {
    if forall|i: int| 0 <= i < ts.len() ==> cap_tag(#[trigger] ts[i]) is Some {
        Some(Seq::new(ts.len(), |i: int| cap_tag(ts[i])->0))
    } else {
        None
    }
}

/// The tags that the cap URN `s` is read into.
pub open spec fn cap_parse(s: Seq<char>) -> Option<Seq<TagView>> {
    match parse_urn("cap"@, s) {
        Some(ts) => cap_tags(ts),
        None => None,
    }
}

/// The canonical text of a cap URN.
pub open spec fn cap_text(ts: Seq<TagView>) -> Seq<char> {
    write_urn("cap"@, ts)
}

/// The media URN of a direction: the tag's value, and `media:` where the tag is
/// missing or `*`.
pub open spec fn direction(ts: Seq<TagView>, key: Seq<char>) -> Seq<char> {
    match lookup(ts, key) {
        Some(Some(v)) => if v == seq!['*'] {
            "media:"@
        } else {
            v
        },
        _ => "media:"@,
    }
}

/// Puts one tag of a cap URN into canonical form.
fn checked_cap_tag(t: &Tag) -> (r: Option<Tag>)
    ensures
        match cap_tag(t@) {
            Some(v) => r is Some && r->0@ == v,
            None => r is None,
        },
{
    if same_text(&t.key, "in") || same_text(&t.key, "out") {
        match &t.value {
            None => None,
            Some(v) => if is_char(v, '*') {
                Some(t.copied())
            } else {
                match MediaUrn::from_string(v) {
                    Ok(m) => Some(Tag { key: t.key.clone(), value: Some(m.to_string()) }),
                    Err(_) => None,
                }
            },
        }
    } else {
        Some(t.copied())
    }
}

impl CapUrn {
    /// The tags are sorted by plain keys, none of them twice.
    pub open spec fn wf(&self) -> bool {
        tags_wf(self@)
    }

    /// Reads a cap URN.
    pub fn from_string(s: &str) -> (r: Result<CapUrn, UrnError>)
        ensures
            match cap_parse(s@) {
                Some(ts) => r is Ok && r->Ok_0@ == ts && r->Ok_0.wf(),
                None => r == Err::<CapUrn, UrnError>(UrnError),
            },
    {
        let raw = match parse_tags("cap", s) {
            Some(tags) => tags,
            None => {
                return Err(UrnError);
            },
        };
        let ghost ts = tag_views(raw@);
        let mut tags: Vec<Tag> = Vec::new();
        let mut i: usize = 0;
        while i < raw.len()
            invariant
                i <= raw@.len(),
                ts == tag_views(raw@),
                parse_urn("cap"@, s@) == Some(ts),
                tags@.len() == i,
                forall|j: int|
                    0 <= j < i ==> cap_tag(#[trigger] ts[j]) is Some && tags@[j]@ == cap_tag(
                        ts[j],
                    )->0,
            decreases raw@.len() - i,
        {
            match checked_cap_tag(&raw[i]) {
                Some(t) => {
                    tags.push(t);
                },
                None => {
                    assert(cap_tag(ts[i as int]) is None);
                    return Err(UrnError);
                },
            }
            i = i + 1;
        }
        proof {
            law_parsed_tags_are_sorted("cap"@, s@);
            assert(tag_views(tags@) =~= cap_tags(ts)->0);
            lemma_cap_tags_wf(ts);
        }
        Ok(CapUrn { tags })
    }

    /// The canonical text.
    pub fn to_string(&self) -> (r: String)
        ensures
            r@ == cap_text(self@),
    {
        urn_text("cap", &self.tags)
    }

    /// The media URN that the cap takes; `media:` where it takes anything.
    pub fn in_spec(&self) -> (r: String)
        ensures
            r@ == direction(self@, "in"@),
    {
        self.side("in")
    }

    /// The media URN that the cap gives; `media:` where it gives anything.
    pub fn out_spec(&self) -> (r: String)
        ensures
            r@ == direction(self@, "out"@),
    {
        self.side("out")
    }

    fn side(&self, key: &str) -> (r: String)
        ensures
            r@ == direction(self@, key@),
    {
        match find_tag(&self.tags, key) {
            Some(i) => match &self.tags[i].value {
                Some(v) => if is_char(v, '*') {
                    owned("media:")
                } else {
                    v.clone()
                },
                None => owned("media:"),
            },
            None => owned("media:"),
        }
    }

    /// Whether the two URNs have the same tags.
    pub fn is_equivalent(&self, other: &CapUrn) -> (r: bool)
        ensures
            r == (self@ == other@),
    {
        same_tags(&self.tags, &other.tags)
    }

    /// How narrow the URN is.
    pub fn specificity(&self) -> (r: u128)
        ensures
            r == tags_score(self@),
    {
        score_tags(&self.tags)
    }

    /// A copy of the URN.
    pub fn copied(&self) -> (r: CapUrn)
        ensures
            r@ == self@,
    {
        CapUrn { tags: copy_tags(&self.tags) }
    }
}

/// Checking the directions keeps the keys.
proof fn lemma_cap_tags_wf(ts: Seq<TagView>)
    requires
        tags_wf(ts),
        cap_tags(ts) is Some,
    ensures
        tags_wf(cap_tags(ts)->0),
        cap_tags(ts)->0.len() == ts.len(),
        forall|i: int| 0 <= i < ts.len() ==> (#[trigger] cap_tags(ts)->0[i]).key == ts[i].key,
{
    let r = cap_tags(ts)->0;
    assert forall|i: int| 0 <= i < ts.len() implies (#[trigger] r[i]).key == ts[i].key by {
        assert(cap_tag(ts[i]) is Some);
    }
    assert forall|i: int, j: int| 0 <= i < j < r.len() implies less(
        (#[trigger] r[i]).key,
        (#[trigger] r[j]).key,
    ) by {
        assert(less(ts[i].key, ts[j].key));
    }
    assert forall|i: int, j: int|
        0 <= i < r.len() && 0 <= j < r[i].key.len() implies is_plain_char(
        #[trigger] r[i].key[j],
    ) by {
        assert(is_plain_char(ts[i].key[j]));
    }
}

/// The two prefixes are lowercase.
pub proof fn lemma_prefixes()
    ensures
        lowered("media"@) == "media"@,
        lowered("cap"@) == "cap"@,
{
    reveal_strlit("media");
    reveal_strlit("cap");
    assert(lowered("media"@) =~= "media"@);
    assert(lowered("cap"@) =~= "cap"@);
}

/// Law: the canonical text of a media URN that was read reads back as the same
/// URN, so that putting a URN into canonical form twice changes nothing more.
pub proof fn law_media_text_reads_back(s: Seq<char>)
    requires
        media_parse(s) is Some,
    ensures
        media_parse(media_text(media_parse(s)->0)) == media_parse(s),
{
    lemma_prefixes();
    law_parsed_tags_are_sorted("media"@, s);
    law_canonical_text_reads_back("media"@, media_parse(s)->0);
}

/// Law: the canonical text of a cap URN that was read reads back as the same
/// URN.
pub proof fn law_cap_text_reads_back(s: Seq<char>)
    requires
        cap_parse(s) is Some,
    ensures
        cap_parse(cap_text(cap_parse(s)->0)) == cap_parse(s),
{
    lemma_prefixes();
    let ts = parse_urn("cap"@, s)->0;
    law_parsed_tags_are_sorted("cap"@, s);
    lemma_cap_tags_wf(ts);
    let r = cap_parse(s)->0;
    law_canonical_text_reads_back("cap"@, r);
    assert forall|i: int| 0 <= i < r.len() implies cap_tag(#[trigger] r[i]) == Some(r[i]) by {
        assert(cap_tag(ts[i]) is Some);
        if ts[i].key == "in"@ || ts[i].key == "out"@ {
            let v = ts[i].value->0;
            if v != seq!['*'] {
                law_media_text_reads_back(v);
                let w = media_text(media_parse(v)->0);
                assert(w.len() > 1) by {
                    reveal_strlit("media");
                }
            }
        }
    }
    assert(cap_tags(r)->0 =~= r);
}

// ---------------------------------------------------------------------------
// Laws of the text form
// ---------------------------------------------------------------------------

/// Every character that is counted into a key is one of a key.
proof fn lemma_key_span(s: Seq<char>)
    ensures
        key_span(s) <= s.len(),
        forall|i: int| 0 <= i < key_span(s) ==> is_key_char(#[trigger] s[i]),
    decreases s.len(),
{
    if s.len() > 0 && is_key_char(s[0]) {
        lemma_key_span(s.drop_first());
        assert forall|i: int| 0 <= i < key_span(s) implies is_key_char(#[trigger] s[i]) by {
            if i > 0 {
                assert(s.drop_first()[i - 1] == s[i]);
            }
        }
    }
}

/// Making a character of a key small gives a plain one; plain ones stay.
proof fn lemma_lower(c: char)
    ensures
        is_key_char(c) ==> is_plain_char(lower(c)),
        is_plain_char(c) ==> lower(c) == c,
        !('A' <= c && c <= 'Z') ==> lower(c) == c,
{
}

/// The keys that are read are plain and not empty.
proof fn lemma_read_tags_keys(s: Seq<char>)
    requires
        read_tags(s) is Some,
    ensures
        forall|i: int|
            0 <= i < read_tags(s)->0.len() ==> (#[trigger] read_tags(s)->0[i]).key.len() > 0,
        forall|i: int, j: int|
            0 <= i < read_tags(s)->0.len() && 0 <= j < read_tags(s)->0[i].key.len()
                ==> is_plain_char(#[trigger] read_tags(s)->0[i].key[j]),
    decreases s.len(),
{
    if s.len() > 0 {
        let (t, rest) = read_tag(s)->0;
        lemma_key_span(s);
        let k = key_span(s) as int;
        assert forall|j: int| 0 <= j < t.key.len() implies is_plain_char(#[trigger] t.key[j]) by {
            assert(s.subrange(0, k)[j] == s[j]);
            lemma_lower(s[j]);
        }
        if rest.len() > 0 {
            let tail = rest.subrange(1, rest.len() as int);
            lemma_read_tags_keys(tail);
            let ts = read_tags(tail)->0;
            assert(read_tags(s)->0 == seq![t] + ts);
            assert forall|i: int| 0 <= i < read_tags(s)->0.len() implies (
            #[trigger] read_tags(s)->0[i]).key.len() > 0 by {
                if i > 0 {
                    assert(read_tags(s)->0[i] == ts[i - 1]);
                }
            }
            assert forall|i: int, j: int|
                0 <= i < read_tags(s)->0.len() && 0 <= j
                    < read_tags(s)->0[i].key.len() implies is_plain_char(
                #[trigger] read_tags(s)->0[i].key[j],
            ) by {
                if i > 0 {
                    assert(read_tags(s)->0[i] == ts[i - 1]);
                }
            }
        }
    }
}

/// Inserting keeps the order, and every tag comes from one of the two.
proof fn lemma_insert_tag(ts: Seq<TagView>, t: TagView)
    requires
        tags_wf(ts),
        t.key.len() > 0,
        forall|j: int| 0 <= j < t.key.len() ==> is_plain_char(#[trigger] t.key[j]),
        insert_tag(ts, t) is Some,
    ensures
        tags_wf(insert_tag(ts, t)->0),
        insert_tag(ts, t)->0.len() == ts.len() + 1,
        forall|i: int|
            0 <= i < insert_tag(ts, t)->0.len() ==> (#[trigger] insert_tag(ts, t)->0[i]) == t
                || ts.contains(insert_tag(ts, t)->0[i]),
    decreases ts.len(),
{
    if ts.len() == 0 {
    } else if less(t.key, ts[0].key) {
        let r = seq![t] + ts;
        assert forall|i: int, j: int| 0 <= i < j < r.len() implies less(
            (#[trigger] r[i]).key,
            (#[trigger] r[j]).key,
        ) by {
            if i == 0 && j > 1 {
                assert(r[j] == ts[j - 1]);
                lemma_less_trans(t.key, ts[0].key, ts[j - 1].key);
            }
        }
        assert forall|i: int| 0 <= i < r.len() implies (#[trigger] r[i]) == t || ts.contains(
            r[i],
        ) by {
            if i > 0 {
                assert(ts[i - 1] == r[i]);
            }
        }
        assert forall|i: int, j: int|
            0 <= i < r.len() && 0 <= j < r[i].key.len() implies is_plain_char(
            #[trigger] r[i].key[j],
        ) by {
            if i > 0 {
                assert(ts[i - 1] == r[i]);
            }
        }
    } else {
        let tail = ts.drop_first();
        lemma_insert_tag(tail, t);
        let rest = insert_tag(tail, t)->0;
        let r = seq![ts[0]] + rest;
        lemma_less_total(t.key, ts[0].key);
        assert forall|i: int, j: int| 0 <= i < j < r.len() implies less(
            (#[trigger] r[i]).key,
            (#[trigger] r[j]).key,
        ) by {
            assert(r[j] == rest[j - 1]);
            if i == 0 {
                if rest[j - 1] != t {
                    let k = tail.index_of(rest[j - 1]);
                    assert(ts[k + 1] == rest[j - 1]);
                }
            } else {
                assert(r[i] == rest[i - 1]);
            }
        }
        assert forall|i: int| 0 <= i < r.len() implies (#[trigger] r[i]) == t || ts.contains(
            r[i],
        ) by {
            if i > 0 {
                assert(r[i] == rest[i - 1]);
                if rest[i - 1] != t {
                    let k = tail.index_of(rest[i - 1]);
                    assert(ts[k + 1] == r[i]);
                }
            } else {
                assert(ts[0] == r[0]);
            }
        }
        assert forall|i: int, j: int|
            0 <= i < r.len() && 0 <= j < r[i].key.len() implies is_plain_char(
            #[trigger] r[i].key[j],
        ) by {
            if i > 0 {
                assert(r[i] == rest[i - 1]);
            }
        }
    }
}

/// What is collected is sorted.
proof fn lemma_collect_tags(ts: Seq<TagView>)
    requires
        forall|i: int| 0 <= i < ts.len() ==> (#[trigger] ts[i]).key.len() > 0,
        forall|i: int, j: int|
            0 <= i < ts.len() && 0 <= j < ts[i].key.len() ==> is_plain_char(
                #[trigger] ts[i].key[j],
            ),
        collect_tags(ts) is Some,
    ensures
        tags_wf(collect_tags(ts)->0),
    decreases ts.len(),
{
    if ts.len() > 0 {
        let front = ts.drop_last();
        assert forall|i: int, j: int|
            0 <= i < front.len() && 0 <= j < front[i].key.len() implies is_plain_char(
            #[trigger] front[i].key[j],
        ) by {
            assert(front[i] == ts[i]);
        }
        lemma_collect_tags(front);
        let n = ts.len() - 1;
        assert forall|j: int| 0 <= j < ts.last().key.len() implies is_plain_char(
            #[trigger] ts.last().key[j],
        ) by {
            assert(ts[n].key[j] == ts.last().key[j]);
        }
        lemma_insert_tag(collect_tags(front)->0, ts.last());
    }
}

/// Law: the tags that a URN is read into are in order, with plain keys, none of
/// them twice.
pub proof fn law_parsed_tags_are_sorted(prefix: Seq<char>, s: Seq<char>)
    requires
        parse_urn(prefix, s) is Some,
    ensures
        tags_wf(parse_urn(prefix, s)->0),
{
    let body = s.subrange(prefix.len() as int + 1, s.len() as int);
    lemma_read_tags_keys(body);
    lemma_collect_tags(read_tags(body)->0);
}

/// A key stops at the first character that no key holds.
proof fn lemma_key_span_of(key: Seq<char>, rest: Seq<char>)
    requires
        forall|j: int| 0 <= j < key.len() ==> is_plain_char(#[trigger] key[j]),
        rest.len() > 0 ==> !is_key_char(rest[0]),
    ensures
        key_span(key + rest) == key.len(),
    decreases key.len(),
{
    let s = key + rest;
    if key.len() > 0 {
        assert(s.drop_first() =~= key.drop_first() + rest);
        assert(s[0] == key[0]);
        lemma_key_span_of(key.drop_first(), rest);
    } else {
        assert(s =~= rest);
    }
}

/// A bare value stops at the first character that no value holds.
proof fn lemma_value_span_of(v: Seq<char>, rest: Seq<char>)
    requires
        forall|i: int|
            0 <= i < v.len() ==> is_plain_char(#[trigger] v[i]) || v[i] == '*' || v[i] == '?'
                || v[i] == '!',
        rest.len() > 0 ==> rest[0] == ';',
    ensures
        value_span(v + rest) == v.len(),
    decreases v.len(),
{
    let s = v + rest;
    if v.len() > 0 {
        assert(s.drop_first() =~= v.drop_first() + rest);
        assert(s[0] == v[0]);
        lemma_value_span_of(v.drop_first(), rest);
    } else {
        assert(s =~= rest);
    }
}

/// Escaping goes character by character from the front too.
proof fn lemma_escaped_front(v: Seq<char>)
    requires
        v.len() > 0,
    ensures
        escaped(v) == (if v[0] == '"' || v[0] == '\\' {
            seq!['\\', v[0]]
        } else {
            seq![v[0]]
        }) + escaped(v.drop_first()),
    decreases v.len(),
{
    if v.len() == 1 {
        assert(v.drop_last() =~= Seq::<char>::empty());
        assert(v.drop_first() =~= Seq::<char>::empty());
        assert(escaped(v) =~= (if v[0] == '"' || v[0] == '\\' {
            seq!['\\', v[0]]
        } else {
            seq![v[0]]
        }) + escaped(v.drop_first()));
    } else {
        lemma_escaped_front(v.drop_last());
        assert(v.drop_last().drop_first() =~= v.drop_first().drop_last());
        assert(v.drop_first().last() == v.last());
        assert(escaped(v) =~= (if v[0] == '"' || v[0] == '\\' {
            seq!['\\', v[0]]
        } else {
            seq![v[0]]
        }) + escaped(v.drop_first()));
    }
}

/// Reading back an escaped value gives the value.
proof fn lemma_read_escaped(v: Seq<char>, rest: Seq<char>)
    ensures
        read_quoted(escaped(v) + (seq!['"'] + rest)) == Some((v, rest)),
    decreases v.len(),
{
    let tail = seq!['"'] + rest;
    let s = escaped(v) + tail;
    if v.len() == 0 {
        assert(s =~= tail);
        assert(s.subrange(1, s.len() as int) =~= rest);
        assert(v =~= Seq::<char>::empty());
    } else {
        lemma_escaped_front(v);
        lemma_read_escaped(v.drop_first(), rest);
        let inner = escaped(v.drop_first()) + tail;
        assert(seq![v[0]] + v.drop_first() =~= v);
        if v[0] == '"' || v[0] == '\\' {
            assert(s.subrange(2, s.len() as int) =~= inner);
            assert(s[0] == '\\' && s[1] == v[0]);
        } else {
            assert(s.subrange(1, s.len() as int) =~= inner);
            assert(s[0] == v[0]);
        }
    }
}

/// Plain text is its own lowercase.
proof fn lemma_lowered_plain(v: Seq<char>)
    requires
        forall|i: int|
            0 <= i < v.len() ==> is_plain_char(#[trigger] v[i]) || v[i] == '*' || v[i] == '?'
                || v[i] == '!',
    ensures
        lowered(v) == v,
{
    assert forall|i: int| 0 <= i < v.len() implies lowered(v)[i] == v[i] by {
        lemma_lower(v[i]);
    }
    assert(lowered(v) =~= v);
}

/// Reading back a tag gives the tag.
proof fn lemma_read_written_tag(t: TagView, rest: Seq<char>)
    requires
        t.key.len() > 0,
        forall|j: int| 0 <= j < t.key.len() ==> is_plain_char(#[trigger] t.key[j]),
        rest.len() > 0 ==> rest[0] == ';',
    ensures
        read_tag(write_tag(t) + rest) == Some((t, rest)),
{
    let s = write_tag(t) + rest;
    let k = t.key.len() as int;
    lemma_lowered_plain(t.key);
    match t.value {
        None => {
            lemma_key_span_of(t.key, rest);
            assert(s.subrange(0, k) =~= t.key);
            assert(s.subrange(k, s.len() as int) =~= rest);
        },
        Some(v) => {
            let after = write_value(v) + rest;
            let r = seq!['='] + after;
            assert(s =~= t.key + r);
            lemma_key_span_of(t.key, r);
            assert(s.subrange(0, k) =~= t.key);
            assert(s.subrange(k, s.len() as int) =~= r);
            assert(r.subrange(1, r.len() as int) =~= after);
            if is_bare(v) {
                lemma_value_span_of(v, rest);
                lemma_lowered_plain(v);
                assert(after[0] == v[0]);
                assert(after.subrange(0, v.len() as int) =~= v);
                assert(after.subrange(v.len() as int, after.len() as int) =~= rest);
            } else {
                assert(after.subrange(1, after.len() as int) =~= escaped(v) + (seq!['"'] + rest));
                lemma_read_escaped(v, rest);
            }
        },
    }
}

/// Reading back a list of tags gives the list.
proof fn lemma_read_written_tags(ts: Seq<TagView>)
    requires
        tags_wf(ts),
    ensures
        read_tags(write_tags(ts)) == Some(ts),
    decreases ts.len(),
{
    let parts = ts.map_values(|t: TagView| write_tag(t));
    let s = write_tags(ts);
    if ts.len() == 0 {
        assert(s =~= Seq::<char>::empty());
        assert(ts =~= Seq::<TagView>::empty());
    } else {
        let t = ts[0];
        assert(parts[0] == write_tag(t));
        assert forall|j: int| 0 <= j < t.key.len() implies is_plain_char(#[trigger] t.key[j]) by {
            assert(ts[0].key[j] == t.key[j]);
        }
        if ts.len() == 1 {
            lemma_read_written_tag(t, Seq::empty());
            assert(write_tag(t) + Seq::<char>::empty() =~= s);
            assert(ts =~= seq![t]);
            assert(s.len() > 0);
        } else {
            let tail = ts.drop_first();
            assert(tail.map_values(|t: TagView| write_tag(t)) =~= parts.drop_first());
            assert forall|i: int, j: int|
                0 <= i < tail.len() && 0 <= j < tail[i].key.len() implies is_plain_char(
                #[trigger] tail[i].key[j],
            ) by {
                assert(ts[i + 1] == tail[i]);
            }
            lemma_read_written_tags(tail);
            lemma_joined_front(parts, seq![';']);
            let rest = seq![';'] + write_tags(tail);
            assert(s =~= write_tag(t) + rest);
            lemma_read_written_tag(t, rest);
            assert(rest.subrange(1, rest.len() as int) =~= write_tags(tail));
            assert(seq![t] + tail =~= ts);
        }
    }
}

/// A tag behind all others is put at the end.
proof fn lemma_insert_last(ts: Seq<TagView>, t: TagView)
    requires
        forall|i: int| 0 <= i < ts.len() ==> less((#[trigger] ts[i]).key, t.key),
    ensures
        insert_tag(ts, t) == Some(ts.push(t)),
    decreases ts.len(),
{
    if ts.len() == 0 {
        assert(ts.push(t) =~= seq![t]);
    } else {
        lemma_less_strict(ts[0].key, t.key);
        lemma_insert_last(ts.drop_first(), t);
        assert(seq![ts[0]] + ts.drop_first().push(t) =~= ts.push(t));
    }
}

/// Collecting a sorted list changes nothing.
proof fn lemma_collect_sorted(ts: Seq<TagView>)
    requires
        forall|i: int, j: int|
            0 <= i < j < ts.len() ==> less((#[trigger] ts[i]).key, (#[trigger] ts[j]).key),
    ensures
        collect_tags(ts) == Some(ts),
    decreases ts.len(),
{
    if ts.len() == 0 {
        assert(ts =~= Seq::<TagView>::empty());
    } else {
        lemma_collect_sorted(ts.drop_last());
        lemma_insert_last(ts.drop_last(), ts.last());
        assert(ts.drop_last().push(ts.last()) =~= ts);
    }
}

/// Law: reading back the canonical text of a URN gives the same URN.
pub proof fn law_canonical_text_reads_back(prefix: Seq<char>, ts: Seq<TagView>)
    requires
        lowered(prefix) == prefix,
        tags_wf(ts),
    ensures
        parse_urn(prefix, write_urn(prefix, ts)) == Some(ts),
{
    let s = write_urn(prefix, ts);
    let n = prefix.len() as int;
    assert(s.subrange(0, n) =~= prefix);
    assert(s.subrange(n + 1, s.len() as int) =~= write_tags(ts));
    lemma_read_written_tags(ts);
    lemma_collect_sorted(ts);
}

/// Law: two URNs have the same canonical text only if they are the same.
pub proof fn law_canonical_text_is_unique(prefix: Seq<char>, a: Seq<TagView>, b: Seq<TagView>)
    requires
        lowered(prefix) == prefix,
        tags_wf(a),
        tags_wf(b),
        write_urn(prefix, a) == write_urn(prefix, b),
    ensures
        a == b,
{
    law_canonical_text_reads_back(prefix, a);
    law_canonical_text_reads_back(prefix, b);
}

/// A bare key.
pub open spec fn marker(key: Seq<char>) -> TagView {
    TagView { key, value: None }
}

/// The text may stand as a key.
pub open spec fn is_plain(key: Seq<char>) -> bool {
    key.len() > 0 && forall|j: int| 0 <= j < key.len() ==> is_plain_char(#[trigger] key[j])
}

/// A media URN with one marker reads as such.
pub proof fn lemma_one_marker(a: Seq<char>)
    requires
        is_plain(a),
    ensures
        media_parse("media:"@ + a) == Some(seq![marker(a)]),
{
    let ts = seq![marker(a)];
    let parts = ts.map_values(|t: TagView| write_tag(t));
    reveal_strlit("media");
    reveal_strlit("media:");
    lemma_prefixes();
    assert(parts =~= seq![a]);
    assert(media_text(ts) =~= "media:"@ + a);
    assert forall|i: int, j: int| 0 <= i < ts.len() && 0 <= j < ts[i].key.len() implies is_plain_char(
        #[trigger] ts[i].key[j],
    ) by {
        assert(ts[i].key[j] == a[j]);
    }
    law_canonical_text_reads_back("media"@, ts);
}

/// A media URN with two markers in order reads as such.
pub proof fn lemma_two_markers(a: Seq<char>, b: Seq<char>)
    requires
        is_plain(a),
        is_plain(b),
        less(a, b),
    ensures
        media_parse("media:"@ + a + ";"@ + b) == Some(seq![marker(a), marker(b)]),
{
    let ts = seq![marker(a), marker(b)];
    let parts = ts.map_values(|t: TagView| write_tag(t));
    reveal_strlit("media");
    reveal_strlit("media:");
    reveal_strlit(";");
    lemma_prefixes();
    assert(parts =~= seq![a, b]);
    reveal_with_fuel(joined, 3);
    assert(parts.drop_last() =~= seq![a]);
    assert(media_text(ts) =~= "media:"@ + a + ";"@ + b);
    assert forall|i: int, j: int| 0 <= i < ts.len() && 0 <= j < ts[i].key.len() implies is_plain_char(
        #[trigger] ts[i].key[j],
    ) by {
        if i == 0 {
            assert(ts[i].key[j] == a[j]);
        } else {
            assert(ts[i].key[j] == b[j]);
        }
    }
    law_canonical_text_reads_back("media"@, ts);
}

/// A media URN with three markers in order reads as such.
pub proof fn lemma_three_markers(a: Seq<char>, b: Seq<char>, c: Seq<char>)
    requires
        is_plain(a),
        is_plain(b),
        is_plain(c),
        less(a, b),
        less(b, c),
    ensures
        media_parse("media:"@ + a + ";"@ + b + ";"@ + c) == Some(
            seq![marker(a), marker(b), marker(c)],
        ),
{
    let ts = seq![marker(a), marker(b), marker(c)];
    let parts = ts.map_values(|t: TagView| write_tag(t));
    reveal_strlit("media");
    reveal_strlit("media:");
    reveal_strlit(";");
    lemma_prefixes();
    lemma_less_trans(a, b, c);
    assert(parts =~= seq![a, b, c]);
    reveal_with_fuel(joined, 4);
    assert(parts.drop_last() =~= seq![a, b]);
    assert(parts.drop_last().drop_last() =~= seq![a]);
    assert(media_text(ts) =~= "media:"@ + a + ";"@ + b + ";"@ + c);
    assert forall|i: int, j: int| 0 <= i < ts.len() && 0 <= j < ts[i].key.len() implies is_plain_char(
        #[trigger] ts[i].key[j],
    ) by {
        if i == 0 {
            assert(ts[i].key[j] == a[j]);
        } else if i == 1 {
            assert(ts[i].key[j] == b[j]);
        } else {
            assert(ts[i].key[j] == c[j]);
        }
    }
    law_canonical_text_reads_back("media"@, ts);
}

/// Looking up a key of a sorted list finds its tag.
pub proof fn lemma_lookup(ts: Seq<TagView>, i: int)
    requires
        0 <= i < ts.len(),
        forall|i: int, j: int|
            0 <= i < j < ts.len() ==> less((#[trigger] ts[i]).key, (#[trigger] ts[j]).key),
    ensures
        lookup(ts, ts[i].key) == Some(ts[i].value),
    decreases ts.len(),
{
    if i < ts.len() - 1 {
        lemma_less_strict(ts[i].key, ts.last().key);
        lemma_lookup(ts.drop_last(), i);
        assert(ts.drop_last()[i] == ts[i]);
    }
}

/// Law: a URN without `!` accepts itself.
pub proof fn law_accepts_itself(ts: Seq<TagView>)
    requires
        tags_wf(ts),
        forall|i: int| 0 <= i < ts.len() ==> (#[trigger] ts[i]).value != Some(seq!['!']),
    ensures
        tags_accept(ts, ts),
{
    assert forall|i: int| 0 <= i < ts.len() implies value_meets(
        (#[trigger] ts[i]).value,
        lookup(ts, ts[i].key),
    ) by {
        lemma_lookup(ts, i);
    }
}

/// Law: the URN without tags accepts every URN.
pub proof fn law_empty_accepts_all(instance: Seq<TagView>)
    ensures
        tags_accept(Seq::empty(), instance),
{
}

/// Law: a tag more never makes a pattern accept more.
pub proof fn law_longer_pattern_accepts_less(
    pattern: Seq<TagView>,
    t: TagView,
    instance: Seq<TagView>,
)
    requires
        tags_accept(pattern.push(t), instance),
    ensures
        tags_accept(pattern, instance),
{
    assert forall|i: int| 0 <= i < pattern.len() implies value_meets(
        (#[trigger] pattern[i]).value,
        lookup(instance, pattern[i].key),
    ) by {
        assert(pattern.push(t)[i] == pattern[i]);
    }
}

/// The list has a tag with this key.
pub open spec fn has_key(ts: Seq<TagView>, key: Seq<char>) -> bool {
    exists|j: int| 0 <= j < ts.len() && (#[trigger] ts[j]).key == key
}

/// The value asks for something other than to be itself.
pub open spec fn is_wildcard(v: Seq<char>) -> bool {
    v == seq!['?'] || v == seq!['!'] || v == seq!['*']
}

/// A key that is looked up in a sorted list is found exactly where a tag has it,
/// with that tag's value.
proof fn lemma_lookup_all(ts: Seq<TagView>, key: Seq<char>)
    requires
        forall|i: int, j: int|
            0 <= i < j < ts.len() ==> less((#[trigger] ts[i]).key, (#[trigger] ts[j]).key),
    ensures
        lookup(ts, key) is Some <==> has_key(ts, key),
        forall|j: int|
            0 <= j < ts.len() && (#[trigger] ts[j]).key == key ==> lookup(ts, key) == Some(
                ts[j].value,
            ),
{
    assert forall|j: int| 0 <= j < ts.len() && (#[trigger] ts[j]).key == key implies lookup(ts, key)
        == Some(ts[j].value) by {
        lemma_lookup(ts, j);
    }
    if lookup(ts, key) is Some {
        lemma_lookup_has(ts, key);
    }
}

proof fn lemma_lookup_has(ts: Seq<TagView>, key: Seq<char>)
    requires
        lookup(ts, key) is Some,
    ensures
        has_key(ts, key),
    decreases ts.len(),
{
    if ts.last().key == key {
        assert(ts[ts.len() - 1].key == key);
    } else {
        lemma_lookup_has(ts.drop_last(), key);
        let j = choose|j: int|
            0 <= j < ts.drop_last().len() && (#[trigger] ts.drop_last()[j]).key == key;
        assert(ts[j].key == key);
    }
}

/// Law: an instance meets a pattern exactly where it meets each of its tags. A
/// tag `K=v` is met by a tag with that key and that value and by nothing else;
/// `K=*` and the marker `K` by any tag with that key; `K=!` where no tag has the
/// key; `K=?` always. Tags that the pattern does not name do not count.
pub proof fn law_each_tag_is_met(pattern: Seq<TagView>, instance: Seq<TagView>)
    requires
        tags_wf(instance),
    ensures
        tags_accept(pattern, instance) <==> forall|i: int|
            0 <= i < pattern.len() ==> match (#[trigger] pattern[i]).value {
                None => has_key(instance, pattern[i].key),
                Some(v) => {
                    &&& !is_wildcard(v) ==> exists|j: int|
                        0 <= j < instance.len() && #[trigger] instance[j] == pattern[i]
                    &&& v == seq!['*'] ==> has_key(instance, pattern[i].key)
                    &&& v == seq!['!'] ==> !has_key(instance, pattern[i].key)
                },
            },
{
    assert(seq!['?'][0] != seq!['!'][0] && seq!['?'][0] != seq!['*'][0] && seq!['!'][0]
        != seq!['*'][0]);
    assert forall|i: int| 0 <= i < pattern.len() implies (value_meets(
        (#[trigger] pattern[i]).value,
        lookup(instance, pattern[i].key),
    ) <==> match pattern[i].value {
        None => has_key(instance, pattern[i].key),
        Some(v) => {
            &&& !is_wildcard(v) ==> exists|j: int|
                0 <= j < instance.len() && #[trigger] instance[j] == pattern[i]
            &&& v == seq!['*'] ==> has_key(instance, pattern[i].key)
            &&& v == seq!['!'] ==> !has_key(instance, pattern[i].key)
        },
    }) by {
        let key = pattern[i].key;
        lemma_lookup_all(instance, key);
        if lookup(instance, key) is Some {
            let j = choose|j: int| 0 <= j < instance.len() && (#[trigger] instance[j]).key == key;
            assert(lookup(instance, key) == Some(instance[j].value));
            if instance[j].value == pattern[i].value {
                assert(instance[j] == pattern[i]);
            }
        }
    }
}

/// Law: two URNs that give one key different exact values do not accept each
/// other.
pub proof fn law_exact_values_exclude_each_other(
    a: Seq<TagView>,
    b: Seq<TagView>,
    i: int,
    j: int,
    v: Seq<char>,
    w: Seq<char>,
)
    requires
        tags_wf(a),
        tags_wf(b),
        0 <= i < a.len(),
        0 <= j < b.len(),
        a[i].key == b[j].key,
        a[i].value == Some(v),
        b[j].value == Some(w),
        !is_wildcard(v),
        !is_wildcard(w),
        v != w,
    ensures
        !tags_accept(a, b),
        !tags_accept(b, a),
{
    lemma_lookup(a, i);
    lemma_lookup(b, j);
    assert(!value_meets(a[i].value, lookup(b, a[i].key)));
    assert(!value_meets(b[j].value, lookup(a, b[j].key)));
}

/// Law: without wildcards, what accepts something that accepts a third thing
/// accepts that too.
pub proof fn law_accepting_carries_over(a: Seq<TagView>, b: Seq<TagView>, c: Seq<TagView>)
    requires
        tags_wf(a),
        tags_wf(b),
        tags_wf(c),
        forall|i: int|
            0 <= i < a.len() ==> ((#[trigger] a[i]).value matches Some(v) && !is_wildcard(v)),
        forall|i: int|
            0 <= i < b.len() ==> ((#[trigger] b[i]).value matches Some(v) && !is_wildcard(v)),
        tags_accept(a, b),
        tags_accept(b, c),
    ensures
        tags_accept(a, c),
{
    law_each_tag_is_met(a, b);
    law_each_tag_is_met(b, c);
    law_each_tag_is_met(a, c);
    assert forall|i: int| 0 <= i < a.len() implies (exists|j: int|
        0 <= j < c.len() && #[trigger] c[j] == #[trigger] a[i]) by {
        let k = choose|k: int| 0 <= k < b.len() && #[trigger] b[k] == a[i];
        let j = choose|j: int| 0 <= j < c.len() && #[trigger] c[j] == b[k];
        assert(c[j] == a[i]);
    }
}

/// How many of the values are so.
pub open spec fn count_tags(ts: Seq<TagView>, is: spec_fn(Option<Seq<char>>) -> bool) -> nat
    decreases ts.len(),
{
    if ts.len() == 0 {
        0
    } else {
        count_tags(ts.drop_last(), is) + (if is(ts.last().value) {
            1nat
        } else {
            0
        })
    }
}

/// Law: the specificity counts each marker and each exact value as 3, each `*`
/// as 2, each `!` as 1, and nothing else.
pub proof fn law_specificity_is_graded(ts: Seq<TagView>)
    ensures
        tags_score(ts) == 3 * count_tags(
            ts,
            |v: Option<Seq<char>>| v is None || !is_wildcard(v->0),
        ) + 2 * count_tags(ts, |v: Option<Seq<char>>| v == Some(seq!['*'])) + count_tags(
            ts,
            |v: Option<Seq<char>>| v == Some(seq!['!']),
        ),
    decreases ts.len(),
{
    assert(seq!['?'][0] != seq!['!'][0] && seq!['?'][0] != seq!['*'][0] && seq!['!'][0]
        != seq!['*'][0]);
    if ts.len() > 0 {
        law_specificity_is_graded(ts.drop_last());
    }
}

/// Law: a cap takes what its tag `in` names and gives what its tag `out` names,
/// each by its own tag; any media where the tag is missing or is `*`.
pub proof fn law_directions_are_named_by_their_tags(ts: Seq<TagView>, i: int)
    requires
        tags_wf(ts),
        0 <= i < ts.len(),
    ensures
        ts[i].key == "in"@ && ts[i].value is Some && ts[i].value != Some(seq!['*']) ==> direction(
            ts,
            "in"@,
        ) == ts[i].value->0,
        ts[i].key == "out"@ && ts[i].value is Some && ts[i].value != Some(seq!['*']) ==> direction(
            ts,
            "out"@,
        ) == ts[i].value->0,
        ts[i].value == Some(seq!['*']) ==> direction(ts, ts[i].key) == "media:"@,
        !has_key(ts, "in"@) ==> direction(ts, "in"@) == "media:"@,
        !has_key(ts, "out"@) ==> direction(ts, "out"@) == "media:"@,
{
    lemma_lookup(ts, i);
    lemma_lookup_all(ts, "in"@);
    lemma_lookup_all(ts, "out"@);
}

/// Law: a cap URN is read only where `in` and `out` hold `*` or a media URN; that
/// URN is kept in its canonical form, and every other tag as it is written.
pub proof fn law_cap_holds_canonical_media(s: Seq<char>, i: int)
    requires
        cap_parse(s) is Some,
        0 <= i < cap_parse(s)->0.len(),
    ensures
        ({
            let t = cap_parse(s)->0[i];
            let raw = parse_urn("cap"@, s)->0;
            &&& raw.len() == cap_parse(s)->0.len()
            &&& t.key == raw[i].key
            &&& t.key != "in"@ && t.key != "out"@ ==> t == raw[i]
            &&& t.key == "in"@ || t.key == "out"@ ==> {
                &&& t.value is Some && raw[i].value is Some
                &&& raw[i].value->0 == seq!['*'] ==> t.value->0 == seq!['*']
                &&& raw[i].value->0 != seq!['*'] ==> {
                    &&& media_parse(raw[i].value->0) is Some
                    &&& t.value->0 == media_text(media_parse(raw[i].value->0)->0)
                }
            }
        }),
{
    let raw = parse_urn("cap"@, s)->0;
    assert(cap_tag(raw[i]) is Some);
}

proof fn lemma_insert_exactly(ts: Seq<TagView>, t: TagView, x: TagView)
    ensures
        insert_tag(ts, t) matches Some(r) ==> (r.contains(x) <==> x == t || ts.contains(x)),
        insert_tag(ts, t) matches Some(r) ==> r.len() == ts.len() + 1,
        insert_tag(ts, t) is None ==> exists|i: int|
            0 <= i < ts.len() && (#[trigger] ts[i]).key == t.key,
    decreases ts.len(),
{
    if ts.len() == 0 {
        assert(seq![t][0] == t);
    } else if t.key == ts[0].key {
    } else if less(t.key, ts[0].key) {
        let r = seq![t] + ts;
        assert(r[0] == t);
        if ts.contains(x) {
            let i = ts.index_of(x);
            assert(r[i + 1] == x);
        }
        if r.contains(x) && x != t {
            let i = r.index_of(x);
            assert(ts[i - 1] == x);
        }
    } else {
        let rest = ts.drop_first();
        lemma_insert_exactly(rest, t, x);
        match insert_tag(rest, t) {
            Some(q) => {
                let r = seq![ts[0]] + q;
                assert(r[0] == ts[0]);
                if q.contains(x) {
                    let i = q.index_of(x);
                    assert(r[i + 1] == x);
                }
                if r.contains(x) && x != ts[0] {
                    let i = r.index_of(x);
                    assert(q[i - 1] == x);
                }
                if rest.contains(x) {
                    let i = rest.index_of(x);
                    assert(ts[i + 1] == x);
                }
                if ts.contains(x) && x != ts[0] {
                    let i = ts.index_of(x);
                    assert(rest[i - 1] == x);
                }
                assert(ts.contains(ts[0]));
            },
            None => {
                let i = choose|i: int| 0 <= i < rest.len() && (#[trigger] rest[i]).key == t.key;
                assert(ts[i + 1] == rest[i]);
            },
        }
    }
}

/// Law: reading a URN keeps every tag that is written, in whatever order, and
/// adds none; it fails only where a key is written twice.
pub proof fn law_every_written_tag_is_kept(ts: Seq<TagView>, x: TagView)
    ensures
        collect_tags(ts) matches Some(r) ==> (r.contains(x) <==> ts.contains(x)) && r.len()
            == ts.len(),
        collect_tags(ts) is None ==> exists|i: int, j: int|
            0 <= i < j < ts.len() && (#[trigger] ts[i]).key == (#[trigger] ts[j]).key,
    decreases ts.len(),
{
    if ts.len() > 0 {
        let rest = ts.drop_last();
        let n = ts.len() - 1;
        law_every_written_tag_is_kept(rest, x);
        assert(ts[n] == ts.last());
        if rest.contains(x) {
            let i = rest.index_of(x);
            assert(ts[i] == x);
        }
        if ts.contains(x) && x != ts.last() {
            let i = ts.index_of(x);
            assert(rest[i] == x);
        }
        match collect_tags(rest) {
            Some(r) => {
                lemma_insert_exactly(r, ts.last(), x);
                if insert_tag(r, ts.last()) is None {
                    let i = choose|i: int|
                        0 <= i < r.len() && (#[trigger] r[i]).key == ts.last().key;
                    law_every_written_tag_is_kept(rest, r[i]);
                    assert(r.contains(r[i]));
                    let k = rest.index_of(r[i]);
                    assert(ts[k] == r[i]);
                    assert(ts[k].key == ts[n].key);
                }
            },
            None => {
                let (i, j) = choose|i: int, j: int|
                    0 <= i < j < rest.len() && (#[trigger] rest[i]).key == (
                    #[trigger] rest[j]).key;
                assert(ts[i] == rest[i] && ts[j] == rest[j]);
            },
        }
    }
}

/// Law: lower case changes the capital letters `A` to `Z` and nothing else; two
/// texts that differ in the case of such letters only have the same.
pub proof fn law_lower_case_is_of_letters_only(s: Seq<char>, i: int)
    requires
        0 <= i < s.len(),
    ensures
        lowered(s).len() == s.len(),
        !('A' <= lowered(s)[i] <= 'Z'),
        'A' <= s[i] <= 'Z' ==> lowered(s)[i] as u32 == s[i] as u32 + 32,
        !('A' <= s[i] <= 'Z') ==> lowered(s)[i] == s[i],
{
}

} // verus!
