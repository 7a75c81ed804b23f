//! The references of a JSON Schema: whether following them comes to an end.
//!
//! A schema is taken as its JSON text. Its members are read off the text at
//! every depth, and a reference is followed to every member of the name that it
//! ends in: more than it can mean, so that what comes to an end here does so
//! wherever it is followed.

use crate::text::{
    begins, begins_with, chars_of, contains_text, ends, ends_with, lemma_pieces_nonempty, occurs,
    owned, pieces, same_text, split_at_char, text_between, texts, trim, trimmed,
};
use crate::urn::{lower_char, lowered};
use vstd::prelude::*;

verus! {

broadcast use vstd::string::group_string_axioms;

/// How many references may follow one another.
pub const REFERENCE_DEPTH: usize = 16;

/// How many references may follow one another before a smaller value is looked
/// at, where they may go on forever.
pub const NEAR_REFERENCE_DEPTH: usize = 8;

/// How deep schema and value may be nested, multiplied, where references may go
/// on as long as the value does.
pub const NESTING_LIMIT: usize = 256;

// ---------------------------------------------------------------------------
// Members
// ---------------------------------------------------------------------------

/// Where a place in JSON text is.
#[derive(Debug, Clone, Copy, PartialEq, Eq, Structural)]
pub enum Spot {
    Outside,
    InString,
    /// In a string, behind a backslash.
    Escaped,
}

/// Where the place behind `c` is.
pub open spec fn spot_after(spot: Spot, c: char) -> Spot {
    match spot {
        Spot::Outside => if c == '"' {
            Spot::InString
        } else {
            Spot::Outside
        },
        Spot::InString => if c == '"' {
            Spot::Outside
        } else if c == '\\' {
            Spot::Escaped
        } else {
            Spot::InString
        },
        Spot::Escaped => Spot::InString,
    }
}

/// Where the place behind `c` is.
pub fn next_spot(spot: Spot, c: char) -> (r: Spot)
    ensures
        r == spot_after(spot, c),
{
    match spot {
        Spot::Outside => if c == '"' {
            Spot::InString
        } else {
            Spot::Outside
        },
        Spot::InString => if c == '"' {
            Spot::Outside
        } else if c == '\\' {
            Spot::Escaped
        } else {
            Spot::InString
        },
        Spot::Escaped => Spot::InString,
    }
}

/// White space of JSON.
pub open spec fn is_blank(c: char) -> bool {
    c == ' ' || c == '\t' || c == '\n' || c == '\r'
}

/// The first place from `i` on that is not blank.
pub open spec fn behind_blanks(s: Seq<char>, i: int) -> int
    decreases s.len() - i,
{
    if 0 <= i < s.len() && is_blank(s[i]) {
        behind_blanks(s, i + 1)
    } else {
        i
    }
}

fn skip_blanks(s: &Vec<char>, from: usize) -> (r: usize)
    requires
        from <= s@.len(),
    ensures
        from <= r <= s@.len(),
        r == behind_blanks(s@, from as int),
{
    let mut i: usize = from;
    while i < s.len() && (s[i] == ' ' || s[i] == '\t' || s[i] == '\n' || s[i] == '\r')
        invariant
            from <= i <= s@.len(),
            behind_blanks(s@, from as int) == behind_blanks(s@, i as int),
        decreases s@.len() - i,
    {
        i = i + 1;
    }
    i
}

/// Where the value ends that stands at `i`, `depth` brackets deep: at the comma
/// or bracket that closes it, or at the end.
pub open spec fn value_end(s: Seq<char>, i: int, depth: nat, spot: Spot) -> int
    decreases s.len() - i,
{
    if i < 0 || i >= s.len() {
        s.len() as int
    } else if spot != Spot::Outside {
        value_end(s, i + 1, depth, spot_after(spot, s[i]))
    } else if s[i] == '{' || s[i] == '[' {
        value_end(s, i + 1, depth + 1, spot)
    } else if s[i] == '}' || s[i] == ']' {
        if depth == 0 {
            i
        } else {
            value_end(s, i + 1, (depth - 1) as nat, spot)
        }
    } else if s[i] == ',' && depth == 0 {
        i
    } else {
        value_end(s, i + 1, depth, spot_after(spot, s[i]))
    }
}

fn find_value_end(s: &Vec<char>, from: usize) -> (r: usize)
    requires
        from <= s@.len(),
    ensures
        from <= r <= s@.len(),
        r == value_end(s@, from as int, 0, Spot::Outside),
{
    let mut i: usize = from;
    let mut depth: usize = 0;
    let mut spot: Spot = Spot::Outside;
    while i < s.len()
        invariant
            from <= i <= s@.len(),
            depth <= i,
            value_end(s@, from as int, 0, Spot::Outside) == value_end(
                s@,
                i as int,
                depth as nat,
                spot,
            ),
        decreases s@.len() - i,
    {
        let c = s[i];
        if spot == Spot::Outside && (c == '{' || c == '[') {
            depth = depth + 1;
        } else if spot == Spot::Outside && (c == '}' || c == ']') {
            if depth == 0 {
                return i;
            }
            depth = depth - 1;
        } else if spot == Spot::Outside && c == ',' && depth == 0 {
            return i;
        } else {
            spot = next_spot(spot, c);
        }
        i = i + 1;
    }
    i
}

/// A keyword under which a part of the value is held against a schema and not
/// the value itself, or nothing at all.
pub open spec fn goes_deeper(name: Seq<char>) -> bool {
    name == "properties"@ || name == "patternProperties"@ || name == "additionalProperties"@ || name
        == "items"@ || name == "additionalItems"@ || name == "contains"@ || name
        == "propertyNames"@ || name == "definitions"@ || name == "$defs"@
}

fn is_deeper(name: &str) -> (r: bool)
    ensures
        r == goes_deeper(name@),
{
    same_text(name, "properties") || same_text(name, "patternProperties") || same_text(
        name,
        "additionalProperties",
    ) || same_text(name, "items") || same_text(name, "additionalItems") || same_text(
        name,
        "contains",
    ) || same_text(name, "propertyNames") || same_text(name, "definitions") || same_text(
        name,
        "$defs",
    )
}

/// The members from `i` on, each with its name and the text of its value, at
/// every depth; `open` is where the string began that `i` is in. Those before
/// `until` are left out, and so is, where `near`, what stands under a keyword
/// that goes deeper.
pub open spec fn members_from(
    s: Seq<char>,
    i: int,
    open: int,
    spot: Spot,
    until: int,
    near: bool,
) -> Seq<(Seq<char>, Seq<char>)>
    decreases s.len() - i,
{
    if i < 0 || i >= s.len() {
        Seq::empty()
    } else if spot == Spot::Outside {
        members_from(s, i + 1, i + 1, spot_after(spot, s[i]), until, near)
    } else if spot == Spot::InString && s[i] == '"' {
        let at = behind_blanks(s, i + 1);
        let end = value_end(s, at + 1, 0, Spot::Outside);
        if i < until || at >= s.len() || s[at] != ':' {
            members_from(s, i + 1, open, Spot::Outside, until, near)
        } else if near && goes_deeper(s.subrange(open, i)) {
            members_from(s, i + 1, open, Spot::Outside, end, near)
        } else {
            seq![(s.subrange(open, i), s.subrange(at + 1, end))] + members_from(
                s,
                i + 1,
                open,
                Spot::Outside,
                until,
                near,
            )
        }
    } else {
        members_from(s, i + 1, open, spot_after(spot, s[i]), until, near)
    }
}

/// The members of JSON text, at every depth.
pub open spec fn members(s: Seq<char>) -> Seq<(Seq<char>, Seq<char>)> {
    members_from(s, 0, 0, Spot::Outside, 0, false)
}

/// The members of a schema that bear on the value that it is held against: all
/// of them, or, where `near`, those that are not under a keyword that goes
/// deeper.
pub open spec fn bearing(s: Seq<char>, near: bool) -> Seq<(Seq<char>, Seq<char>)> {
    members_from(s, 0, 0, Spot::Outside, 0, near)
}

/// A list of members in the model.
pub open spec fn member_views(v: Seq<(String, String)>) -> Seq<(Seq<char>, Seq<char>)> {
    Seq::new(v.len(), |i: int| (v[i].0@, v[i].1@))
}

/// The members of a schema that bear on the value that it is held against.
pub fn bearing_members(text: &str, near: bool) -> (r: Vec<(String, String)>)
    ensures
        member_views(r@) == bearing(text@, near),
{
    let s = chars_of(text);
    let mut out: Vec<(String, String)> = Vec::new();
    let mut i: usize = 0;
    let mut open: usize = 0;
    let mut spot: Spot = Spot::Outside;
    let mut until: usize = 0;
    assert(member_views(out@) + bearing(s@, near) =~= bearing(s@, near));
    while i < s.len()
        invariant
            open <= i <= s@.len(),
            bearing(s@, near) == member_views(out@) + members_from(
                s@,
                i as int,
                open as int,
                spot,
                until as int,
                near,
            ),
        decreases s@.len() - i,
    {
        if spot == Spot::Outside {
            spot = next_spot(spot, s[i]);
            open = i + 1;
        } else if spot == Spot::InString && s[i] == '"' {
            let at = skip_blanks(&s, i + 1);
            if i >= until && at < s.len() && s[at] == ':' {
                let end = find_value_end(&s, at + 1);
                let name = text_between(&s, open, i);
                if near && is_deeper(&name) {
                    until = end;
                } else {
                    let ghost before = member_views(out@);
                    let ghost rest = members_from(
                        s@,
                        i + 1,
                        open as int,
                        Spot::Outside,
                        until as int,
                        near,
                    );
                    let ghost one = (name@, s@.subrange(at + 1, end as int));
                    out.push((name, text_between(&s, at + 1, end)));
                    assert(member_views(out@) =~= before.push(one));
                    assert(before + (seq![one] + rest) =~= before.push(one) + rest);
                }
            }
            spot = Spot::Outside;
        } else {
            spot = next_spot(spot, s[i]);
        }
        i = i + 1;
    }
    assert(member_views(out@) + Seq::<(Seq<char>, Seq<char>)>::empty() =~= member_views(out@));
    out
}

/// The members of JSON text, at every depth.
pub fn members_of(text: &str) -> (r: Vec<(String, String)>)
    ensures
        member_views(r@) == members(text@),
{
    bearing_members(text, false)
}

/// How many brackets are open at once, at most, from `i` on, where `depth` of
/// them are.
pub open spec fn nesting_from(s: Seq<char>, i: int, depth: nat, spot: Spot) -> nat
    decreases s.len() - i,
{
    if i < 0 || i >= s.len() {
        depth
    } else {
        let next = if spot != Spot::Outside {
            depth
        } else if s[i] == '{' || s[i] == '[' {
            depth + 1
        } else if (s[i] == '}' || s[i] == ']') && depth > 0 {
            (depth - 1) as nat
        } else {
            depth
        };
        let rest = nesting_from(s, i + 1, next, spot_after(spot, s[i]));
        if rest > depth {
            rest
        } else {
            depth
        }
    }
}

/// How deep the brackets of JSON text are nested.
pub open spec fn nesting(s: Seq<char>) -> nat {
    nesting_from(s, 0, 0, Spot::Outside)
}

/// How deep the brackets of JSON text are nested.
pub fn nesting_of(text: &str) -> (r: usize)
    ensures
        r == nesting(text@),
{
    let s = chars_of(text);
    let mut i: usize = 0;
    let mut depth: usize = 0;
    let mut most: usize = 0;
    let mut spot: Spot = Spot::Outside;
    while i < s.len()
        invariant
            i <= s@.len(),
            s@ == text@,
            depth <= i,
            depth <= most,
            ({
                let rest = nesting_from(s@, i as int, depth as nat, spot);
                nesting(text@) == if rest > most {
                    rest
                } else {
                    most as nat
                }
            }),
        decreases s@.len() - i,
    {
        let c = s[i];
        if spot == Spot::Outside && (c == '{' || c == '[') {
            depth = depth + 1;
        } else if spot == Spot::Outside && (c == '}' || c == ']') && depth > 0 {
            depth = depth - 1;
        }
        if depth > most {
            most = depth;
        }
        spot = next_spot(spot, c);
        i = i + 1;
    }
    most
}

// ---------------------------------------------------------------------------
// References
// ---------------------------------------------------------------------------

/// A character that a reference may hold: one that means itself in a URL, in a
/// pointer and in JSON.
pub open spec fn is_plain(c: char) -> bool {
    ('a' <= c && c <= 'z') || ('A' <= c && c <= 'Z') || ('0' <= c && c <= '9') || c == '_' || c
        == '-' || c == '.' || c == '$' || c == '/'
}

/// Whether a reference may hold a character.
fn is_plain_char(c: char) -> (r: bool)
    ensures
        r == is_plain(c),
{
    ('a' <= c && c <= 'z') || ('A' <= c && c <= 'Z') || ('0' <= c && c <= '9') || c == '_' || c
        == '-' || c == '.' || c == '$' || c == '/'
}

/// The name that a reference ends in, from the text of its value: that of
/// `"#/definitions/word"` is `word`. `None` where the value is not a pointer
/// into the schema itself, or may end in the place of an array.
pub open spec fn ref_name(value: Seq<char>) -> Option<Seq<char>> {
    let t = trimmed(value);
    let name = pieces(t.subrange(3, t.len() - 1), '/').last();
    if t.len() >= 5 && begins(t, "\"#/"@) && ends(t, "\""@) && (forall|i: int|
        3 <= i < t.len() - 1 ==> is_plain(#[trigger] t[i])) && name.len() > 0 && !('0' <= name[0]
        && name[0] <= '9') {
        Some(name)
    } else {
        None
    }
}

fn read_ref_name(value: &str) -> (r: Option<String>)
    ensures
        match r {
            Some(n) => ref_name(value@) == Some(n@),
            None => ref_name(value@) is None,
        },
{
    let t = trim(value);
    let cs = chars_of(&t);
    if cs.len() < 5 || !begins_with(&t, "\"#/") || !ends_with(&t, "\"") {
        return None;
    }
    let last: usize = cs.len() - 1;
    let mut i: usize = 3;
    while i < last
        invariant
            3 <= i <= last,
            last == cs@.len() - 1,
            cs@ == t@,
            t@ == trimmed(value@),
            t@.len() >= 5,
            forall|j: int| 3 <= j < i ==> is_plain(#[trigger] t@[j]),
        decreases last - i,
    {
        if !is_plain_char(cs[i]) {
            assert(!is_plain(t@[i as int]));
            return None;
        }
        i = i + 1;
    }
    let path = text_between(&cs, 3, last);
    proof {
        lemma_pieces_nonempty(path@, '/');
    }
    let parts = split_at_char(&path, '/');
    assert(texts(parts@).len() == parts@.len());
    let name = owned(&parts[parts.len() - 1]);
    let first = chars_of(&name);
    if first.len() == 0 || ('0' <= first[0] && first[0] <= '9') {
        return None;
    }
    Some(name)
}

/// The reference is one to the whole schema.
pub open spec fn is_whole_ref(value: Seq<char>) -> bool {
    trimmed(value) == "\"#\""@
}

/// From the part `value` of the schema `s`, at most `depth` references follow one
/// another before a smaller value is looked at, where `near`, and ever, where
/// not. A reference is followed to every member of the name that it ends in, at
/// any depth.
pub open spec fn settles(s: Seq<char>, value: Seq<char>, depth: nat, near: bool) -> bool
    decreases depth, 0int,
{
    forall|i: int|
        0 <= i < bearing(value, near).len() && (#[trigger] bearing(value, near)[i]).0 == "$ref"@
            ==> depth > 0 && target_settles(s, bearing(value, near)[i].1, (depth - 1) as nat, near)
}

/// From what a reference leads to, at most `depth` more follow one another.
pub open spec fn target_settles(s: Seq<char>, reference: Seq<char>, depth: nat, near: bool) -> bool
    decreases depth, 1int,
{
    if is_whole_ref(reference) {
        ids_are_at_top(s) && settles(s, s, depth, near)
    } else {
        ref_name(reference) is Some && forall|i: int|
            0 <= i < members(s).len() && (#[trigger] members(s)[i]).0 == ref_name(reference)->0
                ==> settles(s, members(s)[i].1, depth, near)
    }
}

/// From `i` on, some part below the top gives itself a name; `depth` brackets are
/// open, and `open` is where the string began that `i` is in.
pub open spec fn deep_id_from(s: Seq<char>, i: int, open: int, spot: Spot, depth: nat) -> bool
    decreases s.len() - i,
{
    if i < 0 || i >= s.len() {
        false
    } else if spot == Spot::Outside {
        let next = if s[i] == '{' || s[i] == '[' {
            depth + 1
        } else if (s[i] == '}' || s[i] == ']') && depth > 0 {
            (depth - 1) as nat
        } else {
            depth
        };
        deep_id_from(s, i + 1, i + 1, spot_after(spot, s[i]), next)
    } else if spot == Spot::InString && s[i] == '"' && depth > 1 && is_id_name(
        s.subrange(open, i),
    ) && has_text_value(s, i + 1) {
        true
    } else {
        deep_id_from(s, i + 1, open, spot_after(spot, s[i]), depth)
    }
}

/// The name of a member by which a part of a schema names itself.
pub open spec fn is_id_name(name: Seq<char>) -> bool {
    name == "id"@ || name == "$id"@
}

/// What stands behind a name is a string as its value.
pub open spec fn has_text_value(s: Seq<char>, i: int) -> bool {
    let at = behind_blanks(s, i);
    let value = behind_blanks(s, at + 1);
    0 <= at < s.len() && s[at] == ':' && 0 <= value < s.len() && s[value] == '"'
}

fn is_text_value(s: &Vec<char>, from: usize) -> (r: bool)
    requires
        from <= s@.len(),
    ensures
        r == has_text_value(s@, from as int),
{
    let at = skip_blanks(s, from);
    if at >= s.len() || s[at] != ':' {
        return false;
    }
    let value = skip_blanks(s, at + 1);
    value < s.len() && s[value] == '"'
}

/// Only the whole schema gives itself a name.
pub open spec fn ids_are_at_top(s: Seq<char>) -> bool {
    !deep_id_from(s, 0, 0, Spot::Outside, 0)
}

fn has_ids_at_top(text: &str) -> (r: bool)
    ensures
        r == ids_are_at_top(text@),
{
    let s = chars_of(text);
    let mut i: usize = 0;
    let mut open: usize = 0;
    let mut depth: usize = 0;
    let mut spot: Spot = Spot::Outside;
    while i < s.len()
        invariant
            open <= i <= s@.len(),
            s@ == text@,
            depth <= i,
            ids_are_at_top(text@) == !deep_id_from(
                s@,
                i as int,
                open as int,
                spot,
                depth as nat,
            ),
        decreases s@.len() - i,
    {
        let c = s[i];
        if spot == Spot::Outside {
            if c == '{' || c == '[' {
                depth = depth + 1;
            } else if (c == '}' || c == ']') && depth > 0 {
                depth = depth - 1;
            }
            open = i + 1;
        } else if spot == Spot::InString && c == '"' && depth > 1 {
            let name = text_between(&s, open, i);
            if (same_text(&name, "id") || same_text(&name, "$id")) && is_text_value(&s, i + 1) {
                return false;
            }
        }
        spot = next_spot(spot, c);
        i = i + 1;
    }
    true
}

fn check_target(
    schema: &str,
    all: &Vec<(String, String)>,
    reference: &str,
    depth: usize,
    near: bool,
) -> (r: bool)
    requires
        member_views(all@) == members(schema@),
    ensures
        r == target_settles(schema@, reference@, depth as nat, near),
    decreases depth, 1int,
{
    if same_text(&trim(reference), "\"#\"") {
        return has_ids_at_top(schema) && check_value(schema, all, schema, depth, near);
    }
    let name = match read_ref_name(reference) {
        Some(name) => name,
        None => {
            return false;
        },
    };
    let mut i: usize = 0;
    while i < all.len()
        invariant
            i <= all@.len(),
            member_views(all@) == members(schema@),
            !is_whole_ref(reference@),
            ref_name(reference@) == Some(name@),
            forall|j: int|
                0 <= j < i && (#[trigger] members(schema@)[j]).0 == name@ ==> settles(
                    schema@,
                    members(schema@)[j].1,
                    depth as nat,
                    near,
                ),
        decreases all@.len() - i,
    {
        assert(members(schema@)[i as int] == (all@[i as int].0@, all@[i as int].1@));
        if same_text(&all[i].0, &name) && !check_value(schema, all, &all[i].1, depth, near) {
            return false;
        }
        i = i + 1;
    }
    assert(members(schema@).len() == all@.len());
    true
}

fn check_value(
    schema: &str,
    all: &Vec<(String, String)>,
    value: &str,
    depth: usize,
    near: bool,
) -> (r: bool)
    requires
        member_views(all@) == members(schema@),
    ensures
        r == settles(schema@, value@, depth as nat, near),
    decreases depth, 0int,
{
    let inner = bearing_members(value, near);
    let mut i: usize = 0;
    while i < inner.len()
        invariant
            i <= inner@.len(),
            member_views(all@) == members(schema@),
            member_views(inner@) == bearing(value@, near),
            forall|j: int|
                0 <= j < i && (#[trigger] bearing(value@, near)[j]).0 == "$ref"@ ==> depth > 0
                    && target_settles(
                    schema@,
                    bearing(value@, near)[j].1,
                    (depth - 1) as nat,
                    near,
                ),
        decreases inner@.len() - i,
    {
        assert(bearing(value@, near)[i as int] == (inner@[i as int].0@, inner@[i as int].1@));
        if same_text(&inner[i].0, "$ref") {
            if depth == 0 || !check_target(schema, all, &inner[i].1, depth - 1, near) {
                return false;
            }
        }
        i = i + 1;
    }
    assert(bearing(value@, near).len() == inner@.len());
    true
}

/// Wherever in the schema a smaller value comes to be looked at, at most `depth`
/// references follow one another before a still smaller one is.
pub open spec fn settles_everywhere(s: Seq<char>, depth: nat) -> bool {
    settles(s, s, depth, true) && forall|i: int|
        0 <= i < members(s).len() ==> settles(s, (#[trigger] members(s)[i]).1, depth, true)
}

fn check_everywhere(schema: &str, all: &Vec<(String, String)>, depth: usize) -> (r: bool)
    requires
        member_views(all@) == members(schema@),
    ensures
        r == settles_everywhere(schema@, depth as nat),
{
    if !check_value(schema, all, schema, depth, true) {
        return false;
    }
    let mut i: usize = 0;
    while i < all.len()
        invariant
            i <= all@.len(),
            member_views(all@) == members(schema@),
            settles(schema@, schema@, depth as nat, true),
            forall|j: int|
                0 <= j < i ==> settles(
                    schema@,
                    (#[trigger] members(schema@)[j]).1,
                    depth as nat,
                    true,
                ),
        decreases all@.len() - i,
    {
        assert(members(schema@)[i as int] == (all@[i as int].0@, all@[i as int].1@));
        if !check_value(schema, all, &all[i].1, depth, true) {
            return false;
        }
        i = i + 1;
    }
    assert(members(schema@).len() == all@.len());
    true
}

/// The value of an `id` leaves references alone: it is no text, or one that
/// neither names the place of a pointer nor, in any spelling, one of the schemas
/// of schemas.
pub open spec fn id_is_plain(value: Seq<char>) -> bool {
    let t = trimmed(value);
    !begins(t, "\""@) || (forall|i: int|
        0 <= i < t.len() ==> is_plain(#[trigger] t[i]) || t[i] == '"' || t[i] == ':' || t[i]
            == '#') && !occurs(t, "#/"@) && !occurs(lowered(t), "json-schema"@)
}

fn check_id(value: &str) -> (r: bool)
    ensures
        r == id_is_plain(value@),
{
    let t = trim(value);
    if !begins_with(&t, "\"") {
        return true;
    }
    let cs = chars_of(&t);
    let mut small = String::new();
    let mut i: usize = 0;
    while i < cs.len()
        invariant
            i <= cs@.len(),
            cs@ == t@,
            t@ == trimmed(value@),
            begins(t@, "\""@),
            small@ =~= lowered(t@).subrange(0, i as int),
            forall|j: int|
                0 <= j < i ==> is_plain(#[trigger] t@[j]) || t@[j] == '"' || t@[j] == ':' || t@[j]
                    == '#',
        decreases cs@.len() - i,
    {
        let c = cs[i];
        if !is_plain_char(c) && c != '"' && c != ':' && c != '#' {
            assert(!is_plain(t@[i as int]));
            return false;
        }
        small.push(lower_char(c));
        i = i + 1;
    }
    assert(small@ =~= lowered(t@));
    !contains_text(&t, "#/") && !contains_text(&small, "json-schema")
}

/// No name that a part of the schema gives itself changes where a reference
/// leads.
pub open spec fn ids_are_plain(schema: Seq<char>) -> bool {
    forall|i: int|
        0 <= i < members(schema).len() && ((#[trigger] members(schema)[i]).0 == "id"@ || members(
            schema,
        )[i].0 == "$id"@) ==> id_is_plain(members(schema)[i].1)
}

/// No printable ASCII character is written as an escape, so that every keyword
/// stands as it is.
pub open spec fn is_spelled_out(schema: Seq<char>) -> bool {
    !occurs(schema, "\\u002"@) && !occurs(schema, "\\u003"@) && !occurs(schema, "\\u004"@) && !occurs(
        schema,
        "\\u005"@,
    ) && !occurs(schema, "\\u006"@) && !occurs(schema, "\\u007"@)
}

/// Whether no printable ASCII character is written as an escape.
pub fn spelled_out(text: &str) -> (r: bool)
    ensures
        r == is_spelled_out(text@),
{
    !contains_text(text, "\\u002") && !contains_text(text, "\\u003") && !contains_text(
        text,
        "\\u004",
    ) && !contains_text(text, "\\u005") && !contains_text(text, "\\u006") && !contains_text(
        text,
        "\\u007",
    )
}

/// Following the references of a schema comes to an end when a value is held
/// against it: every keyword stands as it is, and there are none, or each points
/// into the schema and few follow one another, ever or before a smaller value is
/// looked at. In the latter case schema and value are not nested too deep, and
/// no part of the schema is chosen by the name of a member.
pub open spec fn references_end(schema: Seq<char>, value: Seq<char>) -> bool {
    is_spelled_out(schema) && (!occurs(schema, "$ref"@) || ids_are_plain(schema) && (settles(
        schema,
        schema,
        REFERENCE_DEPTH as nat,
        false,
    ) || !occurs(schema, "dependencies"@) && nesting(schema) * nesting(value) <= NESTING_LIMIT
        && settles_everywhere(schema, NEAR_REFERENCE_DEPTH as nat)))
}

/// Whether following the references of a schema comes to an end when a value is
/// held against it.
pub fn has_ending_references(schema: &str, value: &str) -> (r: bool)
    ensures
        r == references_end(schema@, value@),
{
    if !spelled_out(schema) {
        return false;
    }
    if !contains_text(schema, "$ref") {
        return true;
    }
    let all = members_of(schema);
    let mut i: usize = 0;
    while i < all.len()
        invariant
            i <= all@.len(),
            member_views(all@) == members(schema@),
            is_spelled_out(schema@),
            occurs(schema@, "$ref"@),
            forall|j: int|
                0 <= j < i && ((#[trigger] members(schema@)[j]).0 == "id"@ || members(
                    schema@,
                )[j].0 == "$id"@) ==> id_is_plain(members(schema@)[j].1),
        decreases all@.len() - i,
    {
        assert(members(schema@)[i as int] == (all@[i as int].0@, all@[i as int].1@));
        if (same_text(&all[i].0, "id") || same_text(&all[i].0, "$id")) && !check_id(&all[i].1) {
            return false;
        }
        i = i + 1;
    }
    assert(members(schema@).len() == all@.len());
    if check_value(schema, &all, schema, REFERENCE_DEPTH, false) {
        return true;
    }
    if contains_text(schema, "dependencies") {
        return false;
    }
    let fits = match nesting_of(schema).checked_mul(nesting_of(value)) {
        Some(n) => n <= NESTING_LIMIT,
        None => false,
    };
    fits && check_everywhere(schema, &all, NEAR_REFERENCE_DEPTH)
}

} // verus!
