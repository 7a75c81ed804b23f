//! Reading a notation: the statements of a text, and what each of them says.
//!
//! A statement stands in brackets, or on a line of its own. Quotes hold their
//! content together: a bracket or a line break inside them ends nothing.

use crate::fabric::alias::{is_alias_name, is_name_char};
use crate::machine::graph::{Machine, MachineEdge, MachineStrand};
use crate::machine::serializer::{
    all_bracketed, bracketed, edge_count, edge_token, header, headers, laid_out, no_aliases,
    node_count, node_name, run_together, source_names, statements, strand_headers, strand_wirings,
    wiring, wirings, Aliases, NotationFormat,
};
use crate::text::{
    begins, begins_with, chars_of, cut, cut_at, decimal, digit, ends, ends_with, is_space,
    is_space_char, joined, lemma_cut_later, lemma_joined_front, lemma_pieces_nonempty, owned,
    pieces, split_at_char, text_between, texts,
};
use crate::urn::{
    cap_parse, cap_text, escaped, is_bare, is_plain_char, tags_wf, write_tag, write_tags,
    write_value, CapUrn, TagView,
};
use vstd::prelude::*;

verus! {

broadcast use vstd::string::group_string_axioms;

// ---------------------------------------------------------------------------
// Where statements end
// ---------------------------------------------------------------------------

/// Where a reader stands: outside quotes, inside them, or behind a backslash
/// inside them.
#[derive(Debug, Clone, Copy, PartialEq, Eq, Structural)]
pub enum Place {
    Outside,
    Inside,
    Escaped,
}

/// Where a reader stands after one character more; nowhere, once `stop` has
/// come outside quotes.
pub open spec fn step(place: Option<Place>, c: char, stop: char) -> Option<Place> {
    match place {
        None => None,
        Some(Place::Outside) => if c == stop {
            None
        } else if c == '"' {
            Some(Place::Inside)
        } else {
            Some(Place::Outside)
        },
        Some(Place::Inside) => if c == '\\' {
            Some(Place::Escaped)
        } else if c == '"' {
            Some(Place::Outside)
        } else {
            Some(Place::Inside)
        },
        Some(Place::Escaped) => Some(Place::Inside),
    }
}

/// Where a reader stands after a text.
pub open spec fn after(s: Seq<char>, place: Option<Place>, stop: char) -> Option<Place>
    decreases s.len(),
{
    if s.len() == 0 {
        place
    } else {
        step(after(s.drop_last(), place, stop), s.last(), stop)
    }
}

/// The first place from `n` on where `stop` stands outside quotes, or the end.
pub open spec fn ended_from(s: Seq<char>, n: nat, stop: char) -> nat
    decreases s.len() - n,
{
    if n >= s.len() {
        s.len()
    } else if after(s.subrange(0, n as int), Some(Place::Outside), stop) == Some(Place::Outside)
        && s[n as int] == stop {
        n
    } else {
        ended_from(s, n + 1, stop)
    }
}

/// Where the statement at the front of a text ends.
pub open spec fn ended(s: Seq<char>, stop: char) -> nat {
    ended_from(s, 0, stop)
}

/// The statements of a text: `None` where a bracket is not closed.
pub open spec fn split(s: Seq<char>) -> Option<Seq<Seq<char>>>
    decreases s.len(),
{
    if s.len() == 0 {
        Some(Seq::empty())
    } else if is_space(s[0]) {
        split(s.subrange(1, s.len() as int))
    } else if s[0] == '[' {
        let body = s.subrange(1, s.len() as int);
        let n = ended(body, ']');
        if n >= body.len() {
            None
        } else {
            match split(body.subrange(n as int + 1, body.len() as int)) {
                Some(rest) => Some(seq![body.subrange(0, n as int)] + rest),
                None => None,
            }
        }
    } else {
        let n = ended(s, '\n');
        if n >= s.len() {
            Some(seq![s])
        } else {
            match split(s.subrange(n as int + 1, s.len() as int)) {
                Some(rest) => Some(seq![s.subrange(0, n as int)] + rest),
                None => None,
            }
        }
    }
}

/// Where the statement that starts at `from` ends.
fn find_end(cs: &Vec<char>, from: usize, stop: char) -> (r: usize)
    requires
        from <= cs@.len(),
    ensures
        from <= r <= cs@.len(),
        r - from == ended(cs@.subrange(from as int, cs@.len() as int), stop),
{
    let ghost s = cs@.subrange(from as int, cs@.len() as int);
    let mut place: Place = Place::Outside;
    let mut i: usize = from;
    assert(s.subrange(0, 0) =~= Seq::<char>::empty());
    while i < cs.len()
        invariant
            from <= i <= cs@.len(),
            s == cs@.subrange(from as int, cs@.len() as int),
            after(s.subrange(0, i - from), Some(Place::Outside), stop) == Some(place),
            ended(s, stop) == ended_from(s, (i - from) as nat, stop),
        decreases cs@.len() - i,
    {
        let c = cs[i];
        let ghost n = i - from;
        assert(s[n] == c);
        assert(s.subrange(0, n + 1).drop_last() =~= s.subrange(0, n));
        match place {
            Place::Outside => {
                if c == stop {
                    return i;
                }
                if c == '"' {
                    place = Place::Inside;
                }
            },
            Place::Inside => {
                if c == '\\' {
                    place = Place::Escaped;
                } else if c == '"' {
                    place = Place::Outside;
                }
            },
            Place::Escaped => {
                place = Place::Inside;
            },
        }
        i = i + 1;
    }
    i
}

/// The statements of a text.
pub fn split_notation(text: &str) -> (r: Option<Vec<String>>)
    ensures
        match r {
            Some(v) => split(text@) == Some(texts(v@)),
            None => split(text@) is None,
        },
{
    let cs = chars_of(text);
    let mut out: Vec<String> = Vec::new();
    let mut i: usize = 0;
    assert(cs@.subrange(0, cs@.len() as int) =~= cs@);
    assert(texts(out@) =~= Seq::<Seq<char>>::empty());
    proof {
        if split(text@) is Some {
            assert(Seq::<Seq<char>>::empty() + split(text@)->0 =~= split(text@)->0);
        }
    }
    while i < cs.len()
        invariant
            i <= cs@.len(),
            cs@ == text@,
            split(text@) == match split(cs@.subrange(i as int, cs@.len() as int)) {
                Some(rest) => Some(texts(out@) + rest),
                None => None,
            },
        decreases cs@.len() - i,
    {
        let ghost s = cs@.subrange(i as int, cs@.len() as int);
        let ghost before = texts(out@);
        if is_space_char(cs[i]) {
            assert(s.subrange(1, s.len() as int) =~= cs@.subrange(i + 1, cs@.len() as int));
            i = i + 1;
        } else if cs[i] == '[' {
            let e = find_end(&cs, i + 1, ']');
            let ghost body = s.subrange(1, s.len() as int);
            assert(body =~= cs@.subrange(i + 1, cs@.len() as int));
            if e >= cs.len() {
                return None;
            }
            let statement = text_between(&cs, i + 1, e);
            let ghost n = e - i - 1;
            assert(statement@ =~= body.subrange(0, n));
            assert(body.subrange(n + 1, body.len() as int) =~= cs@.subrange(
                e + 1,
                cs@.len() as int,
            ));
            let ghost t = statement@;
            out.push(statement);
            assert(texts(out@) =~= before.push(t));
            i = e + 1;
            proof {
                let later = split(cs@.subrange(i as int, cs@.len() as int));
                if later is Some {
                    assert(before + (seq![t] + later->0) =~= before.push(t) + later->0);
                }
            }
        } else {
            let e = find_end(&cs, i, '\n');
            let statement = text_between(&cs, i, e);
            let ghost n = e - i;
            assert(statement@ =~= s.subrange(0, n));
            let ghost t = statement@;
            out.push(statement);
            assert(texts(out@) =~= before.push(t));
            if e < cs.len() {
                assert(s.subrange(n + 1, s.len() as int) =~= cs@.subrange(
                    e + 1,
                    cs@.len() as int,
                ));
                i = e + 1;
                proof {
                    let later = split(cs@.subrange(i as int, cs@.len() as int));
                    if later is Some {
                        assert(before + (seq![t] + later->0) =~= before.push(t) + later->0);
                    }
                }
            } else {
                assert(t =~= s);
                i = cs.len();
                assert(cs@.subrange(i as int, cs@.len() as int) =~= Seq::<char>::empty());
                assert(before + seq![t] =~= before.push(t) + Seq::<Seq<char>>::empty());
            }
        }
    }
    assert(cs@.subrange(i as int, cs@.len() as int) =~= Seq::<char>::empty());
    assert(texts(out@) + Seq::<Seq<char>>::empty() =~= texts(out@));
    Some(out)
}

// ---------------------------------------------------------------------------
// What a statement says
// ---------------------------------------------------------------------------

/// A statement: a word for a cap, or a cap between data positions.
#[derive(Debug)]
pub enum Statement {
    Header { token: String, cap: CapUrn },
    Wiring { sources: Vec<String>, is_loop: bool, token: String, target: String },
}

/// A statement in the model.
#[verifier::ext_equal]
pub ghost enum StatementView {
    Header { token: Seq<char>, cap: Seq<TagView> },
    Wiring { sources: Seq<Seq<char>>, is_loop: bool, token: Seq<char>, target: Seq<char> },
}

impl View for Statement {
    type V = StatementView;

    open spec fn view(&self) -> StatementView {
        match self {
            Statement::Header { token, cap } => StatementView::Header { token: token@, cap: cap@ },
            Statement::Wiring { sources, is_loop, token, target } => StatementView::Wiring {
                sources: texts(sources@),
                is_loop: *is_loop,
                token: token@,
                target: target@,
            },
        }
    }
}

/// A text without the space at its front.
pub open spec fn without_space(s: Seq<char>) -> Seq<char> {
    if s.len() > 0 && s[0] == ' ' {
        s.subrange(1, s.len() as int)
    } else {
        s
    }
}

/// The names between commas.
pub open spec fn listed(s: Seq<char>) -> Seq<Seq<char>> {
    let ps = pieces(s, ',');
    Seq::new(ps.len(), |i: int| without_space(ps[i]))
}

/// The data positions that feed a cap: one name, or names in parentheses.
pub open spec fn read_group(g: Seq<char>) -> Seq<Seq<char>> {
    if g.len() >= 2 && g[0] == '(' && g.last() == ')' {
        let inner = g.subrange(1, g.len() - 1);
        if inner.len() == 0 {
            Seq::empty()
        } else {
            listed(inner)
        }
    } else {
        seq![g]
    }
}

/// Whether the cap runs for each item, and what stands for it.
pub open spec fn read_cap_part(s: Seq<char>) -> (bool, Seq<char>) {
    if begins(s, "LOOP "@) {
        (true, s.subrange(5, s.len() as int))
    } else {
        (false, s)
    }
}

/// A wiring: three parts with arrows between them.
pub open spec fn read_wiring(t: Seq<char>) -> Option<StatementView> {
    match cut(t, '>') {
        None => None,
        Some((a, rest)) => match cut(rest, '>') {
            None => None,
            Some((b, c)) => if ends(a, " -"@) && b.len() >= 3 && begins(b, " "@) && ends(b, " -"@)
                && begins(c, " "@) {
                let (is_loop, token) = read_cap_part(b.subrange(1, b.len() - 2));
                Some(
                    StatementView::Wiring {
                        sources: read_group(a.subrange(0, a.len() - 2)),
                        is_loop,
                        token,
                        target: c.subrange(1, c.len() as int),
                    },
                )
            } else {
                None
            },
        },
    }
}

/// A statement: a header if a cap URN follows its first word, else a wiring.
pub open spec fn read_one(t: Seq<char>) -> Option<StatementView> {
    match cut(t, ' ') {
        None => None,
        Some((head, tail)) => if begins(tail, "cap:"@) {
            match cap_parse(tail) {
                Some(cap) => Some(StatementView::Header { token: head, cap }),
                None => None,
            }
        } else {
            read_wiring(t)
        },
    }
}

/// The data positions that feed a cap.
fn parse_group(g: &str) -> (r: Vec<String>)
    ensures
        texts(r@) == read_group(g@),
{
    let cs = chars_of(g);
    let mut out: Vec<String> = Vec::new();
    if cs.len() >= 2 && cs[0] == '(' && cs[cs.len() - 1] == ')' {
        if cs.len() == 2 {
            assert(texts(out@) =~= Seq::<Seq<char>>::empty());
            return out;
        }
        let inner = text_between(&cs, 1, cs.len() - 1);
        let parts = split_at_char(&inner, ',');
        let mut i: usize = 0;
        while i < parts.len()
            invariant
                i <= parts@.len(),
                out@.len() == i,
                texts(parts@) == pieces(inner@, ','),
                forall|j: int| 0 <= j < i ==> (#[trigger] out@[j])@ == without_space(parts@[j]@),
            decreases parts@.len() - i,
        {
            let ps = chars_of(&parts[i]);
            if ps.len() > 0 && ps[0] == ' ' {
                out.push(text_between(&ps, 1, ps.len()));
            } else {
                out.push(owned(&parts[i]));
            }
            i = i + 1;
        }
        proof {
            let ps = pieces(inner@, ',');
            assert(ps.len() == parts@.len());
            assert forall|j: int| 0 <= j < ps.len() implies ps[j] == (#[trigger] parts@[j])@ by {
                assert(texts(parts@)[j] == parts@[j]@);
            }
            assert(texts(out@) =~= listed(inner@));
        }
        return out;
    }
    out.push(owned(g));
    assert(texts(out@) =~= seq![g@]);
    out
}

/// A wiring.
fn parse_wiring(t: &str) -> (r: Option<Statement>)
    ensures
        match r {
            Some(s) => read_wiring(t@) == Some(s@),
            None => read_wiring(t@) is None,
        },
{
    match cut_at(t, '>') {
        None => None,
        Some((a, rest)) => match cut_at(&rest, '>') {
            None => None,
            Some((b, c)) => {
                let acs = chars_of(&a);
                let bcs = chars_of(&b);
                let ccs = chars_of(&c);
                if !ends_with(&a, " -") || bcs.len() < 3 || !begins_with(&b, " ") || !ends_with(
                    &b,
                    " -",
                ) || !begins_with(&c, " ") {
                    return None;
                }
                proof {
                    reveal_strlit(" -");
                    reveal_strlit(" ");
                    reveal_strlit("LOOP ");
                }
                let sources = parse_group(&text_between(&acs, 0, acs.len() - 2));
                let cap = text_between(&bcs, 1, bcs.len() - 2);
                let target = text_between(&ccs, 1, ccs.len());
                if begins_with(&cap, "LOOP ") {
                    let kcs = chars_of(&cap);
                    let token = text_between(&kcs, 5, kcs.len());
                    return Some(Statement::Wiring { sources, is_loop: true, token, target });
                }
                Some(Statement::Wiring { sources, is_loop: false, token: cap, target })
            },
        },
    }
}

/// What a statement says.
pub fn read_statement(t: &str) -> (r: Option<Statement>)
    ensures
        match r {
            Some(s) => read_one(t@) == Some(s@),
            None => read_one(t@) is None,
        },
{
    match cut_at(t, ' ') {
        None => None,
        Some((token, tail)) => {
            if begins_with(&tail, "cap:") {
                match CapUrn::from_string(&tail) {
                    Ok(cap) => Some(Statement::Header { token, cap }),
                    Err(_) => None,
                }
            } else {
                parse_wiring(t)
            }
        },
    }
}

/// Why a text is no notation.
#[derive(Debug, Clone, Copy, PartialEq, Eq, Structural)]
pub enum NotationError {
    /// A bracket is not closed.
    Unclosed,
    /// The statement with this index says nothing.
    Unreadable(usize),
}

/// Reads a notation.
pub fn read_notation(text: &str) -> (r: Result<Vec<Statement>, NotationError>)
    ensures
        match split(text@) {
            None => r == Err::<Vec<Statement>, NotationError>(NotationError::Unclosed),
            Some(ts) => match r {
                Ok(v) => {
                    &&& v@.len() == ts.len()
                    &&& forall|i: int| 0 <= i < ts.len() ==> read_one(ts[i]) == Some(
                        (#[trigger] v@[i])@,
                    )
                },
                Err(NotationError::Unreadable(i)) => {
                    &&& i < ts.len()
                    &&& read_one(ts[i as int]) is None
                    &&& forall|j: int| 0 <= j < i ==> read_one(#[trigger] ts[j]) is Some
                },
                Err(NotationError::Unclosed) => false,
            },
        },
{
    let parts = match split_notation(text) {
        Some(v) => v,
        None => {
            return Err(NotationError::Unclosed);
        },
    };
    let ghost ts = texts(parts@);
    let mut out: Vec<Statement> = Vec::new();
    let mut i: usize = 0;
    while i < parts.len()
        invariant
            i <= parts@.len(),
            ts == texts(parts@),
            split(text@) == Some(ts),
            out@.len() == i,
            forall|j: int| 0 <= j < i ==> read_one(ts[j]) == Some((#[trigger] out@[j])@),
            forall|j: int| 0 <= j < i ==> read_one(#[trigger] ts[j]) is Some,
        decreases parts@.len() - i,
    {
        assert(ts[i as int] == parts@[i as int]@);
        match read_statement(&parts[i]) {
            Some(s) => {
                out.push(s);
            },
            None => {
                return Err(NotationError::Unreadable(i));
            },
        }
        i = i + 1;
    }
    Ok(out)
}

// ---------------------------------------------------------------------------
// What is written reads back
// ---------------------------------------------------------------------------

/// A reader goes through two texts as through one.
proof fn lemma_after_add(a: Seq<char>, b: Seq<char>, place: Option<Place>, stop: char)
    ensures
        after(a + b, place, stop) == after(b, after(a, place, stop), stop),
    decreases b.len(),
{
    if b.len() == 0 {
        assert(a + b =~= a);
    } else {
        assert((a + b).drop_last() =~= a + b.drop_last());
        lemma_after_add(a, b.drop_last(), place, stop);
    }
}

/// A reader that stands nowhere stays there.
proof fn lemma_after_none(s: Seq<char>, stop: char)
    ensures
        after(s, None, stop) is None,
    decreases s.len(),
{
    if s.len() > 0 {
        lemma_after_none(s.drop_last(), stop);
    }
}

/// A text without quotes and without `stop` leaves a reader outside.
proof fn lemma_after_plain(s: Seq<char>, stop: char)
    requires
        forall|i: int| 0 <= i < s.len() ==> #[trigger] s[i] != '"' && s[i] != stop,
    ensures
        after(s, Some(Place::Outside), stop) == Some(Place::Outside),
    decreases s.len(),
{
    if s.len() > 0 {
        lemma_after_plain(s.drop_last(), stop);
    }
}

/// An escaped text leaves a reader inside the quotes.
proof fn lemma_after_escaped(v: Seq<char>, stop: char)
    ensures
        after(escaped(v), Some(Place::Inside), stop) == Some(Place::Inside),
    decreases v.len(),
{
    if v.len() > 0 {
        let before = escaped(v.drop_last());
        lemma_after_escaped(v.drop_last(), stop);
        let c = v.last();
        if c == '"' || c == '\\' {
            let mid = before.push('\\');
            let all = mid.push(c);
            assert(mid.drop_last() =~= before);
            assert(all.drop_last() =~= mid);
            assert(after(mid, Some(Place::Inside), stop) == Some(Place::Escaped));
        } else {
            assert(before.push(c).drop_last() =~= before);
        }
    }
}

/// A character that ends statements.
spec fn is_stop(stop: char) -> bool {
    stop == ']' || stop == '\n'
}

/// A value leaves a reader outside.
proof fn lemma_after_value(v: Seq<char>, stop: char)
    requires
        is_stop(stop),
    ensures
        after(write_value(v), Some(Place::Outside), stop) == Some(Place::Outside),
{
    if is_bare(v) {
        lemma_after_plain(v, stop);
    } else {
        reveal_with_fuel(after, 2);
        let open = seq!['"'];
        let close = seq!['"'];
        assert(after(open, Some(Place::Outside), stop) == Some(Place::Inside));
        lemma_after_add(open, escaped(v), Some(Place::Outside), stop);
        lemma_after_escaped(v, stop);
        lemma_after_add(open + escaped(v), close, Some(Place::Outside), stop);
        assert(after(close, Some(Place::Inside), stop) == Some(Place::Outside));
    }
}

/// A tag leaves a reader outside.
proof fn lemma_after_tag(t: TagView, stop: char)
    requires
        is_stop(stop),
        forall|j: int| 0 <= j < t.key.len() ==> is_plain_char(#[trigger] t.key[j]),
    ensures
        after(write_tag(t), Some(Place::Outside), stop) == Some(Place::Outside),
{
    lemma_after_plain(t.key, stop);
    match t.value {
        None => {},
        Some(v) => {
            lemma_after_plain(seq!['='], stop);
            lemma_after_add(t.key, seq!['='], Some(Place::Outside), stop);
            lemma_after_value(v, stop);
            lemma_after_add(t.key + seq!['='], write_value(v), Some(Place::Outside), stop);
        },
    }
}

/// Joined texts that each leave a reader outside do so together.
proof fn lemma_after_joined(parts: Seq<Seq<char>>, sep: Seq<char>, stop: char)
    requires
        after(sep, Some(Place::Outside), stop) == Some(Place::Outside),
        forall|i: int|
            0 <= i < parts.len() ==> after(#[trigger] parts[i], Some(Place::Outside), stop) == Some(
                Place::Outside,
            ),
    ensures
        after(joined(parts, sep), Some(Place::Outside), stop) == Some(Place::Outside),
    decreases parts.len(),
{
    if parts.len() >= 2 {
        let front = parts.drop_last();
        lemma_after_joined(front, sep, stop);
        lemma_after_add(joined(front, sep), sep, Some(Place::Outside), stop);
        lemma_after_add(joined(front, sep) + sep, parts.last(), Some(Place::Outside), stop);
    }
}

/// A cap URN leaves a reader outside.
proof fn lemma_after_cap(ts: Seq<TagView>, stop: char)
    requires
        is_stop(stop),
        tags_wf(ts),
    ensures
        after(cap_text(ts), Some(Place::Outside), stop) == Some(Place::Outside),
{
    reveal_strlit("cap");
    let parts = ts.map_values(|t: TagView| write_tag(t));
    assert forall|i: int| 0 <= i < parts.len() implies after(
        #[trigger] parts[i],
        Some(Place::Outside),
        stop,
    ) == Some(Place::Outside) by {
        lemma_after_tag(ts[i], stop);
    }
    lemma_after_plain(seq![';'], stop);
    lemma_after_joined(parts, seq![';'], stop);
    lemma_after_plain("cap"@, stop);
    lemma_after_plain(seq![':'], stop);
    lemma_after_add("cap"@, seq![':'], Some(Place::Outside), stop);
    lemma_after_add("cap"@ + seq![':'], write_tags(ts), Some(Place::Outside), stop);
}

/// A text that leaves a reader outside ends where `stop` follows it.
proof fn lemma_ended_at(s: Seq<char>, n: nat, len: nat, stop: char)
    requires
        n <= len <= s.len(),
        after(s.subrange(0, len as int), Some(Place::Outside), stop) == Some(Place::Outside),
        len < s.len() ==> s[len as int] == stop,
    ensures
        ended_from(s, n, stop) == len,
    decreases len - n,
{
    if n < len {
        let t = s.subrange(0, len as int);
        if after(s.subrange(0, n as int), Some(Place::Outside), stop) == Some(Place::Outside)
            && s[n as int] == stop {
            let head = s.subrange(0, n as int + 1);
            let tail = s.subrange(n as int + 1, len as int);
            assert(head.drop_last() =~= s.subrange(0, n as int));
            assert(t =~= head + tail);
            lemma_after_add(head, tail, Some(Place::Outside), stop);
            lemma_after_none(tail, stop);
        }
        lemma_ended_at(s, n + 1, len, stop);
    }
}

/// A statement that a reader gets whole in every layout.
pub open spec fn is_whole(t: Seq<char>) -> bool {
    &&& t.len() > 0
    &&& !is_space(t[0])
    &&& t[0] != '['
    &&& after(t, Some(Place::Outside), ']') == Some(Place::Outside)
    &&& after(t, Some(Place::Outside), '\n') == Some(Place::Outside)
}

/// Every statement is whole.
pub open spec fn all_whole(ss: Seq<Seq<char>>) -> bool {
    forall|i: int| 0 <= i < ss.len() ==> is_whole(#[trigger] ss[i])
}

/// A statement in brackets comes out, and reading goes on behind it.
proof fn lemma_split_bracket(t: Seq<char>, rest: Seq<char>)
    requires
        is_whole(t),
    ensures
        split(bracketed(t) + rest) == match split(rest) {
            Some(more) => Some(seq![t] + more),
            None => None,
        },
{
    reveal_strlit("[");
    reveal_strlit("]");
    let s = bracketed(t) + rest;
    let body = s.subrange(1, s.len() as int);
    assert(s[0] == '[');
    assert(!is_space('['));
    assert(body.subrange(0, t.len() as int) =~= t);
    assert(body[t.len() as int] == ']');
    lemma_ended_at(body, 0, t.len(), ']');
    assert(body.subrange(t.len() as int + 1, body.len() as int) =~= rest);
}

/// Texts that run together are the first and the rest.
proof fn lemma_run_front(ss: Seq<Seq<char>>)
    requires
        ss.len() > 0,
    ensures
        run_together(ss) == ss[0] + run_together(ss.drop_first()),
    decreases ss.len(),
{
    if ss.len() == 1 {
        assert(ss.drop_last() =~= Seq::<Seq<char>>::empty());
        assert(ss.drop_first() =~= Seq::<Seq<char>>::empty());
        assert(run_together(ss) =~= ss[0] + run_together(ss.drop_first()));
    } else {
        lemma_run_front(ss.drop_last());
        assert(ss.drop_last().drop_first() =~= ss.drop_first().drop_last());
        assert(ss.drop_first().last() == ss.last());
        assert(run_together(ss) =~= ss[0] + run_together(ss.drop_first()));
    }
}

/// Statements in brackets come out as they went in.
proof fn lemma_split_run(ss: Seq<Seq<char>>)
    requires
        all_whole(ss),
    ensures
        split(run_together(all_bracketed(ss))) == Some(ss),
    decreases ss.len(),
{
    let bs = all_bracketed(ss);
    if ss.len() == 0 {
        assert(bs.len() == 0);
        assert(ss =~= Seq::<Seq<char>>::empty());
    } else {
        let rest = ss.drop_first();
        assert forall|i: int| 0 <= i < rest.len() implies is_whole(#[trigger] rest[i]) by {
            assert(is_whole(ss[i + 1]));
        }
        lemma_split_run(rest);
        lemma_run_front(bs);
        assert(bs.drop_first() =~= all_bracketed(rest));
        lemma_split_bracket(ss[0], run_together(all_bracketed(rest)));
        assert(seq![ss[0]] + rest =~= ss);
    }
}

/// Statements on lines come out as they went in.
proof fn lemma_split_lines(ss: Seq<Seq<char>>)
    requires
        all_whole(ss),
    ensures
        split(joined(ss, "\n"@)) == Some(ss),
    decreases ss.len(),
{
    reveal_strlit("\n");
    let s = joined(ss, "\n"@);
    if ss.len() == 0 {
        assert(ss =~= Seq::<Seq<char>>::empty());
    } else if ss.len() == 1 {
        let t = ss[0];
        assert(is_whole(t));
        assert(t.subrange(0, t.len() as int) =~= t);
        lemma_ended_at(t, 0, t.len(), '\n');
        assert(seq![t] =~= ss);
    } else {
        let t = ss[0];
        let rest = ss.drop_first();
        assert(is_whole(t));
        assert forall|i: int| 0 <= i < rest.len() implies is_whole(#[trigger] rest[i]) by {
            assert(is_whole(ss[i + 1]));
        }
        lemma_split_lines(rest);
        lemma_joined_front(ss, "\n"@);
        let more = joined(rest, "\n"@);
        assert(s == t + "\n"@ + more);
        assert(s.subrange(0, t.len() as int) =~= t);
        assert(s[t.len() as int] == '\n');
        assert(s[0] == t[0]);
        lemma_ended_at(s, 0, t.len(), '\n');
        assert(s.subrange(t.len() as int + 1, s.len() as int) =~= more);
        assert(seq![t] + rest =~= ss);
    }
}

/// Statements in brackets on lines come out as they went in.
proof fn lemma_split_bracket_lines(ss: Seq<Seq<char>>)
    requires
        all_whole(ss),
    ensures
        split(joined(all_bracketed(ss), "\n"@)) == Some(ss),
    decreases ss.len(),
{
    reveal_strlit("\n");
    let bs = all_bracketed(ss);
    if ss.len() == 0 {
        assert(ss =~= Seq::<Seq<char>>::empty());
    } else {
        let rest = ss.drop_first();
        assert(is_whole(ss[0]));
        assert forall|i: int| 0 <= i < rest.len() implies is_whole(#[trigger] rest[i]) by {
            assert(is_whole(ss[i + 1]));
        }
        lemma_split_bracket_lines(rest);
        assert(bs.drop_first() =~= all_bracketed(rest));
        if ss.len() == 1 {
            assert(rest =~= Seq::<Seq<char>>::empty());
            lemma_split_bracket(ss[0], Seq::empty());
            assert(bracketed(ss[0]) + Seq::<char>::empty() =~= joined(bs, "\n"@));
            assert(seq![ss[0]] + rest =~= ss);
        } else {
            lemma_joined_front(bs, "\n"@);
            let more = joined(all_bracketed(rest), "\n"@);
            let tail = "\n"@ + more;
            assert(joined(bs, "\n"@) =~= bracketed(ss[0]) + tail);
            lemma_split_bracket(ss[0], tail);
            assert(is_space('\n'));
            assert(tail.subrange(1, tail.len() as int) =~= more);
            assert(seq![ss[0]] + rest =~= ss);
        }
    }
}

/// Law: whole statements come out of every layout as they went in, quoted
/// brackets and line breaks and all.
pub proof fn law_layout_reads_back(ss: Seq<Seq<char>>, format: NotationFormat)
    requires
        all_whole(ss),
    ensures
        split(laid_out(ss, format)) == Some(ss),
        split(joined(all_bracketed(ss), "\n"@)) == Some(ss),
{
    lemma_split_run(ss);
    lemma_split_lines(ss);
    lemma_split_bracket_lines(ss);
}

/// The first `c` of a text parts it.
proof fn lemma_cut(a: Seq<char>, c: char, b: Seq<char>)
    requires
        forall|i: int| 0 <= i < a.len() ==> #[trigger] a[i] != c,
    ensures
        cut(a + seq![c] + b, c) == Some((a, b)),
{
    let s = a + seq![c] + b;
    let n = a.len() as int;
    lemma_cut_later(s, c, n);
    let rest = s.subrange(n, s.len() as int);
    assert(rest[0] == c);
    assert(rest.subrange(1, rest.len() as int) =~= b);
    assert(s.subrange(0, n) + Seq::<char>::empty() =~= a);
}

/// The digits of a number are digits.
pub proof fn lemma_decimal_digits(n: nat)
    ensures
        decimal(n).len() > 0,
        forall|i: int| 0 <= i < decimal(n).len() ==> '0' <= #[trigger] decimal(n)[i] <= '9',
    decreases n,
{
    if n >= 10 {
        lemma_decimal_digits(n / 10);
        lemma_digit((n % 10) as int);
    } else {
        lemma_digit(n as int);
    }
}

/// A digit is one.
proof fn lemma_digit(d: int)
    requires
        0 <= d < 10,
    ensures
        '0' <= digit(d) <= '9',
        digit(d) as int == 48 + d,
{
}

/// Different numbers are written differently.
pub proof fn lemma_decimal_injective(a: nat, b: nat)
    requires
        decimal(a) == decimal(b),
    ensures
        a == b,
    decreases a,
{
    if a >= 10 {
        lemma_decimal_digits(a / 10);
        lemma_digit((a % 10) as int);
        assert(decimal(a) == decimal(a / 10).push(digit((a % 10) as int)));
    } else {
        lemma_digit(a as int);
        assert(decimal(a) == seq![digit(a as int)]);
    }
    if b >= 10 {
        lemma_decimal_digits(b / 10);
        lemma_digit((b % 10) as int);
        assert(decimal(b) == decimal(b / 10).push(digit((b % 10) as int)));
    } else {
        lemma_digit(b as int);
        assert(decimal(b) == seq![digit(b as int)]);
    }
    if a < 10 && b < 10 {
        assert(decimal(a)[0] == digit(a as int));
        assert(decimal(b)[0] == digit(b as int));
    } else if a >= 10 && b >= 10 {
        assert(decimal(a).drop_last() =~= decimal(a / 10));
        assert(decimal(b).drop_last() =~= decimal(b / 10));
        assert(decimal(a).last() == digit((a % 10) as int));
        assert(decimal(b).last() == digit((b % 10) as int));
        lemma_decimal_injective(a / 10, b / 10);
    } else if a < 10 {
        assert(decimal(a).len() == 1);
        assert(decimal(b).len() == decimal(b / 10).len() + 1);
    } else {
        assert(decimal(b).len() == 1);
        assert(decimal(a).len() == decimal(a / 10).len() + 1);
    }
}

/// Names of data positions are words, and different for different positions.
proof fn lemma_node_name(n: int)
    requires
        n >= 0,
    ensures
        is_alias_name(node_name(n)),
        node_name(n)[0] == 'n',
{
    reveal_strlit("n");
    lemma_decimal_digits(n as nat);
    let name = node_name(n);
    assert forall|i: int| 0 <= i < name.len() implies is_name_char(#[trigger] name[i]) by {
        if i > 0 {
            assert(name[i] == decimal(n as nat)[i - 1]);
        }
    }
}

/// One name is of one data position.
proof fn lemma_node_name_injective(a: int, b: int)
    requires
        a >= 0,
        b >= 0,
        node_name(a) == node_name(b),
    ensures
        a == b,
{
    reveal_strlit("n");
    assert(node_name(a).subrange(1, node_name(a).len() as int) =~= decimal(a as nat));
    assert(node_name(b).subrange(1, node_name(b).len() as int) =~= decimal(b as nat));
    lemma_decimal_injective(a as nat, b as nat);
}

/// Numbered caps have words.
proof fn lemma_edge_word(n: int)
    requires
        n >= 0,
    ensures
        is_alias_name("edge_"@ + decimal(n as nat)),
{
    reveal_strlit("edge_");
    lemma_decimal_digits(n as nat);
    let name = "edge_"@ + decimal(n as nat);
    assert forall|i: int| 0 <= i < name.len() implies is_name_char(#[trigger] name[i]) by {
        if i >= 5 {
            assert(name[i] == decimal(n as nat)[i - 5]);
        }
    }
}

/// A word holds nothing that parts statements.
proof fn lemma_word(t: Seq<char>)
    requires
        is_alias_name(t),
    ensures
        forall|i: int|
            0 <= i < t.len() ==> {
                &&& #[trigger] t[i] != ' '
                &&& t[i] != '>'
                &&& t[i] != ','
                &&& t[i] != '"'
                &&& t[i] != ']'
                &&& t[i] != '['
                &&& t[i] != '\n'
                &&& t[i] != '('
                &&& t[i] != ')'
                &&& t[i] != 'L'
            },
        !is_space(t[0]),
{
    assert forall|i: int| 0 <= i < t.len() implies {
        &&& #[trigger] t[i] != ' '
        &&& t[i] != '>'
        &&& t[i] != ','
        &&& t[i] != '"'
        &&& t[i] != ']'
        &&& t[i] != '['
        &&& t[i] != '\n'
        &&& t[i] != '('
        &&& t[i] != ')'
        &&& t[i] != 'L'
    } by {
        assert(is_name_char(t[i]));
    }
    assert(is_name_char(t[0]));
}

/// A cap that reads back.
pub open spec fn is_readable(cap: Seq<TagView>) -> bool {
    tags_wf(cap) && cap_parse(cap_text(cap)) == Some(cap)
}

/// Law: a header reads back as the word and the cap that it was written for.
pub proof fn law_header_reads_back(edge: MachineEdge, token: Seq<char>)
    requires
        is_alias_name(token),
        is_readable(edge.cap_urn@),
    ensures
        is_whole(header(edge, token)),
        read_one(header(edge, token)) == Some(
            StatementView::Header { token, cap: edge.cap_urn@ },
        ),
{
    reveal_strlit(" ");
    reveal_strlit("cap");
    reveal_strlit("cap:");
    lemma_word(token);
    let text = cap_text(edge.cap_urn@);
    let h = header(edge, token);
    assert(h =~= token + seq![' '] + text);
    lemma_cut(token, ' ', text);
    assert(text.subrange(0, 4) =~= "cap:"@);
    assert(h[0] == token[0]);
    lemma_header_after(token, edge.cap_urn@, ']');
    lemma_header_after(token, edge.cap_urn@, '\n');
}

/// A header leaves a reader outside.
proof fn lemma_header_after(token: Seq<char>, cap: Seq<TagView>, stop: char)
    requires
        is_alias_name(token),
        tags_wf(cap),
        is_stop(stop),
    ensures
        after(token + " "@ + cap_text(cap), Some(Place::Outside), stop) == Some(Place::Outside),
{
    reveal_strlit(" ");
    lemma_word(token);
    lemma_after_plain(token, stop);
    lemma_after_plain(" "@, stop);
    lemma_after_add(token, " "@, Some(Place::Outside), stop);
    lemma_after_cap(cap, stop);
    lemma_after_add(token + " "@, cap_text(cap), Some(Place::Outside), stop);
}

/// A text without `sep` lengthens the last piece.
proof fn lemma_pieces_tail(a: Seq<char>, b: Seq<char>, sep: char)
    requires
        forall|i: int| 0 <= i < b.len() ==> #[trigger] b[i] != sep,
    ensures
        pieces(a + b, sep) == pieces(a, sep).update(
            pieces(a, sep).len() - 1,
            pieces(a, sep).last() + b,
        ),
    decreases b.len(),
{
    lemma_pieces_nonempty(a, sep);
    let p = pieces(a, sep);
    if b.len() == 0 {
        assert(a + b =~= a);
        assert(p.last() + b =~= p.last());
        assert(p.update(p.len() - 1, p.last()) =~= p);
    } else {
        let c = b.last();
        let short = b.drop_last();
        lemma_pieces_tail(a, short, sep);
        assert((a + b).drop_last() =~= a + short);
        assert((a + b).last() == c);
        let q = pieces(a + short, sep);
        assert(q.last() == p.last() + short);
        assert((p.last() + short).push(c) =~= p.last() + b);
        assert(q.update(q.len() - 1, q.last().push(c)) =~= p.update(
            p.len() - 1,
            p.last() + b,
        ));
    }
}

/// Names that are joined by commas are listed as they were.
proof fn lemma_listed(names: Seq<Seq<char>>)
    requires
        names.len() > 0,
        forall|i: int| 0 <= i < names.len() ==> is_alias_name(#[trigger] names[i]),
    ensures
        listed(joined(names, ", "@)) == names,
        pieces(joined(names, ", "@), ',').len() == names.len(),
    decreases names.len(),
{
    reveal_strlit(", ");
    let s = joined(names, ", "@);
    let last = names.last();
    assert(is_alias_name(last));
    lemma_word(last);
    if names.len() == 1 {
        assert(Seq::<char>::empty() + last =~= last);
        assert(pieces(Seq::<char>::empty(), ',') =~= seq![Seq::<char>::empty()]);
        lemma_pieces_tail(Seq::empty(), last, ',');
        assert(pieces(last, ',') =~= seq![last]);
        assert(listed(s) =~= names);
    } else {
        let front = names.drop_last();
        assert forall|i: int| 0 <= i < front.len() implies is_alias_name(
            #[trigger] front[i],
        ) by {
            assert(is_alias_name(names[i]));
        }
        lemma_listed(front);
        let f = joined(front, ", "@);
        let comma = f.push(',');
        let tail = seq![' '] + last;
        assert(s =~= comma + tail);
        assert(comma.drop_last() =~= f);
        assert(pieces(comma, ',') == pieces(f, ',').push(Seq::<char>::empty()));
        assert forall|i: int| 0 <= i < tail.len() implies #[trigger] tail[i] != ',' by {
            if i > 0 {
                assert(tail[i] == last[i - 1]);
            }
        }
        lemma_pieces_tail(comma, tail, ',');
        assert(Seq::<char>::empty() + tail =~= tail);
        assert(pieces(s, ',') =~= pieces(f, ',').push(tail));
        assert(tail.subrange(1, tail.len() as int) =~= last);
        assert(without_space(tail) == last);
        assert forall|i: int| 0 <= i < names.len() implies listed(s)[i] == names[i] by {
            if i < front.len() {
                assert(listed(f)[i] == front[i]);
                assert(pieces(s, ',')[i] == pieces(f, ',')[i]);
            }
        }
        assert(listed(s) =~= names);
    }
}

/// The group of names in front of a wiring.
spec fn group_text(names: Seq<Seq<char>>) -> Seq<char> {
    if names.len() == 1 {
        names[0]
    } else {
        "("@ + joined(names, ", "@) + ")"@
    }
}

/// A group of names holds nothing that ends statements or arrows, and is read
/// as it was written.
proof fn lemma_group(names: Seq<Seq<char>>)
    requires
        forall|i: int| 0 <= i < names.len() ==> is_alias_name(#[trigger] names[i]),
    ensures
        read_group(group_text(names)) == names,
        group_text(names).len() > 0,
        !is_space(group_text(names)[0]),
        group_text(names)[0] != '[',
        forall|i: int|
            0 <= i < group_text(names).len() ==> {
                &&& #[trigger] group_text(names)[i] != '>'
                &&& group_text(names)[i] != '"'
                &&& group_text(names)[i] != ']'
                &&& group_text(names)[i] != '\n'
            },
{
    reveal_strlit("(");
    reveal_strlit(")");
    reveal_strlit(", ");
    let g = group_text(names);
    let inner = joined(names, ", "@);
    lemma_joined_chars(names);
    if names.len() == 1 {
        assert(is_alias_name(names[0]));
        lemma_word(names[0]);
        assert(read_group(g) =~= names);
    } else {
        assert(g.subrange(1, g.len() - 1) =~= inner);
        if names.len() == 0 {
            assert(inner.len() == 0);
            assert(read_group(g) =~= names);
        } else {
            lemma_listed(names);
            lemma_joined_nonempty(names);
        }
        assert forall|i: int| 0 <= i < g.len() implies {
            &&& #[trigger] g[i] != '>'
            &&& g[i] != '"'
            &&& g[i] != ']'
            &&& g[i] != '\n'
        } by {
            if 0 < i < g.len() - 1 {
                assert(g[i] == inner[i - 1]);
            }
        }
        assert(!is_space('('));
    }
}

/// Joined names are not empty.
proof fn lemma_joined_nonempty(names: Seq<Seq<char>>)
    requires
        names.len() > 0,
        forall|i: int| 0 <= i < names.len() ==> is_alias_name(#[trigger] names[i]),
    ensures
        joined(names, ", "@).len() > 0,
        joined(names, ", "@)[0] == names[0][0],
    decreases names.len(),
{
    assert(is_alias_name(names[0]));
    if names.len() > 1 {
        let front = names.drop_last();
        assert forall|i: int| 0 <= i < front.len() implies is_alias_name(
            #[trigger] front[i],
        ) by {
            assert(is_alias_name(names[i]));
        }
        lemma_joined_nonempty(front);
    }
}

/// Joined names hold the characters of names, commas and spaces.
proof fn lemma_joined_chars(names: Seq<Seq<char>>)
    requires
        forall|i: int| 0 <= i < names.len() ==> is_alias_name(#[trigger] names[i]),
    ensures
        forall|i: int|
            0 <= i < joined(names, ", "@).len() ==> is_name_char(
                #[trigger] joined(names, ", "@)[i],
            ) || joined(names, ", "@)[i] == ',' || joined(names, ", "@)[i] == ' ',
    decreases names.len(),
{
    reveal_strlit(", ");
    let s = joined(names, ", "@);
    if names.len() == 1 {
        assert(is_alias_name(names[0]));
    } else if names.len() > 1 {
        let front = names.drop_last();
        assert forall|i: int| 0 <= i < front.len() implies is_alias_name(
            #[trigger] front[i],
        ) by {
            assert(is_alias_name(names[i]));
        }
        lemma_joined_chars(front);
        let f = joined(front, ", "@);
        assert(is_alias_name(names.last()));
        assert forall|i: int| 0 <= i < s.len() implies is_name_char(#[trigger] s[i]) || s[i] == ','
            || s[i] == ' ' by {
            if i < f.len() {
                assert(s[i] == f[i]);
            } else if i >= f.len() + 2 {
                assert(s[i] == names.last()[i - f.len() - 2]);
            }
        }
    }
}

/// The cap part of a wiring.
spec fn cap_part(is_loop: bool, token: Seq<char>) -> Seq<char> {
    (if is_loop {
        "LOOP "@
    } else {
        ""@
    }) + token
}

/// The cap part of a wiring is read as it was written.
proof fn lemma_cap_part(is_loop: bool, token: Seq<char>)
    requires
        is_alias_name(token),
    ensures
        read_cap_part(cap_part(is_loop, token)) == (is_loop, token),
        cap_part(is_loop, token).len() > 0,
        forall|i: int|
            0 <= i < cap_part(is_loop, token).len() ==> {
                &&& #[trigger] cap_part(is_loop, token)[i] != '>'
                &&& cap_part(is_loop, token)[i] != '"'
                &&& cap_part(is_loop, token)[i] != ']'
                &&& cap_part(is_loop, token)[i] != '\n'
            },
{
    reveal_strlit("LOOP ");
    reveal_strlit("");
    lemma_word(token);
    let p = cap_part(is_loop, token);
    if is_loop {
        assert(p.subrange(0, 5) =~= "LOOP "@);
        assert(p.subrange(5, p.len() as int) =~= token);
        assert forall|i: int| 0 <= i < p.len() implies {
            &&& #[trigger] p[i] != '>'
            &&& p[i] != '"'
            &&& p[i] != ']'
            &&& p[i] != '\n'
        } by {
            if i >= 5 {
                assert(p[i] == token[i - 5]);
            }
        }
    } else {
        assert(p =~= token);
        if begins(p, "LOOP "@) {
            assert(p.subrange(0, 5)[0] == "LOOP "@[0]);
        }
    }
}

/// What follows the first space of a wiring is no cap URN.
proof fn lemma_wiring_is_no_header(names: Seq<Seq<char>>, rest: Seq<char>)
    requires
        forall|i: int| 0 <= i < names.len() ==> is_alias_name(#[trigger] names[i]),
        forall|i: int| 0 <= i < names.len() ==> (#[trigger] names[i])[0] == 'n',
    ensures
        cut(group_text(names) + " -> "@ + rest, ' ') matches Some((_, tail)) && !begins(
            tail,
            "cap:"@,
        ),
{
    reveal_strlit("(");
    reveal_strlit(")");
    reveal_strlit(", ");
    reveal_strlit(" -> ");
    reveal_strlit("cap:");
    let s = group_text(names) + " -> "@ + rest;
    if names.len() >= 2 {
        let more = names.drop_first();
        assert forall|i: int| 0 <= i < more.len() implies is_alias_name(#[trigger] more[i]) by {
            assert(is_alias_name(names[i + 1]));
        }
        assert(more[0] == names[1]);
        lemma_joined_front(names, ", "@);
        lemma_joined_nonempty(more);
        let head = "("@ + names[0] + seq![','];
        let tail = joined(more, ", "@) + ")"@ + " -> "@ + rest;
        assert(is_alias_name(names[0]));
        lemma_word(names[0]);
        assert(s =~= head + seq![' '] + tail);
        assert forall|i: int| 0 <= i < head.len() implies #[trigger] head[i] != ' ' by {
            if 0 < i < head.len() - 1 {
                assert(head[i] == names[0][i - 1]);
            }
        }
        lemma_cut(head, ' ', tail);
        assert(tail[0] == 'n');
        if begins(tail, "cap:"@) {
            assert(tail.subrange(0, 4)[0] == "cap:"@[0]);
        }
    } else {
        let head = group_text(names);
        let tail = "-> "@ + rest;
        reveal_strlit("-> ");
        if names.len() == 1 {
            assert(is_alias_name(names[0]));
            lemma_word(names[0]);
        } else {
            assert(joined(names, ", "@).len() == 0);
        }
        assert(s =~= head + seq![' '] + tail);
        lemma_cut(head, ' ', tail);
        assert(tail[0] == '-');
        if begins(tail, "cap:"@) {
            assert(tail.subrange(0, 4)[0] == "cap:"@[0]);
        }
    }
}

/// A wiring reads back.
proof fn lemma_wiring(
    names: Seq<Seq<char>>,
    is_loop: bool,
    token: Seq<char>,
    target: Seq<char>,
)
    requires
        forall|i: int| 0 <= i < names.len() ==> is_alias_name(#[trigger] names[i]),
        forall|i: int| 0 <= i < names.len() ==> (#[trigger] names[i])[0] == 'n',
        is_alias_name(token),
        is_alias_name(target),
    ensures
        ({
            let t = group_text(names) + " -> "@ + cap_part(is_loop, token) + " -> "@ + target;
            &&& is_whole(t)
            &&& read_one(t) == Some(
                StatementView::Wiring { sources: names, is_loop, token, target },
            )
        }),
{
    reveal_strlit(" -> ");
    reveal_strlit(" -");
    reveal_strlit(" ");
    let g = group_text(names);
    let p = cap_part(is_loop, token);
    let t = g + " -> "@ + p + " -> "@ + target;
    lemma_group(names);
    lemma_cap_part(is_loop, token);
    lemma_word(target);
    let a = g + " -"@;
    let b = " "@ + p + " -"@;
    let c = " "@ + target;
    let rest = b + seq!['>'] + c;
    assert(t =~= a + seq!['>'] + rest);
    assert forall|i: int| 0 <= i < a.len() implies #[trigger] a[i] != '>' by {
        if i < g.len() {
            assert(a[i] == g[i]);
        }
    }
    assert forall|i: int| 0 <= i < b.len() implies #[trigger] b[i] != '>' by {
        if 0 < i < b.len() - 2 {
            assert(b[i] == p[i - 1]);
        }
    }
    lemma_cut(a, '>', rest);
    lemma_cut(b, '>', c);
    assert(a.subrange(a.len() - 2, a.len() as int) =~= " -"@);
    assert(a.subrange(0, a.len() - 2) =~= g);
    assert(b.subrange(0, 1) =~= " "@);
    assert(b.subrange(b.len() - 2, b.len() as int) =~= " -"@);
    assert(b.subrange(1, b.len() - 2) =~= p);
    assert(c.subrange(0, 1) =~= " "@);
    assert(c.subrange(1, c.len() as int) =~= target);
    assert(read_wiring(t) == Some(
        StatementView::Wiring { sources: names, is_loop, token, target },
    ));
    let behind = p + " -> "@ + target;
    assert(t =~= g + " -> "@ + behind);
    lemma_wiring_is_no_header(names, behind);
    assert forall|i: int| 0 <= i < t.len() implies {
        &&& #[trigger] t[i] != '"'
        &&& t[i] != ']'
        &&& t[i] != '\n'
    } by {
        let at_p = g.len() + 4;
        let at_c = at_p + p.len() + 4;
        if i < g.len() {
            assert(t[i] == g[i]);
        } else if at_p <= i < at_p + p.len() {
            assert(t[i] == p[i - at_p]);
        } else if i >= at_c {
            assert(t[i] == target[i - at_c]);
        } else if i < at_p {
            assert(t[i] == " -> "@[i - g.len()]);
        } else {
            assert(t[i] == " -> "@[i - at_p - p.len()]);
        }
    }
    lemma_after_plain(t, ']');
    lemma_after_plain(t, '\n');
    assert(t[0] == g[0]);
}

/// Law: a wiring reads back as what feeds the cap, whether it loops, the word
/// for the cap, and where its result goes.
pub proof fn law_wiring_reads_back(edge: MachineEdge, token: Seq<char>, base: int)
    requires
        is_alias_name(token),
        base >= 0,
    ensures
        is_whole(wiring(edge, token, base)),
        read_one(wiring(edge, token, base)) == Some(
            StatementView::Wiring {
                sources: source_names(edge, base),
                is_loop: edge.is_loop,
                token,
                target: node_name(base + edge.target),
            },
        ),
{
    let names = source_names(edge, base);
    assert forall|i: int| 0 <= i < names.len() implies is_alias_name(#[trigger] names[i]) by {
        lemma_node_name(base + edge.assignment@[i].source);
    }
    assert forall|i: int| 0 <= i < names.len() implies (#[trigger] names[i])[0] == 'n' by {
        lemma_node_name(base + edge.assignment@[i].source);
    }
    lemma_node_name(base + edge.target);
    lemma_wiring(names, edge.is_loop, token, node_name(base + edge.target));
    let g = group_text(names);
    let target = node_name(base + edge.target);
    assert(wiring(edge, token, base) =~= g + " -> "@ + cap_part(edge.is_loop, token) + " -> "@
        + target);
}

/// Every alias is a word.
pub open spec fn aliases_are_words(aliases: Aliases) -> bool {
    forall|urn: Seq<char>| (#[trigger] aliases(urn)) matches Some(a) ==> is_alias_name(a)
}

/// Every cap of the strand reads back.
pub open spec fn caps_readable(strand: MachineStrand) -> bool {
    forall|i: int|
        0 <= i < strand.edges@.len() ==> is_readable((#[trigger] strand.edges@[i]).cap_urn@)
}

/// Every cap of the strands reads back.
pub open spec fn all_readable(strands: Seq<MachineStrand>) -> bool {
    forall|i: int| 0 <= i < strands.len() ==> caps_readable(#[trigger] strands[i])
}

/// The statement is whole and says something.
pub open spec fn says_something(t: Seq<char>) -> bool {
    is_whole(t) && read_one(t) is Some
}

/// Every statement is whole and says something.
pub open spec fn all_say(ss: Seq<Seq<char>>) -> bool {
    forall|i: int| 0 <= i < ss.len() ==> says_something(#[trigger] ss[i])
}

/// Statements that say something do so together.
proof fn lemma_all_say_add(a: Seq<Seq<char>>, b: Seq<Seq<char>>)
    requires
        all_say(a),
        all_say(b),
    ensures
        all_say(a + b),
{
    let ss = a + b;
    assert forall|i: int| 0 <= i < ss.len() implies says_something(#[trigger] ss[i]) by {
        if i < a.len() {
            assert(ss[i] == a[i]);
        } else {
            assert(ss[i] == b[i - a.len()]);
        }
    }
}

/// What stands for a cap is a word.
proof fn lemma_edge_token(edge: MachineEdge, n: int, aliases: Aliases)
    requires
        n >= 0,
        aliases_are_words(aliases),
    ensures
        is_alias_name(edge_token(edge, n, aliases)),
{
    lemma_edge_word(n);
}

/// The headers of a strand say something.
proof fn lemma_strand_headers(strand: MachineStrand, n: int, first: int, aliases: Aliases)
    requires
        0 <= n <= strand.edges@.len(),
        first >= 0,
        aliases_are_words(aliases),
        caps_readable(strand),
    ensures
        all_say(strand_headers(strand, n, first, aliases)),
    decreases n,
{
    if n > 0 {
        lemma_strand_headers(strand, n - 1, first, aliases);
        let edge = strand.edges@[n - 1];
        assert(is_readable(strand.edges@[n - 1].cap_urn@));
        let token = edge_token(edge, first + n - 1, aliases);
        lemma_edge_token(edge, first + n - 1, aliases);
        law_header_reads_back(edge, token);
        let before = strand_headers(strand, n - 1, first, aliases);
        lemma_all_say_add(before, seq![header(edge, token)]);
        assert(before + seq![header(edge, token)] =~= before.push(header(edge, token)));
    }
}

/// The wirings of a strand say something.
proof fn lemma_strand_wirings(
    strand: MachineStrand,
    n: int,
    first: int,
    base: int,
    aliases: Aliases,
)
    requires
        0 <= n <= strand.edges@.len(),
        first >= 0,
        base >= 0,
        aliases_are_words(aliases),
    ensures
        all_say(strand_wirings(strand, n, first, base, aliases)),
    decreases n,
{
    if n > 0 {
        lemma_strand_wirings(strand, n - 1, first, base, aliases);
        let edge = strand.edges@[n - 1];
        let token = edge_token(edge, first + n - 1, aliases);
        lemma_edge_token(edge, first + n - 1, aliases);
        law_wiring_reads_back(edge, token, base);
        let before = strand_wirings(strand, n - 1, first, base, aliases);
        lemma_all_say_add(before, seq![wiring(edge, token, base)]);
        assert(before + seq![wiring(edge, token, base)] =~= before.push(
            wiring(edge, token, base),
        ));
    }
}

/// The statements of strands say something.
proof fn lemma_statements(strands: Seq<MachineStrand>, aliases: Aliases)
    requires
        aliases_are_words(aliases),
        all_readable(strands),
    ensures
        all_say(headers(strands, aliases)),
        all_say(wirings(strands, aliases)),
    decreases strands.len(),
{
    if strands.len() > 0 {
        let rest = strands.drop_last();
        let s = strands.last();
        assert forall|i: int| 0 <= i < rest.len() implies caps_readable(#[trigger] rest[i]) by {
            assert(caps_readable(strands[i]));
        }
        assert(caps_readable(strands[strands.len() - 1]));
        lemma_statements(rest, aliases);
        lemma_strand_headers(s, s.edges@.len() as int, edge_count(rest) as int, aliases);
        lemma_strand_wirings(
            s,
            s.edges@.len() as int,
            edge_count(rest) as int,
            node_count(rest) as int,
            aliases,
        );
        lemma_all_say_add(
            headers(rest, aliases),
            strand_headers(s, s.edges@.len() as int, edge_count(rest) as int, aliases),
        );
        lemma_all_say_add(
            wirings(rest, aliases),
            strand_wirings(
                s,
                s.edges@.len() as int,
                edge_count(rest) as int,
                node_count(rest) as int,
                aliases,
            ),
        );
    }
}

/// Law: a machine's notation reads back as its statements, in every layout, and
/// each of them says something.
pub proof fn law_notation_reads_back(machine: Machine, aliases: Aliases, format: NotationFormat)
    requires
        aliases_are_words(aliases),
        all_readable(machine.strands@),
    ensures
        split(laid_out(statements(machine.strands@, aliases), format)) == Some(
            statements(machine.strands@, aliases),
        ),
        split(joined(all_bracketed(statements(machine.strands@, aliases)), "\n"@)) == Some(
            statements(machine.strands@, aliases),
        ),
        forall|i: int|
            0 <= i < statements(machine.strands@, aliases).len() ==> read_one(
                #[trigger] statements(machine.strands@, aliases)[i],
            ) is Some,
{
    lemma_statements(machine.strands@, aliases);
    let ss = statements(machine.strands@, aliases);
    lemma_all_say_add(headers(machine.strands@, aliases), wirings(machine.strands@, aliases));
    assert forall|i: int| 0 <= i < ss.len() implies is_whole(#[trigger] ss[i]) by {
        assert(says_something(ss[i]));
    }
    assert forall|i: int| 0 <= i < ss.len() implies read_one(#[trigger] ss[i]) is Some by {
        assert(says_something(ss[i]));
    }
    law_layout_reads_back(ss, format);
}

// ---------------------------------------------------------------------------
// A notation stands for one graph
// ---------------------------------------------------------------------------

/// An edge of a machine, with the data positions of all strands numbered
/// through.
#[verifier::ext_equal]
pub ghost struct FlatEdge {
    pub cap: Seq<TagView>,
    pub sources: Seq<int>,
    pub target: int,
    pub is_loop: bool,
}

/// An edge of a strand whose first data position has the number `base`.
pub open spec fn flat_edge(edge: MachineEdge, base: int) -> FlatEdge {
    FlatEdge {
        cap: edge.cap_urn@,
        sources: Seq::new(edge.assignment@.len(), |i: int| base + edge.assignment@[i].source),
        target: base + edge.target,
        is_loop: edge.is_loop,
    }
}

/// The edges of all strands.
pub open spec fn flat_edges(strands: Seq<MachineStrand>) -> Seq<FlatEdge>
    decreases strands.len(),
{
    if strands.len() == 0 {
        Seq::empty()
    } else {
        let rest = strands.drop_last();
        let s = strands.last();
        flat_edges(rest) + Seq::new(
            s.edges@.len(),
            |i: int| flat_edge(s.edges@[i], node_count(rest) as int),
        )
    }
}

/// What the header of the edge with this number says.
spec fn header_says(e: FlatEdge, n: int) -> StatementView {
    StatementView::Header { token: "edge_"@ + decimal(n as nat), cap: e.cap }
}

/// What the wiring of the edge with this number says.
spec fn wiring_says(e: FlatEdge, n: int) -> StatementView {
    StatementView::Wiring {
        sources: Seq::new(e.sources.len(), |i: int| node_name(e.sources[i])),
        is_loop: e.is_loop,
        token: "edge_"@ + decimal(n as nat),
        target: node_name(e.target),
    }
}

/// The headers of a strand, one by one.
proof fn lemma_header_at(strand: MachineStrand, n: int, first: int)
    requires
        0 <= n <= strand.edges@.len(),
    ensures
        strand_headers(strand, n, first, no_aliases()).len() == n,
        forall|i: int|
            0 <= i < n ==> #[trigger] strand_headers(strand, n, first, no_aliases())[i] == header(
                strand.edges@[i],
                "edge_"@ + decimal((first + i) as nat),
            ),
    decreases n,
{
    if n > 0 {
        lemma_header_at(strand, n - 1, first);
    }
}

/// The wirings of a strand, one by one.
proof fn lemma_wiring_at(strand: MachineStrand, n: int, first: int, base: int)
    requires
        0 <= n <= strand.edges@.len(),
    ensures
        strand_wirings(strand, n, first, base, no_aliases()).len() == n,
        forall|i: int|
            0 <= i < n ==> #[trigger] strand_wirings(strand, n, first, base, no_aliases())[i]
                == wiring(strand.edges@[i], "edge_"@ + decimal((first + i) as nat), base),
    decreases n,
{
    if n > 0 {
        lemma_wiring_at(strand, n - 1, first, base);
    }
}

/// The statements of all strands, one by one.
proof fn lemma_says(strands: Seq<MachineStrand>)
    requires
        all_readable(strands),
    ensures
        flat_edges(strands).len() == edge_count(strands),
        headers(strands, no_aliases()).len() == edge_count(strands),
        wirings(strands, no_aliases()).len() == edge_count(strands),
        forall|i: int|
            0 <= i < edge_count(strands) ==> read_one(#[trigger] headers(strands, no_aliases())[i])
                == Some(header_says(flat_edges(strands)[i], i)),
        forall|i: int|
            0 <= i < edge_count(strands) ==> read_one(#[trigger] wirings(strands, no_aliases())[i])
                == Some(wiring_says(flat_edges(strands)[i], i)),
    decreases strands.len(),
{
    if strands.len() > 0 {
        let rest = strands.drop_last();
        let s = strands.last();
        let first = edge_count(rest) as int;
        let base = node_count(rest) as int;
        let n = s.edges@.len() as int;
        assert forall|i: int| 0 <= i < rest.len() implies caps_readable(#[trigger] rest[i]) by {
            assert(caps_readable(strands[i]));
        }
        assert(caps_readable(strands[strands.len() - 1]));
        lemma_says(rest);
        lemma_header_at(s, n, first);
        lemma_wiring_at(s, n, first, base);
        let hs = headers(strands, no_aliases());
        let ws = wirings(strands, no_aliases());
        let fs = flat_edges(strands);
        assert forall|i: int| 0 <= i < edge_count(strands) implies read_one(#[trigger] hs[i])
            == Some(header_says(fs[i], i)) by {
            if i < first {
                assert(hs[i] == headers(rest, no_aliases())[i]);
                assert(fs[i] == flat_edges(rest)[i]);
            } else {
                let k = i - first;
                assert(hs[i] == strand_headers(s, n, first, no_aliases())[k]);
                assert(fs[i] == flat_edge(s.edges@[k], base));
                assert(is_readable(s.edges@[k].cap_urn@));
                lemma_edge_word(i);
                law_header_reads_back(s.edges@[k], "edge_"@ + decimal(i as nat));
            }
        }
        assert forall|i: int| 0 <= i < edge_count(strands) implies read_one(#[trigger] ws[i])
            == Some(wiring_says(fs[i], i)) by {
            if i < first {
                assert(ws[i] == wirings(rest, no_aliases())[i]);
                assert(fs[i] == flat_edges(rest)[i]);
            } else {
                let k = i - first;
                assert(ws[i] == strand_wirings(s, n, first, base, no_aliases())[k]);
                assert(fs[i] == flat_edge(s.edges@[k], base));
                lemma_edge_word(i);
                law_wiring_reads_back(s.edges@[k], "edge_"@ + decimal(i as nat), base);
                assert(source_names(s.edges@[k], base) =~= Seq::new(
                    fs[i].sources.len(),
                    |j: int| node_name(fs[i].sources[j]),
                ));
            }
        }
    }
}

/// Data positions have numbers from 0 on.
proof fn lemma_flat_numbers(strands: Seq<MachineStrand>)
    ensures
        forall|i: int| 0 <= i < flat_edges(strands).len() ==> (#[trigger] flat_edges(strands)[i]).target >= 0,
        forall|i: int, j: int|
            0 <= i < flat_edges(strands).len() && 0 <= j < flat_edges(strands)[i].sources.len()
                ==> #[trigger] flat_edges(strands)[i].sources[j] >= 0,
    decreases strands.len(),
{
    if strands.len() > 0 {
        let rest = strands.drop_last();
        let s = strands.last();
        lemma_flat_numbers(rest);
        let fs = flat_edges(strands);
        let n = flat_edges(rest).len() as int;
        assert forall|i: int| 0 <= i < fs.len() implies (#[trigger] fs[i]).target >= 0 by {
            if i < n {
                assert(fs[i] == flat_edges(rest)[i]);
            } else {
                assert(fs[i] == flat_edge(s.edges@[i - n], node_count(rest) as int));
            }
        }
        assert forall|i: int, j: int|
            0 <= i < fs.len() && 0 <= j < fs[i].sources.len() implies #[trigger] fs[i].sources[j]
            >= 0 by {
            if i < n {
                assert(fs[i] == flat_edges(rest)[i]);
                assert(flat_edges(rest)[i].sources[j] >= 0);
            } else {
                assert(fs[i] == flat_edge(s.edges@[i - n], node_count(rest) as int));
            }
        }
    }
}

/// Law: machines with one notation have the same caps between the same data
/// positions, in the same order. Nothing of how a machine is wired is lost in
/// its notation.
pub proof fn law_notation_determines_edges(a: Machine, b: Machine, format: NotationFormat)
    requires
        all_readable(a.strands@),
        all_readable(b.strands@),
        laid_out(statements(a.strands@, no_aliases()), format) == laid_out(
            statements(b.strands@, no_aliases()),
            format,
        ),
    ensures
        flat_edges(a.strands@) == flat_edges(b.strands@),
{
    let x = a.strands@;
    let y = b.strands@;
    law_notation_reads_back(a, no_aliases(), format);
    law_notation_reads_back(b, no_aliases(), format);
    let ss = statements(x, no_aliases());
    assert(ss == statements(y, no_aliases()));
    lemma_says(x);
    lemma_says(y);
    lemma_flat_numbers(x);
    lemma_flat_numbers(y);
    let n = edge_count(x);
    assert(ss.len() == n + n);
    assert(ss.len() == edge_count(y) + edge_count(y));
    let fx = flat_edges(x);
    let fy = flat_edges(y);
    assert forall|i: int| 0 <= i < n implies #[trigger] fx[i] == fy[i] by {
        assert(ss[i] == headers(x, no_aliases())[i]);
        assert(ss[i] == headers(y, no_aliases())[i]);
        assert(ss[n + i] == wirings(x, no_aliases())[i]);
        assert(ss[n + i] == wirings(y, no_aliases())[i]);
        assert(header_says(fx[i], i) == header_says(fy[i], i));
        assert(wiring_says(fx[i], i) == wiring_says(fy[i], i));
        assert(fx[i].cap == fy[i].cap);
        assert(fx[i].is_loop == fy[i].is_loop);
        assert(fx[i].target >= 0 && fy[i].target >= 0);
        lemma_node_name_injective(fx[i].target, fy[i].target);
        let nx = Seq::new(fx[i].sources.len(), |j: int| node_name(fx[i].sources[j]));
        let ny = Seq::new(fy[i].sources.len(), |j: int| node_name(fy[i].sources[j]));
        assert(nx == ny);
        assert(nx.len() == fx[i].sources.len() && ny.len() == fy[i].sources.len());
        assert forall|j: int| 0 <= j < fx[i].sources.len() implies fx[i].sources[j]
            == fy[i].sources[j] by {
            assert(nx[j] == ny[j]);
            assert(fx[i].sources[j] >= 0 && fy[i].sources[j] >= 0);
            lemma_node_name_injective(fx[i].sources[j], fy[i].sources[j]);
        }
        assert(fx[i].sources =~= fy[i].sources);
    }
    assert(fx =~= fy);
}

/// The wiring of an edge whose data positions are numbered through.
spec fn flat_wiring(e: FlatEdge, token: Seq<char>) -> Seq<char> {
    let names = Seq::new(e.sources.len(), |i: int| node_name(e.sources[i]));
    let group = if names.len() == 1 {
        names[0]
    } else {
        "("@ + joined(names, ", "@) + ")"@
    };
    group + " -> "@ + (if e.is_loop {
        "LOOP "@
    } else {
        ""@
    }) + token + " -> "@ + node_name(e.target)
}

/// What is written of an edge is settled by it and its number.
proof fn lemma_flat_texts(strands: Seq<MachineStrand>)
    ensures
        flat_edges(strands).len() == edge_count(strands),
        headers(strands, no_aliases()).len() == edge_count(strands),
        wirings(strands, no_aliases()).len() == edge_count(strands),
        forall|i: int|
            0 <= i < edge_count(strands) ==> #[trigger] headers(strands, no_aliases())[i]
                == "edge_"@ + decimal(i as nat) + " "@ + cap_text(flat_edges(strands)[i].cap),
        forall|i: int|
            0 <= i < edge_count(strands) ==> #[trigger] wirings(strands, no_aliases())[i]
                == flat_wiring(flat_edges(strands)[i], "edge_"@ + decimal(i as nat)),
    decreases strands.len(),
{
    if strands.len() > 0 {
        let rest = strands.drop_last();
        let s = strands.last();
        let first = edge_count(rest) as int;
        let base = node_count(rest) as int;
        let n = s.edges@.len() as int;
        lemma_flat_texts(rest);
        lemma_header_at(s, n, first);
        lemma_wiring_at(s, n, first, base);
        let hs = headers(strands, no_aliases());
        let ws = wirings(strands, no_aliases());
        let fs = flat_edges(strands);
        assert forall|i: int| 0 <= i < edge_count(strands) implies #[trigger] hs[i] == "edge_"@
            + decimal(i as nat) + " "@ + cap_text(fs[i].cap) by {
            if i < first {
                assert(hs[i] == headers(rest, no_aliases())[i]);
                assert(fs[i] == flat_edges(rest)[i]);
            } else {
                let k = i - first;
                assert(hs[i] == strand_headers(s, n, first, no_aliases())[k]);
                assert(fs[i] == flat_edge(s.edges@[k], base));
            }
        }
        assert forall|i: int| 0 <= i < edge_count(strands) implies #[trigger] ws[i]
            == flat_wiring(fs[i], "edge_"@ + decimal(i as nat)) by {
            if i < first {
                assert(ws[i] == wirings(rest, no_aliases())[i]);
                assert(fs[i] == flat_edges(rest)[i]);
            } else {
                let k = i - first;
                let e = s.edges@[k];
                assert(ws[i] == strand_wirings(s, n, first, base, no_aliases())[k]);
                assert(fs[i] == flat_edge(e, base));
                assert(source_names(e, base) =~= Seq::new(
                    fs[i].sources.len(),
                    |j: int| node_name(fs[i].sources[j]),
                ));
            }
        }
    }
}

/// Law: machines with the same caps between the same data positions, in the same
/// order, have one notation in every layout. So a machine that is made from what
/// a notation says is written as that notation again.
pub proof fn law_edges_determine_notation(a: Machine, b: Machine, format: NotationFormat)
    requires
        flat_edges(a.strands@) == flat_edges(b.strands@),
    ensures
        statements(a.strands@, no_aliases()) == statements(b.strands@, no_aliases()),
        laid_out(statements(a.strands@, no_aliases()), format) == laid_out(
            statements(b.strands@, no_aliases()),
            format,
        ),
{
    lemma_flat_texts(a.strands@);
    lemma_flat_texts(b.strands@);
    assert(headers(a.strands@, no_aliases()) =~= headers(b.strands@, no_aliases()));
    assert(wirings(a.strands@, no_aliases()) =~= wirings(b.strands@, no_aliases()));
}

/// The data positions of the first strands come before those of the later ones.
proof fn lemma_node_count_grows(strands: Seq<MachineStrand>, s: int, t: int)
    requires
        0 <= s < t <= strands.len(),
    ensures
        node_count(strands.subrange(0, s)) + strands[s].nodes@.len() <= node_count(
            strands.subrange(0, t),
        ),
    decreases t - s,
{
    if t == s + 1 {
        assert(strands.subrange(0, t).drop_last() =~= strands.subrange(0, s));
    } else {
        lemma_node_count_grows(strands, s, t - 1);
        assert(strands.subrange(0, t).drop_last() =~= strands.subrange(0, t - 1));
    }
}

/// The edge names the data position.
pub open spec fn touches(e: FlatEdge, n: int) -> bool {
    e.target == n || e.sources.contains(n)
}

/// An edge of a machine's strand, with the data positions numbered through.
pub open spec fn edge_of(strands: Seq<MachineStrand>, s: int, i: int) -> FlatEdge {
    flat_edge(strands[s].edges@[i], node_count(strands.subrange(0, s)) as int)
}

/// What an edge names lies among the positions of its strand.
proof fn lemma_touches(strands: Seq<MachineStrand>, s: int, i: int, n: int)
    requires
        0 <= s < strands.len(),
        strands[s].wf(),
        0 <= i < strands[s].edges@.len(),
        touches(edge_of(strands, s, i), n),
    ensures
        node_count(strands.subrange(0, s)) <= n < node_count(strands.subrange(0, s))
            + strands[s].nodes@.len(),
{
    let edge = strands[s].edges@[i];
    let e = edge_of(strands, s, i);
    assert(edge.wf(strands[s].nodes@.len()));
    if e.target != n {
        let k = choose|k: int| 0 <= k < e.sources.len() && e.sources[k] == n;
        assert(edge.assignment@[k].source < strands[s].nodes@.len());
    }
}

/// Law: edges of different strands have no data position in common, and no name
/// of one. What is connected in a notation is of one strand.
pub proof fn law_strands_share_no_positions(
    machine: Machine,
    s: int,
    t: int,
    i: int,
    j: int,
    n: int,
    m: int,
)
    requires
        machine.wf(),
        0 <= s < t < machine.strands@.len(),
        0 <= i < machine.strands@[s].edges@.len(),
        0 <= j < machine.strands@[t].edges@.len(),
        touches(edge_of(machine.strands@, s, i), n),
        touches(edge_of(machine.strands@, t, j), m),
    ensures
        n != m,
        node_name(n) != node_name(m),
{
    let strands = machine.strands@;
    assert(strands[s].wf() && strands[t].wf());
    lemma_touches(strands, s, i, n);
    lemma_touches(strands, t, j, m);
    lemma_node_count_grows(strands, s, t);
    if node_name(n) == node_name(m) {
        lemma_node_name_injective(n, m);
    }
}

} // verus!
