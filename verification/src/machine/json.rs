//! JSON documents in the model: how one is written without spaces, and how a
//! text reads.

use crate::machine::serializer::{comma, escaped_char, json_escaped};
use vstd::prelude::*;

verus! {

broadcast use vstd::string::group_string_axioms;

/// A document of flags, texts, lists, and fields with names.
pub ghost enum Json {
    Flag(bool),
    Text(Seq<char>),
    List(Seq<Json>),
    Fields(Seq<(Seq<char>, Json)>),
}

// ---------------------------------------------------------------------------
// Reading
// ---------------------------------------------------------------------------

/// What stands before the closing quote of `s`, unescaped, and what follows it.
pub open spec fn read_text(s: Seq<char>) -> Option<(Seq<char>, Seq<char>)>
    decreases s.len(),
{
    if s.len() == 0 {
        None
    } else if s[0] == '"' {
        Some((Seq::empty(), s.skip(1)))
    } else if s[0] == '\\' {
        if s.len() < 2 {
            None
        } else {
            let c = if s[1] == 'n' {
                Some('\n')
            } else if s[1] == 'r' {
                Some('\r')
            } else if s[1] == 't' {
                Some('\t')
            } else if s[1] == '"' || s[1] == '\\' {
                Some(s[1])
            } else {
                None
            };
            match (c, read_text(s.skip(2))) {
                (Some(c), Some((text, rest))) => Some((seq![c] + text, rest)),
                _ => None,
            }
        }
    } else {
        match read_text(s.skip(1)) {
            Some((text, rest)) => Some((seq![s[0]] + text, rest)),
            None => None,
        }
    }
}

/// The document at the front of `s` and what follows it, read in at most `fuel`
/// steps.
pub open spec fn read_value(s: Seq<char>, fuel: nat) -> Option<(Json, Seq<char>)>
    decreases fuel,
{
    if fuel == 0 || s.len() == 0 {
        None
    } else if s[0] == '"' {
        match read_text(s.skip(1)) {
            Some((text, rest)) => Some((Json::Text(text), rest)),
            None => None,
        }
    } else if s[0] == '[' {
        if s.len() > 1 && s[1] == ']' {
            Some((Json::List(Seq::empty()), s.skip(2)))
        } else {
            match read_items(s.skip(1), (fuel - 1) as nat) {
                Some((items, rest)) => Some((Json::List(items), rest)),
                None => None,
            }
        }
    } else if s[0] == '{' {
        if s.len() > 1 && s[1] == '}' {
            Some((Json::Fields(Seq::empty()), s.skip(2)))
        } else {
            match read_fields(s.skip(1), (fuel - 1) as nat) {
                Some((fields, rest)) => Some((Json::Fields(fields), rest)),
                None => None,
            }
        }
    } else if s.len() >= 4 && s.take(4) == seq!['t', 'r', 'u', 'e'] {
        Some((Json::Flag(true), s.skip(4)))
    } else if s.len() >= 5 && s.take(5) == seq!['f', 'a', 'l', 's', 'e'] {
        Some((Json::Flag(false), s.skip(5)))
    } else {
        None
    }
}

/// The items at the front of `s`, of which there is at least one, up to the
/// bracket that ends their list, and what follows it.
pub open spec fn read_items(s: Seq<char>, fuel: nat) -> Option<(Seq<Json>, Seq<char>)>
    decreases fuel,
{
    if fuel == 0 {
        None
    } else {
        match read_value(s, (fuel - 1) as nat) {
            None => None,
            Some((item, rest)) => if rest.len() > 0 && rest[0] == ']' {
                Some((seq![item], rest.skip(1)))
            } else if rest.len() > 0 && rest[0] == ',' {
                match read_items(rest.skip(1), (fuel - 1) as nat) {
                    Some((items, after)) => Some((seq![item] + items, after)),
                    None => None,
                }
            } else {
                None
            },
        }
    }
}

/// The fields at the front of `s`, of which there is at least one, up to the
/// brace that ends them, and what follows it.
pub open spec fn read_fields(s: Seq<char>, fuel: nat) -> Option<
    (Seq<(Seq<char>, Json)>, Seq<char>),
>
    decreases fuel,
{
    if fuel == 0 || s.len() == 0 || s[0] != '"' {
        None
    } else {
        match read_text(s.skip(1)) {
            None => None,
            Some((name, tail)) => if tail.len() == 0 || tail[0] != ':' {
                None
            } else {
                match read_value(tail.skip(1), (fuel - 1) as nat) {
                    None => None,
                    Some((value, rest)) => if rest.len() > 0 && rest[0] == '}' {
                        Some((seq![(name, value)], rest.skip(1)))
                    } else if rest.len() > 0 && rest[0] == ',' {
                        match read_fields(rest.skip(1), (fuel - 1) as nat) {
                            Some((fields, after)) => Some((seq![(name, value)] + fields, after)),
                            None => None,
                        }
                    } else {
                        None
                    },
                }
            },
        }
    }
}

/// The document that a text writes.
pub open spec fn read_document(s: Seq<char>) -> Option<Json> {
    match read_value(s, s.len()) {
        Some((doc, rest)) => if rest.len() == 0 {
            Some(doc)
        } else {
            None
        },
        None => None,
    }
}

/// The value of the first field with this name.
pub open spec fn field(doc: Json, name: Seq<char>) -> Option<Json> {
    match doc {
        Json::Fields(fields) => first_field(fields, name),
        _ => None,
    }
}

/// The value of the first of the fields with this name.
pub open spec fn first_field(fields: Seq<(Seq<char>, Json)>, name: Seq<char>) -> Option<Json>
    decreases fields.len(),
{
    if fields.len() == 0 {
        None
    } else if fields[0].0 == name {
        Some(fields[0].1)
    } else {
        first_field(fields.skip(1), name)
    }
}

// ---------------------------------------------------------------------------
// Writing
// ---------------------------------------------------------------------------

/// A text in quotes.
pub open spec fn quoted(s: Seq<char>) -> Seq<char> {
    seq!['"'] + json_escaped(s) + seq!['"']
}

/// The document as it is written.
pub open spec fn json_text(doc: Json) -> Seq<char>
    decreases doc, 0nat,
{
    match doc {
        Json::Flag(true) => seq!['t', 'r', 'u', 'e'],
        Json::Flag(false) => seq!['f', 'a', 'l', 's', 'e'],
        Json::Text(s) => quoted(s),
        Json::List(v) => seq!['['] + items_text(v, v.len()) + seq![']'],
        Json::Fields(v) => seq!['{'] + fields_text(v, v.len()) + seq!['}'],
    }
}

/// The first `n` items as they are written.
pub open spec fn items_text(v: Seq<Json>, n: nat) -> Seq<char>
    decreases v, n,
{
    if n == 0 || n > v.len() {
        Seq::empty()
    } else {
        items_text(v, (n - 1) as nat) + comma(n - 1) + json_text(v[n - 1])
    }
}

/// The first `n` fields as they are written.
pub open spec fn fields_text(v: Seq<(Seq<char>, Json)>, n: nat) -> Seq<char>
    decreases v, n,
{
    if n == 0 || n > v.len() {
        Seq::empty()
    } else {
        proof {
            assert(decreases_to!(v => v[n - 1]));
            assert(decreases_to!(v[n - 1] => v[n - 1].1));
        }
        fields_text(v, (n - 1) as nat) + comma(n - 1) + quoted(v[n - 1].0) + seq![':'] + json_text(
            v[n - 1].1,
        )
    }
}

// ---------------------------------------------------------------------------
// What is written reads back
// ---------------------------------------------------------------------------

/// An escaped text is its first character, escaped, and the rest.
proof fn lemma_escaped_front(s: Seq<char>)
    requires
        s.len() > 0,
    ensures
        json_escaped(s) == escaped_char(s[0]) + json_escaped(s.skip(1)),
    decreases s.len(),
{
    if s.len() == 1 {
        assert(s.drop_last() =~= Seq::<char>::empty());
        assert(s.skip(1) =~= Seq::<char>::empty());
        assert(json_escaped(s) =~= escaped_char(s[0]) + json_escaped(s.skip(1)));
    } else {
        lemma_escaped_front(s.drop_last());
        assert(s.drop_last().skip(1) =~= s.skip(1).drop_last());
        assert(s.skip(1).last() == s.last());
        assert(json_escaped(s) =~= escaped_char(s[0]) + json_escaped(s.skip(1)));
    }
}

/// A text in quotes reads back.
proof fn lemma_read_text(s: Seq<char>, rest: Seq<char>)
    ensures
        read_text(json_escaped(s) + seq!['"'] + rest) == Some((s, rest)),
    decreases s.len(),
{
    let all = json_escaped(s) + seq!['"'] + rest;
    if s.len() == 0 {
        assert(all[0] == '"');
        assert(all.skip(1) =~= rest);
        assert(s =~= Seq::<char>::empty());
    } else {
        lemma_escaped_front(s);
        lemma_read_text(s.skip(1), rest);
        let e = escaped_char(s[0]);
        let more = json_escaped(s.skip(1)) + seq!['"'] + rest;
        assert(all =~= e + more);
        assert(s =~= seq![s[0]] + s.skip(1));
        if e.len() == 2 {
            assert(all[0] == '\\' && all[1] == e[1]);
            assert(all.skip(2) =~= more);
        } else {
            assert(all[0] == s[0]);
            assert(all.skip(1) =~= more);
        }
    }
}

/// Written items are the first, a comma and the rest.
proof fn lemma_items_front(v: Seq<Json>, n: nat)
    requires
        1 <= n <= v.len(),
    ensures
        items_text(v, n) == json_text(v[0]) + comma(n - 1) + items_text(v.skip(1), (n - 1) as nat),
    decreases n,
{
    reveal_strlit(",");
    reveal_strlit("");
    reveal_with_fuel(items_text, 2);
    if n == 1 {
        assert(items_text(v, n) =~= json_text(v[0]) + comma(0) + items_text(v.skip(1), 0));
    } else {
        lemma_items_front(v, (n - 1) as nat);
        assert(v.skip(1)[n - 2] == v[n - 1]);
        assert(items_text(v, n) =~= json_text(v[0]) + comma(n - 1) + items_text(
            v.skip(1),
            (n - 1) as nat,
        ));
    }
}

/// Written fields are the first, a comma and the rest.
proof fn lemma_fields_front(v: Seq<(Seq<char>, Json)>, n: nat)
    requires
        1 <= n <= v.len(),
    ensures
        fields_text(v, n) == quoted(v[0].0) + seq![':'] + json_text(v[0].1) + comma(n - 1)
            + fields_text(v.skip(1), (n - 1) as nat),
    decreases n,
{
    reveal_strlit(",");
    reveal_strlit("");
    reveal_with_fuel(fields_text, 2);
    if n == 1 {
        assert(fields_text(v, n) =~= quoted(v[0].0) + seq![':'] + json_text(v[0].1) + comma(0)
            + fields_text(v.skip(1), 0));
    } else {
        lemma_fields_front(v, (n - 1) as nat);
        assert(v.skip(1)[n - 2] == v[n - 1]);
        assert(fields_text(v, n) =~= quoted(v[0].0) + seq![':'] + json_text(v[0].1) + comma(n - 1)
            + fields_text(v.skip(1), (n - 1) as nat));
    }
}

/// No document is written as nothing, nor starts like the end of a list.
proof fn lemma_text_start(doc: Json)
    ensures
        json_text(doc).len() > 0,
        json_text(doc)[0] != ']',
{
}

/// A written document reads back, whatever follows it.
proof fn lemma_read_value(doc: Json, rest: Seq<char>, fuel: nat)
    requires
        fuel >= json_text(doc).len(),
    ensures
        read_value(json_text(doc) + rest, fuel) == Some((doc, rest)),
    decreases doc, 0nat,
{
    let s = json_text(doc) + rest;
    lemma_text_start(doc);
    match doc {
        Json::Flag(b) => {
            if b {
                assert(s.take(4) =~= seq!['t', 'r', 'u', 'e']);
                assert(s.skip(4) =~= rest);
            } else {
                assert(s[0] == 'f');
                assert(s.take(4)[0] == 'f');
                assert(seq!['t', 'r', 'u', 'e'][0] == 't');
                assert(s.take(5) =~= seq!['f', 'a', 'l', 's', 'e']);
                assert(s.skip(5) =~= rest);
            }
        },
        Json::Text(t) => {
            lemma_read_text(t, rest);
            assert(s.skip(1) =~= json_escaped(t) + seq!['"'] + rest);
        },
        Json::List(v) => {
            if v.len() == 0 {
                assert(s.skip(2) =~= rest);
                assert(s[1] == ']');
                assert(v =~= Seq::<Json>::empty());
            } else {
                lemma_read_items(v, rest, (fuel - 1) as nat);
                lemma_items_front(v, v.len());
                lemma_text_start(v[0]);
                assert(s.skip(1) =~= items_text(v, v.len()) + seq![']'] + rest);
                assert(s[1] == json_text(v[0])[0]);
            }
        },
        Json::Fields(v) => {
            if v.len() == 0 {
                assert(s.skip(2) =~= rest);
                assert(s[1] == '}');
                assert(v =~= Seq::<(Seq<char>, Json)>::empty());
            } else {
                lemma_read_fields(v, rest, (fuel - 1) as nat);
                lemma_fields_front(v, v.len());
                assert(s.skip(1) =~= fields_text(v, v.len()) + seq!['}'] + rest);
                assert(s[1] == quoted(v[0].0)[0]);
            }
        },
    }
}

proof fn lemma_read_items(v: Seq<Json>, rest: Seq<char>, fuel: nat)
    requires
        v.len() > 0,
        fuel >= items_text(v, v.len()).len() + 1,
    ensures
        read_items(items_text(v, v.len()) + seq![']'] + rest, fuel) == Some((v, rest)),
    decreases v, v.len(),
{
    reveal_strlit(",");
    reveal_strlit("");
    lemma_items_front(v, v.len());
    let more = v.skip(1);
    let s = items_text(v, v.len()) + seq![']'] + rest;
    let after = comma(v.len() - 1) + items_text(more, more.len()) + seq![']'] + rest;
    assert(s =~= json_text(v[0]) + after);
    assert(decreases_to!(v => v[0]));
    lemma_read_value(v[0], after, (fuel - 1) as nat);
    if v.len() == 1 {
        assert(after[0] == ']');
        assert(after.skip(1) =~= rest);
        assert(v =~= seq![v[0]]);
    } else {
        lemma_text_start(v[0]);
        lemma_seq_shrinks(v);
        lemma_read_items(more, rest, (fuel - 1) as nat);
        assert(after[0] == ',');
        assert(after.skip(1) =~= items_text(more, more.len()) + seq![']'] + rest);
        assert(v =~= seq![v[0]] + more);
    }
}

/// A list is larger than the list without its first item.
proof fn lemma_seq_shrinks<T>(v: Seq<T>)
    requires
        v.len() > 0,
    ensures
        decreases_to!(v => v.skip(1)),
{
    assert(v.skip(1) =~= v.subrange(1, v.len() as int));
    assert(decreases_to!(v => v.subrange(1, v.len() as int)));
}

proof fn lemma_read_fields(v: Seq<(Seq<char>, Json)>, rest: Seq<char>, fuel: nat)
    requires
        v.len() > 0,
        fuel >= fields_text(v, v.len()).len() + 1,
    ensures
        read_fields(fields_text(v, v.len()) + seq!['}'] + rest, fuel) == Some((v, rest)),
    decreases v, v.len(),
{
    reveal_strlit(",");
    reveal_strlit("");
    lemma_fields_front(v, v.len());
    let more = v.skip(1);
    let s = fields_text(v, v.len()) + seq!['}'] + rest;
    let after = comma(v.len() - 1) + fields_text(more, more.len()) + seq!['}'] + rest;
    let value = json_text(v[0].1) + after;
    assert(s =~= quoted(v[0].0) + seq![':'] + value);
    lemma_read_text(v[0].0, seq![':'] + value);
    assert(s.skip(1) =~= json_escaped(v[0].0) + seq!['"'] + (seq![':'] + value));
    assert((seq![':'] + value).skip(1) =~= value);
    assert(decreases_to!(v => v[0]));
    assert(decreases_to!(v[0] => v[0].1));
    lemma_read_value(v[0].1, after, (fuel - 1) as nat);
    if v.len() == 1 {
        assert(after[0] == '}');
        assert(after.skip(1) =~= rest);
        assert(v =~= seq![(v[0].0, v[0].1)]);
    } else {
        lemma_seq_shrinks(v);
        lemma_read_fields(more, rest, (fuel - 1) as nat);
        assert(after[0] == ',');
        assert(after.skip(1) =~= fields_text(more, more.len()) + seq!['}'] + rest);
        assert(v =~= seq![(v[0].0, v[0].1)] + more);
    }
}

/// Law: a document that is written reads back.
pub proof fn law_document_reads_back(doc: Json)
    ensures
        read_document(json_text(doc)) == Some(doc),
{
    let s = json_text(doc);
    lemma_read_value(doc, Seq::empty(), s.len());
    assert(s + Seq::<char>::empty() =~= s);
}

/// Law: a text, once escaped and put in quotes, reads back as itself.
pub proof fn law_escaped_text_reads_back(s: Seq<char>)
    ensures
        read_document(seq!['"'] + json_escaped(s) + seq!['"']) == Some(Json::Text(s)),
{
    law_document_reads_back(Json::Text(s));
}

} // verus!
