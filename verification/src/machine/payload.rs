//! What the payload of a machine reads as.

use crate::fabric::registry::{norm_cap, norm_media, FabricRegistry};
use crate::machine::graph::{Machine, MachineEdge, MachineStrand, NodeId};
use crate::machine::json::{
    field, fields_text, first_field, items_text, json_text, law_document_reads_back,
    read_document, Json,
};
use crate::machine::notation::lemma_decimal_digits;
use crate::machine::serializer::{
    anchors_json, assignment_json, cap_title, comma, edge_count, edge_token, edges_json,
    escaped_char, json_escaped, media_title, no_aliases, node_count, node_name, nodes_json,
    strand_json, strands_json, Missing,
};
use crate::text::decimal;
use crate::urn::{cap_text, media_text};
use vstd::prelude::*;

verus! {

broadcast use vstd::string::group_string_axioms;

// ---------------------------------------------------------------------------
// What a payload says
// ---------------------------------------------------------------------------

/// The field is this text.
pub open spec fn says(doc: Json, name: Seq<char>, text: Seq<char>) -> bool {
    field(doc, name) == Some(Json::Text(text))
}

/// The items of the field.
pub open spec fn items(doc: Json, name: Seq<char>) -> Seq<Json> {
    match field(doc, name) {
        Some(Json::List(v)) => v,
        _ => Seq::empty(),
    }
}

/// The field is a list.
pub open spec fn lists(doc: Json, name: Seq<char>) -> bool {
    field(doc, name) matches Some(Json::List(_))
}

/// The text names the data position of this number: it is its `id`.
pub open spec fn names_node(strand_doc: Json, text: Json, id: NodeId) -> bool {
    field(items(strand_doc, "nodes"@)[id as int], "id"@) == Some(text)
}

/// The field lists the data positions with these numbers, by their names and in
/// this order.
pub open spec fn lists_nodes(strand_doc: Json, name: Seq<char>, ids: Seq<NodeId>) -> bool {
    &&& lists(strand_doc, name)
    &&& items(strand_doc, name).len() == ids.len()
    &&& forall|i: int|
        0 <= i < ids.len() ==> names_node(
            strand_doc,
            #[trigger] items(strand_doc, name)[i],
            ids[i],
        )
}

/// The document is of a cap between data positions.
pub open spec fn shows_edge(
    strand_doc: Json,
    doc: Json,
    registry: FabricRegistry,
    edge: MachineEdge,
    number: nat,
) -> bool {
    let urn = cap_text(edge.cap_urn@);
    &&& says(doc, "alias"@, "edge_"@ + decimal(number))
    &&& says(doc, "cap_urn"@, urn)
    &&& registry.cached_caps@.dom().contains(norm_cap(urn))
    &&& says(doc, "title"@, registry.cached_caps@[norm_cap(urn)].title@)
    &&& field(doc, "is_loop"@) == Some(Json::Flag(edge.is_loop))
    &&& lists(doc, "assignment"@)
    &&& items(doc, "assignment"@).len() == edge.assignment@.len()
    &&& forall|i: int|
        0 <= i < edge.assignment@.len() ==> {
            let argument = #[trigger] items(doc, "assignment"@)[i];
            &&& says(
                argument,
                "cap_arg_media_urn"@,
                media_text(edge.assignment@[i].cap_arg_media_urn@),
            )
            &&& field(argument, "source_node"@) is Some
            &&& names_node(
                strand_doc,
                field(argument, "source_node"@)->0,
                edge.assignment@[i].source,
            )
        }
    &&& field(doc, "target_node"@) is Some
    &&& names_node(strand_doc, field(doc, "target_node"@)->0, edge.target)
}

/// The document is of a strand, whose first edge and data position have these
/// numbers.
pub open spec fn shows_strand(
    doc: Json,
    registry: FabricRegistry,
    strand: MachineStrand,
    first: nat,
    base: nat,
) -> bool {
    &&& lists(doc, "nodes"@)
    &&& items(doc, "nodes"@).len() == strand.nodes@.len()
    &&& forall|i: int|
        0 <= i < strand.nodes@.len() ==> {
            let node = #[trigger] items(doc, "nodes"@)[i];
            let urn = media_text(strand.nodes@[i]@);
            &&& says(node, "id"@, "n"@ + decimal((base + i) as nat))
            &&& says(node, "urn"@, urn)
            &&& registry.cached_media_defs@.dom().contains(norm_media(urn))
            &&& says(node, "title"@, registry.cached_media_defs@[norm_media(urn)].title@)
        }
    &&& lists(doc, "edges"@)
    &&& items(doc, "edges"@).len() == strand.edges@.len()
    &&& forall|i: int|
        0 <= i < strand.edges@.len() ==> shows_edge(
            doc,
            #[trigger] items(doc, "edges"@)[i],
            registry,
            strand.edges@[i],
            (first + i) as nat,
        )
    &&& lists_nodes(doc, "input_anchor_nodes"@, strand.input_anchor_ids@)
    &&& lists_nodes(doc, "output_anchor_nodes"@, strand.output_anchor_ids@)
}

// ---------------------------------------------------------------------------
// The documents that are written
// ---------------------------------------------------------------------------

spec fn node_doc(registry: FabricRegistry, strand: MachineStrand, i: int, base: int) -> Json {
    let urn = media_text(strand.nodes@[i]@);
    Json::Fields(
        seq![
            ("id"@, Json::Text(node_name(base + i))),
            ("urn"@, Json::Text(urn)),
            ("title"@, Json::Text(media_title(registry, urn)->0)),
        ],
    )
}

spec fn node_docs(registry: FabricRegistry, strand: MachineStrand, base: int) -> Seq<Json> {
    Seq::new(strand.nodes@.len(), |i: int| node_doc(registry, strand, i, base))
}

spec fn argument_doc(edge: MachineEdge, i: int, base: int) -> Json {
    let b = edge.assignment@[i];
    Json::Fields(
        seq![
            ("cap_arg_media_urn"@, Json::Text(media_text(b.cap_arg_media_urn@))),
            ("source_node"@, Json::Text(node_name(base + b.source))),
        ],
    )
}

spec fn argument_docs(edge: MachineEdge, base: int) -> Seq<Json> {
    Seq::new(edge.assignment@.len(), |i: int| argument_doc(edge, i, base))
}

spec fn edge_doc(
    registry: FabricRegistry,
    strand: MachineStrand,
    i: int,
    first: int,
    base: int,
) -> Json {
    let edge = strand.edges@[i];
    let urn = cap_text(edge.cap_urn@);
    Json::Fields(
        seq![
            ("alias"@, Json::Text(edge_token(edge, first + i, no_aliases()))),
            ("cap_urn"@, Json::Text(urn)),
            ("title"@, Json::Text(cap_title(registry, urn)->0)),
            ("is_loop"@, Json::Flag(edge.is_loop)),
            ("assignment"@, Json::List(argument_docs(edge, base))),
            ("target_node"@, Json::Text(node_name(base + edge.target))),
        ],
    )
}

spec fn edge_docs(
    registry: FabricRegistry,
    strand: MachineStrand,
    first: int,
    base: int,
) -> Seq<Json> {
    Seq::new(strand.edges@.len(), |i: int| edge_doc(registry, strand, i, first, base))
}

spec fn anchor_docs(ids: Seq<NodeId>, base: int) -> Seq<Json> {
    Seq::new(ids.len(), |i: int| Json::Text(node_name(base + ids[i])))
}

#[verifier::opaque]
spec fn strand_doc(
    registry: FabricRegistry,
    strand: MachineStrand,
    first: int,
    base: int,
) -> Json {
    four_lists(
        node_docs(registry, strand, base),
        edge_docs(registry, strand, first, base),
        anchor_docs(strand.input_anchor_ids@, base),
        anchor_docs(strand.output_anchor_ids@, base),
    )
}

spec fn strand_docs(registry: FabricRegistry, strands: Seq<MachineStrand>) -> Seq<Json> {
    Seq::new(
        strands.len(),
        |k: int|
            strand_doc(
                registry,
                strands[k],
                edge_count(strands.subrange(0, k)) as int,
                node_count(strands.subrange(0, k)) as int,
            ),
    )
}

// ---------------------------------------------------------------------------
// The text is that of the documents
// ---------------------------------------------------------------------------

/// Nothing in the text is escaped.
spec fn is_unescaped(s: Seq<char>) -> bool {
    forall|i: int| 0 <= i < s.len() ==> escaped_char(#[trigger] s[i]) == seq![s[i]]
}

proof fn lemma_unescaped(s: Seq<char>)
    requires
        is_unescaped(s),
    ensures
        json_escaped(s) == s,
    decreases s.len(),
{
    if s.len() > 0 {
        let rest = s.drop_last();
        assert forall|i: int| 0 <= i < rest.len() implies escaped_char(#[trigger] rest[i]) == seq![
            rest[i],
        ] by {
            assert(rest[i] == s[i]);
        }
        lemma_unescaped(rest);
        assert(escaped_char(s[s.len() - 1]) == seq![s[s.len() - 1]]);
        assert(json_escaped(s) =~= s);
    }
}

proof fn lemma_node_name(n: int)
    ensures
        json_escaped(node_name(n)) == node_name(n),
{
    reveal_strlit("n");
    lemma_decimal_digits(n as nat);
    let s = node_name(n);
    assert forall|i: int| 0 <= i < s.len() implies escaped_char(#[trigger] s[i]) == seq![s[i]] by {
        if i > 0 {
            assert(s[i] == decimal(n as nat)[i - 1]);
        }
    }
    lemma_unescaped(s);
}

proof fn lemma_edge_name(edge: MachineEdge, n: int)
    ensures
        json_escaped(edge_token(edge, n, no_aliases())) == edge_token(edge, n, no_aliases()),
{
    reveal_strlit("edge_");
    lemma_decimal_digits(n as nat);
    let s = edge_token(edge, n, no_aliases());
    assert(s == "edge_"@ + decimal(n as nat));
    assert forall|i: int| 0 <= i < s.len() implies escaped_char(#[trigger] s[i]) == seq![s[i]] by {
        if i >= 5 {
            assert(s[i] == decimal(n as nat)[i - 5]);
        }
    }
    lemma_unescaped(s);
}

proof fn lemma_fields_prefix(v: Seq<(Seq<char>, Json)>, f: (Seq<char>, Json), n: nat)
    requires
        n <= v.len(),
    ensures
        fields_text(v.push(f), n) == fields_text(v, n),
    decreases n,
{
    if n > 0 {
        lemma_fields_prefix(v, f, (n - 1) as nat);
        assert(v.push(f)[n - 1] == v[n - 1]);
    }
}

/// One more field, with a name in which nothing is escaped.
proof fn lemma_fields_push(v: Seq<(Seq<char>, Json)>, name: Seq<char>, value: Json)
    requires
        is_unescaped(name),
    ensures
        fields_text(v.push((name, value)), v.len() + 1) == fields_text(v, v.len()) + comma(
            v.len() as int,
        ) + (seq!['"'] + name + seq!['"', ':'] + json_text(value)),
{
    lemma_fields_prefix(v, (name, value), v.len());
    lemma_unescaped(name);
    let w = v.push((name, value));
    assert(w[v.len() as int] == (name, value));
    assert(fields_text(w, v.len() + 1) =~= fields_text(v, v.len()) + comma(v.len() as int) + (seq![
        '"',
    ] + name + seq!['"', ':'] + json_text(value)));
}

proof fn lemma_items_prefix(v: Seq<Json>, w: Seq<Json>, n: nat)
    requires
        n <= v.len(),
        n <= w.len(),
        forall|i: int| 0 <= i < n ==> v[i] == w[i],
    ensures
        items_text(v, n) == items_text(w, n),
    decreases n,
{
    if n > 0 {
        lemma_items_prefix(v, w, (n - 1) as nat);
    }
}

/// A text in quotes, where `s` is escaped already.
spec fn in_quotes(s: Seq<char>) -> Seq<char> {
    seq!['"'] + s + seq!['"']
}

/// A list of what is written as `s`.
spec fn in_brackets(s: Seq<char>) -> Seq<char> {
    seq!['['] + s + seq![']']
}

/// A field whose value is written as `s`.
spec fn named(name: Seq<char>, s: Seq<char>) -> Seq<char> {
    seq!['"'] + name + seq!['"', ':'] + s
}

proof fn lemma_assoc(a: Seq<char>, b: Seq<char>, c: Seq<char>)
    ensures
        (a + b) + c == a + (b + c),
{
    assert((a + b) + c =~= a + (b + c));
}

/// A name between what ends a value before it and what starts its own.
spec fn framed(end: Seq<char>, name: Seq<char>, start: Seq<char>) -> Seq<char> {
    end + name + start
}

proof fn lemma_first_text(name: Seq<char>, s: Seq<char>)
    ensures
        seq!['{'] + named(name, in_quotes(s)) == framed(seq!['{', '"'], name, seq!['"', ':', '"']) + s
            + seq!['"'],
{
    assert(seq!['{'] + named(name, in_quotes(s)) =~= framed(
        seq!['{', '"'],
        name,
        seq!['"', ':', '"'],
    ) + s + seq!['"']);
}

proof fn lemma_first_list(name: Seq<char>, s: Seq<char>)
    ensures
        seq!['{'] + named(name, in_brackets(s)) == framed(seq!['{', '"'], name, seq!['"', ':', '['])
            + s + seq![']'],
{
    assert(seq!['{'] + named(name, in_brackets(s)) =~= framed(
        seq!['{', '"'],
        name,
        seq!['"', ':', '['],
    ) + s + seq![']']);
}

proof fn lemma_text_after_text(w: Seq<char>, name: Seq<char>, s: Seq<char>)
    ensures
        w + seq!['"'] + seq![','] + named(name, in_quotes(s)) == w + framed(
            seq!['"', ',', '"'],
            name,
            seq!['"', ':', '"'],
        ) + s + seq!['"'],
{
    assert(w + seq!['"'] + seq![','] + named(name, in_quotes(s)) =~= w + framed(
        seq!['"', ',', '"'],
        name,
        seq!['"', ':', '"'],
    ) + s + seq!['"']);
}

proof fn lemma_plain_after_text(w: Seq<char>, name: Seq<char>, s: Seq<char>)
    ensures
        w + seq!['"'] + seq![','] + named(name, s) == w + framed(
            seq!['"', ',', '"'],
            name,
            seq!['"', ':'],
        ) + s,
{
    assert(w + seq!['"'] + seq![','] + named(name, s) =~= w + framed(
        seq!['"', ',', '"'],
        name,
        seq!['"', ':'],
    ) + s);
}

proof fn lemma_list_after_plain(w: Seq<char>, name: Seq<char>, s: Seq<char>)
    ensures
        w + seq![','] + named(name, in_brackets(s)) == w + framed(
            seq![',', '"'],
            name,
            seq!['"', ':', '['],
        ) + s + seq![']'],
{
    assert(w + seq![','] + named(name, in_brackets(s)) =~= w + framed(
        seq![',', '"'],
        name,
        seq!['"', ':', '['],
    ) + s + seq![']']);
}

proof fn lemma_text_after_list(w: Seq<char>, name: Seq<char>, s: Seq<char>)
    ensures
        w + seq![']'] + seq![','] + named(name, in_quotes(s)) == w + framed(
            seq![']', ',', '"'],
            name,
            seq!['"', ':', '"'],
        ) + s + seq!['"'],
{
    assert(w + seq![']'] + seq![','] + named(name, in_quotes(s)) =~= w + framed(
        seq![']', ',', '"'],
        name,
        seq!['"', ':', '"'],
    ) + s + seq!['"']);
}

proof fn lemma_list_after_list(w: Seq<char>, name: Seq<char>, s: Seq<char>)
    ensures
        w + seq![']'] + seq![','] + named(name, in_brackets(s)) == w + framed(
            seq![']', ',', '"'],
            name,
            seq!['"', ':', '['],
        ) + s + seq![']'],
{
    assert(w + seq![']'] + seq![','] + named(name, in_brackets(s)) =~= w + framed(
        seq![']', ',', '"'],
        name,
        seq!['"', ':', '['],
    ) + s + seq![']']);
}

/// The first field behind the brace.
proof fn lemma_open_first(name: Seq<char>, value: Json)
    requires
        is_unescaped(name),
    ensures
        seq!['{'] + fields_text(seq![(name, value)], 1) == seq!['{'] + named(name, json_text(value)),
{
    reveal_strlit("");
    let v0 = Seq::<(Seq<char>, Json)>::empty();
    lemma_fields_push(v0, name, value);
    assert(seq![(name, value)] =~= v0.push((name, value)));
    assert(fields_text(seq![(name, value)], 1) =~= named(name, json_text(value)));
}

/// One more field behind the brace.
proof fn lemma_open_push(v: Seq<(Seq<char>, Json)>, name: Seq<char>, value: Json)
    requires
        is_unescaped(name),
        v.len() > 0,
    ensures
        seq!['{'] + fields_text(v.push((name, value)), v.len() + 1) == seq!['{'] + fields_text(
            v,
            v.len(),
        ) + seq![','] + named(name, json_text(value)),
{
    reveal_strlit(",");
    lemma_fields_push(v, name, value);
    assert(","@ =~= seq![',']);
    let f = fields_text(v, v.len());
    lemma_assoc(seq!['{'], f, seq![',']);
    lemma_assoc(seq!['{'], f + seq![','], named(name, json_text(value)));
}

proof fn lemma_close(w: Seq<char>, c: char, lit: Seq<char>)
    requires
        lit == seq![c, '}'],
    ensures
        w + seq![c] + seq!['}'] == w + lit,
{
    assert(w + seq![c] + seq!['}'] =~= w + lit);
}

proof fn lemma_node_text(registry: FabricRegistry, strand: MachineStrand, i: int, base: int)
    ensures
        ({
            let urn = media_text(strand.nodes@[i]@);
            let title = media_title(registry, urn)->0;
            json_text(node_doc(registry, strand, i, base)) == "{\"id\":\""@ + node_name(base + i)
                + "\",\"urn\":\""@ + json_escaped(urn) + "\",\"title\":\""@ + json_escaped(title)
                + "\"}"@
        }),
{
    let urn = media_text(strand.nodes@[i]@);
    let title = media_title(registry, urn)->0;
    let name = node_name(base + i);
    lemma_node_name(base + i);
    assert(is_unescaped("id"@)) by {
        reveal_strlit("id");
    }
    assert(is_unescaped("urn"@)) by {
        reveal_strlit("urn");
    }
    assert(is_unescaped("title"@)) by {
        reveal_strlit("title");
    }
    assert("{\"id\":\""@ == framed(seq!['{', '"'], "id"@, seq!['"', ':', '"'])) by {
        reveal_strlit("{\"id\":\"");
        reveal_strlit("id");
        assert("{\"id\":\""@ =~= framed(seq!['{', '"'], "id"@, seq!['"', ':', '"']));
    }
    assert("\",\"urn\":\""@ == framed(seq!['"', ',', '"'], "urn"@, seq!['"', ':', '"'])) by {
        reveal_strlit("\",\"urn\":\"");
        reveal_strlit("urn");
        assert("\",\"urn\":\""@ =~= framed(seq!['"', ',', '"'], "urn"@, seq!['"', ':', '"']));
    }
    assert("\",\"title\":\""@ == framed(seq!['"', ',', '"'], "title"@, seq!['"', ':', '"'])) by {
        reveal_strlit("\",\"title\":\"");
        reveal_strlit("title");
        assert("\",\"title\":\""@ =~= framed(seq!['"', ',', '"'], "title"@, seq!['"', ':', '"']));
    }
    assert("\"}"@ == seq!['"', '}']) by {
        reveal_strlit("\"}");
        assert("\"}"@ =~= seq!['"', '}']);
    }
    let v1 = seq![("id"@, Json::Text(name))];
    let v2 = v1.push(("urn"@, Json::Text(urn)));
    let v3 = v2.push(("title"@, Json::Text(title)));
    lemma_open_first("id"@, Json::Text(name));
    lemma_open_push(v1, "urn"@, Json::Text(urn));
    lemma_open_push(v2, "title"@, Json::Text(title));
    lemma_first_text("id"@, name);
    let w1 = "{\"id\":\""@ + name;
    assert(seq!['{'] + fields_text(v1, 1) == w1 + seq!['"']);
    lemma_text_after_text(w1, "urn"@, json_escaped(urn));
    let w2 = w1 + "\",\"urn\":\""@ + json_escaped(urn);
    assert(seq!['{'] + fields_text(v2, 2) == w2 + seq!['"']);
    lemma_text_after_text(w2, "title"@, json_escaped(title));
    let w3 = w2 + "\",\"title\":\""@ + json_escaped(title);
    assert(seq!['{'] + fields_text(v3, 3) == w3 + seq!['"']);
    lemma_close(w3, '"', "\"}"@);
    assert(node_doc(registry, strand, i, base)->Fields_0 =~= v3);
}

proof fn lemma_nodes_text(registry: FabricRegistry, strand: MachineStrand, n: nat, base: int)
    requires
        n <= strand.nodes@.len(),
        nodes_json(registry, strand, n as int, base) is Ok,
    ensures
        nodes_json(registry, strand, n as int, base)->Ok_0 == items_text(
            node_docs(registry, strand, base),
            n,
        ),
        forall|i: int|
            0 <= i < n ==> media_title(
                registry,
                media_text((#[trigger] strand.nodes@[i])@),
            ) is Some,
    decreases n,
{
    if n > 0 {
        lemma_nodes_text(registry, strand, (n - 1) as nat, base);
        lemma_node_text(registry, strand, n - 1, base);
        let docs = node_docs(registry, strand, base);
        assert(docs[n - 1] == node_doc(registry, strand, n - 1, base));
        let p = items_text(docs, (n - 1) as nat) + comma(n - 1);
        let urn = media_text(strand.nodes@[n - 1]@);
        let title = media_title(registry, urn)->0;
        let name = node_name(base + n - 1);
        lemma_assoc(p, "{\"id\":\""@, name);
        lemma_assoc(p, "{\"id\":\""@ + name, "\",\"urn\":\""@);
        lemma_assoc(p, "{\"id\":\""@ + name + "\",\"urn\":\""@, json_escaped(urn));
        lemma_assoc(p, "{\"id\":\""@ + name + "\",\"urn\":\""@ + json_escaped(urn), "\",\"title\":\""@);
        lemma_assoc(p, "{\"id\":\""@ + name + "\",\"urn\":\""@ + json_escaped(urn) + "\",\"title\":\""@, json_escaped(title));
        lemma_assoc(p, "{\"id\":\""@ + name + "\",\"urn\":\""@ + json_escaped(urn) + "\",\"title\":\""@ + json_escaped(title), "\"}"@);
    }
}

proof fn lemma_argument_text(edge: MachineEdge, i: int, base: int)
    ensures
        json_text(argument_doc(edge, i, base)) == "{\"cap_arg_media_urn\":\""@ + json_escaped(
            media_text(edge.assignment@[i].cap_arg_media_urn@),
        ) + "\",\"source_node\":\""@ + node_name(base + edge.assignment@[i].source) + "\"}"@,
{
    let urn = media_text(edge.assignment@[i].cap_arg_media_urn@);
    let name = node_name(base + edge.assignment@[i].source);
    lemma_node_name(base + edge.assignment@[i].source);
    assert(is_unescaped("cap_arg_media_urn"@)) by {
        reveal_strlit("cap_arg_media_urn");
    }
    assert(is_unescaped("source_node"@)) by {
        reveal_strlit("source_node");
    }
    assert("{\"cap_arg_media_urn\":\""@ == framed(seq!['{', '"'], "cap_arg_media_urn"@, seq!['"', ':', '"'])) by {
        reveal_strlit("{\"cap_arg_media_urn\":\"");
        reveal_strlit("cap_arg_media_urn");
        assert("{\"cap_arg_media_urn\":\""@ =~= framed(seq!['{', '"'], "cap_arg_media_urn"@, seq!['"', ':', '"']));
    }
    assert("\",\"source_node\":\""@ == framed(seq!['"', ',', '"'], "source_node"@, seq!['"', ':', '"'])) by {
        reveal_strlit("\",\"source_node\":\"");
        reveal_strlit("source_node");
        assert("\",\"source_node\":\""@ =~= framed(seq!['"', ',', '"'], "source_node"@, seq!['"', ':', '"']));
    }
    assert("\"}"@ == seq!['"', '}']) by {
        reveal_strlit("\"}");
        assert("\"}"@ =~= seq!['"', '}']);
    }
    let v1 = seq![("cap_arg_media_urn"@, Json::Text(urn))];
    let v2 = v1.push(("source_node"@, Json::Text(name)));
    lemma_open_first("cap_arg_media_urn"@, Json::Text(urn));
    lemma_open_push(v1, "source_node"@, Json::Text(name));
    lemma_first_text("cap_arg_media_urn"@, json_escaped(urn));
    let w1 = "{\"cap_arg_media_urn\":\""@ + json_escaped(urn);
    assert(seq!['{'] + fields_text(v1, 1) == w1 + seq!['"']);
    lemma_text_after_text(w1, "source_node"@, name);
    let w2 = w1 + "\",\"source_node\":\""@ + name;
    assert(seq!['{'] + fields_text(v2, 2) == w2 + seq!['"']);
    lemma_close(w2, '"', "\"}"@);
    assert(argument_doc(edge, i, base)->Fields_0 =~= v2);
}

proof fn lemma_arguments_text(edge: MachineEdge, n: nat, base: int)
    requires
        n <= edge.assignment@.len(),
    ensures
        assignment_json(edge, n as int, base) == items_text(argument_docs(edge, base), n),
    decreases n,
{
    if n > 0 {
        lemma_arguments_text(edge, (n - 1) as nat, base);
        lemma_argument_text(edge, n - 1, base);
        let docs = argument_docs(edge, base);
        assert(docs[n - 1] == argument_doc(edge, n - 1, base));
        let p = items_text(docs, (n - 1) as nat) + comma(n - 1);
        let urn = media_text(edge.assignment@[n - 1].cap_arg_media_urn@);
        let name = node_name(base + edge.assignment@[n - 1].source);
        lemma_assoc(p, "{\"cap_arg_media_urn\":\""@, json_escaped(urn));
        lemma_assoc(p, "{\"cap_arg_media_urn\":\""@ + json_escaped(urn), "\",\"source_node\":\""@);
        lemma_assoc(p, "{\"cap_arg_media_urn\":\""@ + json_escaped(urn) + "\",\"source_node\":\""@, name);
        lemma_assoc(p, "{\"cap_arg_media_urn\":\""@ + json_escaped(urn) + "\",\"source_node\":\""@ + name, "\"}"@);
    }
}

proof fn lemma_edge_text(
    registry: FabricRegistry,
    strand: MachineStrand,
    i: int,
    first: int,
    base: int,
)
    ensures
        ({
            let edge = strand.edges@[i];
            let urn = cap_text(edge.cap_urn@);
            let title = cap_title(registry, urn)->0;
            json_text(edge_doc(registry, strand, i, first, base)) == "{\"alias\":\""@ + edge_token(
                edge,
                first + i,
                no_aliases(),
            ) + "\",\"cap_urn\":\""@ + json_escaped(urn) + "\",\"title\":\""@ + json_escaped(title)
                + "\",\"is_loop\":"@ + (if edge.is_loop {
                "true"@
            } else {
                "false"@
            }) + ",\"assignment\":["@ + assignment_json(edge, edge.assignment@.len() as int, base)
                + "],\"target_node\":\""@ + node_name(base + edge.target) + "\"}"@
        }),
{
    let edge = strand.edges@[i];
    let urn = cap_text(edge.cap_urn@);
    let title = cap_title(registry, urn)->0;
    let alias = edge_token(edge, first + i, no_aliases());
    let args = argument_docs(edge, base);
    let target = node_name(base + edge.target);
    lemma_edge_name(edge, first + i);
    lemma_node_name(base + edge.target);
    lemma_arguments_text(edge, edge.assignment@.len(), base);
    let flag = if edge.is_loop {
        "true"@
    } else {
        "false"@
    };
    let list = items_text(args, args.len());
    assert(json_text(Json::Flag(edge.is_loop)) == flag) by {
        reveal_strlit("true");
        reveal_strlit("false");
        assert(json_text(Json::Flag(edge.is_loop)) =~= flag);
    }
    assert(is_unescaped("alias"@)) by {
        reveal_strlit("alias");
    }
    assert(is_unescaped("cap_urn"@)) by {
        reveal_strlit("cap_urn");
    }
    assert(is_unescaped("title"@)) by {
        reveal_strlit("title");
    }
    assert(is_unescaped("is_loop"@)) by {
        reveal_strlit("is_loop");
    }
    assert(is_unescaped("assignment"@)) by {
        reveal_strlit("assignment");
    }
    assert(is_unescaped("target_node"@)) by {
        reveal_strlit("target_node");
    }
    assert("{\"alias\":\""@ == framed(seq!['{', '"'], "alias"@, seq!['"', ':', '"'])) by {
        reveal_strlit("{\"alias\":\"");
        reveal_strlit("alias");
        assert("{\"alias\":\""@ =~= framed(seq!['{', '"'], "alias"@, seq!['"', ':', '"']));
    }
    assert("\",\"cap_urn\":\""@ == framed(seq!['"', ',', '"'], "cap_urn"@, seq!['"', ':', '"'])) by {
        reveal_strlit("\",\"cap_urn\":\"");
        reveal_strlit("cap_urn");
        assert("\",\"cap_urn\":\""@ =~= framed(seq!['"', ',', '"'], "cap_urn"@, seq!['"', ':', '"']));
    }
    assert("\",\"title\":\""@ == framed(seq!['"', ',', '"'], "title"@, seq!['"', ':', '"'])) by {
        reveal_strlit("\",\"title\":\"");
        reveal_strlit("title");
        assert("\",\"title\":\""@ =~= framed(seq!['"', ',', '"'], "title"@, seq!['"', ':', '"']));
    }
    assert("\",\"is_loop\":"@ == framed(seq!['"', ',', '"'], "is_loop"@, seq!['"', ':'])) by {
        reveal_strlit("\",\"is_loop\":");
        reveal_strlit("is_loop");
        assert("\",\"is_loop\":"@ =~= framed(seq!['"', ',', '"'], "is_loop"@, seq!['"', ':']));
    }
    assert(",\"assignment\":["@ == framed(seq![',', '"'], "assignment"@, seq!['"', ':', '['])) by {
        reveal_strlit(",\"assignment\":[");
        reveal_strlit("assignment");
        assert(",\"assignment\":["@ =~= framed(seq![',', '"'], "assignment"@, seq!['"', ':', '[']));
    }
    assert("],\"target_node\":\""@ == framed(seq![']', ',', '"'], "target_node"@, seq!['"', ':', '"'])) by {
        reveal_strlit("],\"target_node\":\"");
        reveal_strlit("target_node");
        assert("],\"target_node\":\""@ =~= framed(seq![']', ',', '"'], "target_node"@, seq!['"', ':', '"']));
    }
    assert("\"}"@ == seq!['"', '}']) by {
        reveal_strlit("\"}");
        assert("\"}"@ =~= seq!['"', '}']);
    }
    let v1 = seq![("alias"@, Json::Text(alias))];
    let v2 = v1.push(("cap_urn"@, Json::Text(urn)));
    let v3 = v2.push(("title"@, Json::Text(title)));
    let v4 = v3.push(("is_loop"@, Json::Flag(edge.is_loop)));
    let v5 = v4.push(("assignment"@, Json::List(args)));
    let v6 = v5.push(("target_node"@, Json::Text(target)));
    lemma_open_first("alias"@, Json::Text(alias));
    lemma_open_push(v1, "cap_urn"@, Json::Text(urn));
    lemma_open_push(v2, "title"@, Json::Text(title));
    lemma_open_push(v3, "is_loop"@, Json::Flag(edge.is_loop));
    lemma_open_push(v4, "assignment"@, Json::List(args));
    lemma_open_push(v5, "target_node"@, Json::Text(target));
    lemma_first_text("alias"@, alias);
    let w1 = "{\"alias\":\""@ + alias;
    assert(seq!['{'] + fields_text(v1, 1) == w1 + seq!['"']);
    lemma_text_after_text(w1, "cap_urn"@, json_escaped(urn));
    let w2 = w1 + "\",\"cap_urn\":\""@ + json_escaped(urn);
    assert(seq!['{'] + fields_text(v2, 2) == w2 + seq!['"']);
    lemma_text_after_text(w2, "title"@, json_escaped(title));
    let w3 = w2 + "\",\"title\":\""@ + json_escaped(title);
    assert(seq!['{'] + fields_text(v3, 3) == w3 + seq!['"']);
    lemma_plain_after_text(w3, "is_loop"@, flag);
    let w4 = w3 + "\",\"is_loop\":"@ + flag;
    assert(seq!['{'] + fields_text(v4, 4) == w4);
    lemma_list_after_plain(w4, "assignment"@, list);
    let w5 = w4 + ",\"assignment\":["@ + list;
    assert(seq!['{'] + fields_text(v5, 5) == w5 + seq![']']);
    lemma_text_after_list(w5, "target_node"@, target);
    let w6 = w5 + "],\"target_node\":\""@ + target;
    assert(seq!['{'] + fields_text(v6, 6) == w6 + seq!['"']);
    lemma_close(w6, '"', "\"}"@);
    assert(edge_doc(registry, strand, i, first, base)->Fields_0 =~= v6);
}

proof fn lemma_edges_text(
    registry: FabricRegistry,
    strand: MachineStrand,
    n: nat,
    first: int,
    base: int,
)
    requires
        n <= strand.edges@.len(),
        edges_json(registry, strand, n as int, first, base) is Ok,
    ensures
        edges_json(registry, strand, n as int, first, base)->Ok_0 == items_text(
            edge_docs(registry, strand, first, base),
            n,
        ),
        forall|i: int|
            0 <= i < n ==> cap_title(
                registry,
                cap_text((#[trigger] strand.edges@[i]).cap_urn@),
            ) is Some,
    decreases n,
{
    if n > 0 {
        lemma_edges_text(registry, strand, (n - 1) as nat, first, base);
        lemma_edge_text(registry, strand, n - 1, first, base);
        let docs = edge_docs(registry, strand, first, base);
        assert(docs[n - 1] == edge_doc(registry, strand, n - 1, first, base));
        let p = items_text(docs, (n - 1) as nat) + comma(n - 1);
        let edge = strand.edges@[n - 1];
        let urn = cap_text(edge.cap_urn@);
        let title = cap_title(registry, urn)->0;
        let alias = edge_token(edge, first + n - 1, no_aliases());
        let flag = if edge.is_loop {
            "true"@
        } else {
            "false"@
        };
        let list = assignment_json(edge, edge.assignment@.len() as int, base);
        let target = node_name(base + edge.target);
        lemma_assoc(p, "{\"alias\":\""@, alias);
        lemma_assoc(p, "{\"alias\":\""@ + alias, "\",\"cap_urn\":\""@);
        lemma_assoc(p, "{\"alias\":\""@ + alias + "\",\"cap_urn\":\""@, json_escaped(urn));
        lemma_assoc(p, "{\"alias\":\""@ + alias + "\",\"cap_urn\":\""@ + json_escaped(urn), "\",\"title\":\""@);
        lemma_assoc(p, "{\"alias\":\""@ + alias + "\",\"cap_urn\":\""@ + json_escaped(urn) + "\",\"title\":\""@, json_escaped(title));
        lemma_assoc(p, "{\"alias\":\""@ + alias + "\",\"cap_urn\":\""@ + json_escaped(urn) + "\",\"title\":\""@ + json_escaped(title), "\",\"is_loop\":"@);
        lemma_assoc(p, "{\"alias\":\""@ + alias + "\",\"cap_urn\":\""@ + json_escaped(urn) + "\",\"title\":\""@ + json_escaped(title) + "\",\"is_loop\":"@, flag);
        lemma_assoc(p, "{\"alias\":\""@ + alias + "\",\"cap_urn\":\""@ + json_escaped(urn) + "\",\"title\":\""@ + json_escaped(title) + "\",\"is_loop\":"@ + flag, ",\"assignment\":["@);
        lemma_assoc(p, "{\"alias\":\""@ + alias + "\",\"cap_urn\":\""@ + json_escaped(urn) + "\",\"title\":\""@ + json_escaped(title) + "\",\"is_loop\":"@ + flag + ",\"assignment\":["@, list);
        lemma_assoc(p, "{\"alias\":\""@ + alias + "\",\"cap_urn\":\""@ + json_escaped(urn) + "\",\"title\":\""@ + json_escaped(title) + "\",\"is_loop\":"@ + flag + ",\"assignment\":["@ + list, "],\"target_node\":\""@);
        lemma_assoc(p, "{\"alias\":\""@ + alias + "\",\"cap_urn\":\""@ + json_escaped(urn) + "\",\"title\":\""@ + json_escaped(title) + "\",\"is_loop\":"@ + flag + ",\"assignment\":["@ + list + "],\"target_node\":\""@, target);
        lemma_assoc(p, "{\"alias\":\""@ + alias + "\",\"cap_urn\":\""@ + json_escaped(urn) + "\",\"title\":\""@ + json_escaped(title) + "\",\"is_loop\":"@ + flag + ",\"assignment\":["@ + list + "],\"target_node\":\""@ + target, "\"}"@);
    }
}

proof fn lemma_anchors_text(ids: Seq<NodeId>, n: nat, base: int)
    requires
        n <= ids.len(),
    ensures
        anchors_json(ids, n as int, base) == items_text(anchor_docs(ids, base), n),
    decreases n,
{
    if n > 0 {
        lemma_anchors_text(ids, (n - 1) as nat, base);
        lemma_node_name(base + ids[n - 1]);
        reveal_strlit("\"");
        let docs = anchor_docs(ids, base);
        assert(docs[n - 1] == Json::Text(node_name(base + ids[n - 1])));
        assert(anchors_json(ids, n as int, base) =~= items_text(docs, (n - 1) as nat) + comma(
            n - 1,
        ) + json_text(docs[n - 1]));
    }
}

/// The document of a strand with these parts.
spec fn four_lists(nodes: Seq<Json>, edges: Seq<Json>, ins: Seq<Json>, outs: Seq<Json>) -> Json {
    Json::Fields(
        seq![
            ("nodes"@, Json::List(nodes)),
            ("edges"@, Json::List(edges)),
            ("input_anchor_nodes"@, Json::List(ins)),
            ("output_anchor_nodes"@, Json::List(outs)),
        ],
    )
}

proof fn lemma_four_lists(nodes: Seq<Json>, edges: Seq<Json>, ins: Seq<Json>, outs: Seq<Json>)
    ensures
        json_text(four_lists(nodes, edges, ins, outs)) == "{\"nodes\":["@ + items_text(
            nodes,
            nodes.len(),
        ) + "],\"edges\":["@ + items_text(edges, edges.len()) + "],\"input_anchor_nodes\":["@
            + items_text(ins, ins.len()) + "],\"output_anchor_nodes\":["@ + items_text(
            outs,
            outs.len(),
        ) + "]}"@,
{
    let a = items_text(nodes, nodes.len());
    let b = items_text(edges, edges.len());
    let i = items_text(ins, ins.len());
    let o = items_text(outs, outs.len());
    assert(is_unescaped("nodes"@)) by {
        reveal_strlit("nodes");
    }
    assert(is_unescaped("edges"@)) by {
        reveal_strlit("edges");
    }
    assert(is_unescaped("input_anchor_nodes"@)) by {
        reveal_strlit("input_anchor_nodes");
    }
    assert(is_unescaped("output_anchor_nodes"@)) by {
        reveal_strlit("output_anchor_nodes");
    }
    assert("{\"nodes\":["@ == framed(seq!['{', '"'], "nodes"@, seq!['"', ':', '['])) by {
        reveal_strlit("{\"nodes\":[");
        reveal_strlit("nodes");
        assert("{\"nodes\":["@ =~= framed(seq!['{', '"'], "nodes"@, seq!['"', ':', '[']));
    }
    assert("],\"edges\":["@ == framed(seq![']', ',', '"'], "edges"@, seq!['"', ':', '['])) by {
        reveal_strlit("],\"edges\":[");
        reveal_strlit("edges");
        assert("],\"edges\":["@ =~= framed(seq![']', ',', '"'], "edges"@, seq!['"', ':', '[']));
    }
    assert("],\"input_anchor_nodes\":["@ == framed(seq![']', ',', '"'], "input_anchor_nodes"@, seq!['"', ':', '['])) by {
        reveal_strlit("],\"input_anchor_nodes\":[");
        reveal_strlit("input_anchor_nodes");
        assert("],\"input_anchor_nodes\":["@ =~= framed(seq![']', ',', '"'], "input_anchor_nodes"@, seq!['"', ':', '[']));
    }
    assert("],\"output_anchor_nodes\":["@ == framed(seq![']', ',', '"'], "output_anchor_nodes"@, seq!['"', ':', '['])) by {
        reveal_strlit("],\"output_anchor_nodes\":[");
        reveal_strlit("output_anchor_nodes");
        assert("],\"output_anchor_nodes\":["@ =~= framed(seq![']', ',', '"'], "output_anchor_nodes"@, seq!['"', ':', '[']));
    }
    assert("]}"@ == seq![']', '}']) by {
        reveal_strlit("]}");
        assert("]}"@ =~= seq![']', '}']);
    }
    let v1 = seq![("nodes"@, Json::List(nodes))];
    let v2 = v1.push(("edges"@, Json::List(edges)));
    let v3 = v2.push(("input_anchor_nodes"@, Json::List(ins)));
    let v4 = v3.push(("output_anchor_nodes"@, Json::List(outs)));
    lemma_open_first("nodes"@, Json::List(nodes));
    lemma_open_push(v1, "edges"@, Json::List(edges));
    lemma_open_push(v2, "input_anchor_nodes"@, Json::List(ins));
    lemma_open_push(v3, "output_anchor_nodes"@, Json::List(outs));
    lemma_first_list("nodes"@, a);
    let w1 = "{\"nodes\":["@ + a;
    assert(seq!['{'] + fields_text(v1, 1) == w1 + seq![']']);
    lemma_list_after_list(w1, "edges"@, b);
    let w2 = w1 + "],\"edges\":["@ + b;
    assert(seq!['{'] + fields_text(v2, 2) == w2 + seq![']']);
    lemma_list_after_list(w2, "input_anchor_nodes"@, i);
    let w3 = w2 + "],\"input_anchor_nodes\":["@ + i;
    assert(seq!['{'] + fields_text(v3, 3) == w3 + seq![']']);
    lemma_list_after_list(w3, "output_anchor_nodes"@, o);
    let w4 = w3 + "],\"output_anchor_nodes\":["@ + o;
    assert(seq!['{'] + fields_text(v4, 4) == w4 + seq![']']);
    lemma_close(w4, ']', "]}"@);
    assert(four_lists(nodes, edges, ins, outs)->Fields_0 =~= v4);
}

proof fn lemma_strand_text(
    registry: FabricRegistry,
    strand: MachineStrand,
    first: int,
    base: int,
)
    requires
        strand_json(registry, strand, first, base) is Ok,
    ensures
        strand_json(registry, strand, first, base)->Ok_0 == json_text(
            strand_doc(registry, strand, first, base),
        ),
        nodes_json(registry, strand, strand.nodes@.len() as int, base) is Ok,
        edges_json(registry, strand, strand.edges@.len() as int, first, base) is Ok,
{
    reveal(strand_doc);
    let nodes = node_docs(registry, strand, base);
    let edges = edge_docs(registry, strand, first, base);
    let ins = anchor_docs(strand.input_anchor_ids@, base);
    let outs = anchor_docs(strand.output_anchor_ids@, base);
    lemma_nodes_text(registry, strand, strand.nodes@.len(), base);
    lemma_edges_text(registry, strand, strand.edges@.len(), first, base);
    lemma_anchors_text(strand.input_anchor_ids@, strand.input_anchor_ids@.len(), base);
    lemma_anchors_text(strand.output_anchor_ids@, strand.output_anchor_ids@.len(), base);
    lemma_four_lists(nodes, edges, ins, outs);
}

/// The strand at this place is written.
#[verifier::opaque]
spec fn is_written(registry: FabricRegistry, strands: Seq<MachineStrand>, k: int) -> bool {
    strand_json(
        registry,
        strands[k],
        edge_count(strands.subrange(0, k)) as int,
        node_count(strands.subrange(0, k)) as int,
    ) is Ok
}

proof fn lemma_written_prefix(
    registry: FabricRegistry,
    a: Seq<MachineStrand>,
    b: Seq<MachineStrand>,
    k: int,
)
    requires
        0 <= k < a.len(),
        k < b.len(),
        a.subrange(0, k) == b.subrange(0, k),
        a[k] == b[k],
        is_written(registry, a, k),
    ensures
        is_written(registry, b, k),
{
    reveal(is_written);
}

/// The text of the strands without the last, and of the last.
proof fn lemma_last_strand(registry: FabricRegistry, strands: Seq<MachineStrand>)
    requires
        strands.len() > 0,
        strands_json(registry, strands) is Ok,
    ensures
        strands_json(registry, strands.drop_last()) is Ok,
        is_written(registry, strands, strands.len() - 1),
        strands_json(registry, strands)->Ok_0 == strands_json(registry, strands.drop_last())->Ok_0
            + comma(strands.len() - 1) + json_text(
            strand_doc(
                registry,
                strands.last(),
                edge_count(strands.drop_last()) as int,
                node_count(strands.drop_last()) as int,
            ),
        ),
{
    reveal(is_written);
    let rest = strands.drop_last();
    assert(strands.subrange(0, strands.len() - 1) =~= rest);
    lemma_strand_text(
        registry,
        strands.last(),
        edge_count(rest) as int,
        node_count(rest) as int,
    );
}

proof fn lemma_strands_text(registry: FabricRegistry, strands: Seq<MachineStrand>)
    requires
        strands_json(registry, strands) is Ok,
    ensures
        strands_json(registry, strands)->Ok_0 == items_text(
            strand_docs(registry, strands),
            strands.len(),
        ),
        forall|k: int| 0 <= k < strands.len() ==> #[trigger] is_written(registry, strands, k),
    decreases strands.len(),
{
    let n = strands.len();
    let docs = strand_docs(registry, strands);
    if n > 0 {
        let rest = strands.drop_last();
        lemma_last_strand(registry, strands);
        lemma_strands_text(registry, rest);
        assert(strands.subrange(0, n - 1) =~= rest);
        let earlier = strand_docs(registry, rest);
        assert forall|i: int| 0 <= i < n - 1 implies docs[i] == earlier[i] by {
            assert(strands.subrange(0, i) =~= rest.subrange(0, i));
        }
        lemma_items_prefix(earlier, docs, (n - 1) as nat);
        assert forall|k: int| 0 <= k < n implies #[trigger] is_written(registry, strands, k) by {
            if k < n - 1 {
                assert(is_written(registry, rest, k));
                assert(strands.subrange(0, k) =~= rest.subrange(0, k));
                lemma_written_prefix(registry, rest, strands, k);
            }
        }
    }
}

// ---------------------------------------------------------------------------
// What the documents say
// ---------------------------------------------------------------------------

proof fn lemma_names_differ()
    ensures
        "id"@ != "urn"@,
        "id"@ != "title"@,
        "urn"@ != "title"@,
        "alias"@ != "cap_urn"@,
        "alias"@ != "title"@,
        "alias"@ != "is_loop"@,
        "alias"@ != "assignment"@,
        "alias"@ != "target_node"@,
        "cap_urn"@ != "title"@,
        "cap_urn"@ != "is_loop"@,
        "cap_urn"@ != "assignment"@,
        "cap_urn"@ != "target_node"@,
        "title"@ != "is_loop"@,
        "title"@ != "assignment"@,
        "title"@ != "target_node"@,
        "is_loop"@ != "assignment"@,
        "is_loop"@ != "target_node"@,
        "assignment"@ != "target_node"@,
        "cap_arg_media_urn"@ != "source_node"@,
        "nodes"@ != "edges"@,
        "nodes"@ != "input_anchor_nodes"@,
        "nodes"@ != "output_anchor_nodes"@,
        "edges"@ != "input_anchor_nodes"@,
        "edges"@ != "output_anchor_nodes"@,
        "input_anchor_nodes"@ != "output_anchor_nodes"@,
{
    reveal_strlit("id");
    reveal_strlit("urn");
    reveal_strlit("title");
    reveal_strlit("alias");
    reveal_strlit("cap_urn");
    reveal_strlit("is_loop");
    reveal_strlit("assignment");
    reveal_strlit("target_node");
    reveal_strlit("cap_arg_media_urn");
    reveal_strlit("source_node");
    reveal_strlit("nodes");
    reveal_strlit("edges");
    reveal_strlit("input_anchor_nodes");
    reveal_strlit("output_anchor_nodes");
    assert("id"@.len() != "urn"@.len());
    assert("id"@.len() != "title"@.len());
    assert("urn"@.len() != "title"@.len());
    assert("alias"@.len() != "cap_urn"@.len());
    assert("alias"@.len() != "is_loop"@.len());
    assert("alias"@.len() != "assignment"@.len());
    assert("alias"@.len() != "target_node"@.len());
    assert("cap_urn"@.len() != "title"@.len());
    assert("cap_urn"@.len() != "assignment"@.len());
    assert("cap_urn"@.len() != "target_node"@.len());
    assert("title"@.len() != "is_loop"@.len());
    assert("title"@.len() != "assignment"@.len());
    assert("title"@.len() != "target_node"@.len());
    assert("is_loop"@.len() != "assignment"@.len());
    assert("is_loop"@.len() != "target_node"@.len());
    assert("assignment"@.len() != "target_node"@.len());
    assert("cap_arg_media_urn"@.len() != "source_node"@.len());
    assert("nodes"@.len() != "input_anchor_nodes"@.len());
    assert("nodes"@.len() != "output_anchor_nodes"@.len());
    assert("edges"@.len() != "input_anchor_nodes"@.len());
    assert("edges"@.len() != "output_anchor_nodes"@.len());
    assert("input_anchor_nodes"@.len() != "output_anchor_nodes"@.len());
    assert("alias"@[0] != "title"@[0]);
    assert("cap_urn"@[0] != "is_loop"@[0]);
    assert("nodes"@[0] != "edges"@[0]);
}

/// The field at a place whose name does not stand before it is the field of
/// that name.
proof fn lemma_field(fields: Seq<(Seq<char>, Json)>, i: int)
    requires
        0 <= i < fields.len(),
        forall|j: int| 0 <= j < i ==> (#[trigger] fields[j]).0 != fields[i].0,
    ensures
        field(Json::Fields(fields), fields[i].0) == Some(fields[i].1),
    decreases i,
{
    if i > 0 {
        assert(fields[0].0 != fields[i].0);
        let rest = fields.skip(1);
        assert forall|j: int| 0 <= j < i - 1 implies (#[trigger] rest[j]).0 != rest[i - 1].0 by {
            assert(rest[j] == fields[j + 1]);
        }
        lemma_field(rest, i - 1);
        assert(rest[i - 1] == fields[i]);
        assert(first_field(fields, fields[i].0) == first_field(rest, fields[i].0));
    }
}

proof fn lemma_node_says(registry: FabricRegistry, strand: MachineStrand, i: int, base: int)
    ensures
        ({
            let doc = node_doc(registry, strand, i, base);
            let urn = media_text(strand.nodes@[i]@);
            &&& says(doc, "id"@, node_name(base + i))
            &&& says(doc, "urn"@, urn)
            &&& says(doc, "title"@, media_title(registry, urn)->0)
        }),
{
    lemma_names_differ();
    let fields = node_doc(registry, strand, i, base)->Fields_0;
    lemma_field(fields, 0);
    lemma_field(fields, 1);
    lemma_field(fields, 2);
}

proof fn lemma_strand_says(
    registry: FabricRegistry,
    strand: MachineStrand,
    first: int,
    base: int,
)
    ensures
        ({
            let doc = strand_doc(registry, strand, first, base);
            &&& field(doc, "nodes"@) == Some(Json::List(node_docs(registry, strand, base)))
            &&& field(doc, "edges"@) == Some(Json::List(edge_docs(registry, strand, first, base)))
            &&& field(doc, "input_anchor_nodes"@) == Some(
                Json::List(anchor_docs(strand.input_anchor_ids@, base)),
            )
            &&& field(doc, "output_anchor_nodes"@) == Some(
                Json::List(anchor_docs(strand.output_anchor_ids@, base)),
            )
        }),
{
    reveal(strand_doc);
    lemma_names_differ();
    let fields = strand_doc(registry, strand, first, base)->Fields_0;
    lemma_field(fields, 0);
    lemma_field(fields, 1);
    lemma_field(fields, 2);
    lemma_field(fields, 3);
}

proof fn lemma_names_node(
    registry: FabricRegistry,
    strand: MachineStrand,
    first: int,
    base: int,
    id: NodeId,
)
    requires
        id < strand.nodes@.len(),
    ensures
        names_node(
            strand_doc(registry, strand, first, base),
            Json::Text(node_name(base + id)),
            id,
        ),
{
    lemma_strand_says(registry, strand, first, base);
    lemma_node_says(registry, strand, id as int, base);
    assert(node_docs(registry, strand, base)[id as int] == node_doc(
        registry,
        strand,
        id as int,
        base,
    ));
}

proof fn lemma_edge_shown(
    registry: FabricRegistry,
    strand: MachineStrand,
    first: nat,
    base: nat,
    i: int,
)
    requires
        strand.wf(),
        0 <= i < strand.edges@.len(),
        cap_title(registry, cap_text(strand.edges@[i].cap_urn@)) is Some,
    ensures
        shows_edge(
            strand_doc(registry, strand, first as int, base as int),
            edge_doc(registry, strand, i, first as int, base as int),
            registry,
            strand.edges@[i],
            (first + i) as nat,
        ),
{
    let edge = strand.edges@[i];
    let whole = strand_doc(registry, strand, first as int, base as int);
    let doc = edge_doc(registry, strand, i, first as int, base as int);
    lemma_names_differ();
    let fields = doc->Fields_0;
    lemma_field(fields, 0);
    lemma_field(fields, 1);
    lemma_field(fields, 2);
    lemma_field(fields, 3);
    lemma_field(fields, 4);
    lemma_field(fields, 5);
    assert(edge.wf(strand.nodes@.len()));
    lemma_names_node(registry, strand, first as int, base as int, edge.target);
    assert forall|k: int| 0 <= k < edge.assignment@.len() implies ({
        let argument = #[trigger] items(doc, "assignment"@)[k];
        &&& says(
            argument,
            "cap_arg_media_urn"@,
            media_text(edge.assignment@[k].cap_arg_media_urn@),
        )
        &&& field(argument, "source_node"@) is Some
        &&& names_node(whole, field(argument, "source_node"@)->0, edge.assignment@[k].source)
    }) by {
        let argument = argument_doc(edge, k, base as int);
        assert(items(doc, "assignment"@)[k] == argument);
        lemma_field(argument->Fields_0, 0);
        lemma_field(argument->Fields_0, 1);
        assert(edge.assignment@[k].source < strand.nodes@.len());
        lemma_names_node(registry, strand, first as int, base as int, edge.assignment@[k].source);
    }
}

proof fn lemma_anchors_shown(
    registry: FabricRegistry,
    strand: MachineStrand,
    first: int,
    base: int,
    name: Seq<char>,
    ids: Seq<NodeId>,
)
    requires
        forall|i: int| 0 <= i < ids.len() ==> #[trigger] ids[i] < strand.nodes@.len(),
        field(strand_doc(registry, strand, first, base), name) == Some(
            Json::List(anchor_docs(ids, base)),
        ),
    ensures
        lists_nodes(strand_doc(registry, strand, first, base), name, ids),
{
    let doc = strand_doc(registry, strand, first, base);
    assert forall|i: int| 0 <= i < ids.len() implies names_node(
        doc,
        #[trigger] items(doc, name)[i],
        ids[i],
    ) by {
        lemma_names_node(registry, strand, first, base, ids[i]);
    }
}

proof fn lemma_strand_shown(
    registry: FabricRegistry,
    strand: MachineStrand,
    first: nat,
    base: nat,
)
    requires
        strand.wf(),
        strand_json(registry, strand, first as int, base as int) is Ok,
    ensures
        shows_strand(
            strand_doc(registry, strand, first as int, base as int),
            registry,
            strand,
            first,
            base,
        ),
{
    let doc = strand_doc(registry, strand, first as int, base as int);
    lemma_strand_text(registry, strand, first as int, base as int);
    lemma_nodes_text(registry, strand, strand.nodes@.len(), base as int);
    lemma_edges_text(registry, strand, strand.edges@.len(), first as int, base as int);
    lemma_strand_says(registry, strand, first as int, base as int);
    assert forall|i: int| 0 <= i < strand.nodes@.len() implies ({
        let node = #[trigger] items(doc, "nodes"@)[i];
        let urn = media_text(strand.nodes@[i]@);
        &&& says(node, "id"@, "n"@ + decimal((base + i) as nat))
        &&& says(node, "urn"@, urn)
        &&& registry.cached_media_defs@.dom().contains(norm_media(urn))
        &&& says(node, "title"@, registry.cached_media_defs@[norm_media(urn)].title@)
    }) by {
        lemma_node_says(registry, strand, i, base as int);
        assert(media_title(registry, media_text(strand.nodes@[i]@)) is Some);
    }
    assert forall|i: int| 0 <= i < strand.edges@.len() implies shows_edge(
        doc,
        #[trigger] items(doc, "edges"@)[i],
        registry,
        strand.edges@[i],
        (first + i) as nat,
    ) by {
        assert(cap_title(registry, cap_text(strand.edges@[i].cap_urn@)) is Some);
        lemma_edge_shown(registry, strand, first, base, i);
    }
    lemma_anchors_shown(
        registry,
        strand,
        first as int,
        base as int,
        "input_anchor_nodes"@,
        strand.input_anchor_ids@,
    );
    lemma_anchors_shown(
        registry,
        strand,
        first as int,
        base as int,
        "output_anchor_nodes"@,
        strand.output_anchor_ids@,
    );
}

proof fn lemma_payload_document(docs: Seq<Json>)
    ensures
        read_document("{\"strands\":["@ + items_text(docs, docs.len()) + "]}"@) == Some(
            Json::Fields(seq![("strands"@, Json::List(docs))]),
        ),
        field(Json::Fields(seq![("strands"@, Json::List(docs))]), "strands"@) == Some(
            Json::List(docs),
        ),
{
    let fields = seq![("strands"@, Json::List(docs))];
    let doc = Json::Fields(fields);
    let payload = "{\"strands\":["@ + items_text(docs, docs.len()) + "]}"@;
    assert(is_unescaped("strands"@)) by {
        reveal_strlit("strands");
    }
    assert("{\"strands\":["@ == framed(seq!['{', '"'], "strands"@, seq!['"', ':', '['])) by {
        reveal_strlit("{\"strands\":[");
        reveal_strlit("strands");
        assert("{\"strands\":["@ =~= framed(seq!['{', '"'], "strands"@, seq!['"', ':', '[']));
    }
    assert("]}"@ == seq![']', '}']) by {
        reveal_strlit("]}");
        assert("]}"@ =~= seq![']', '}']);
    }
    let list = items_text(docs, docs.len());
    lemma_open_first("strands"@, Json::List(docs));
    lemma_first_list("strands"@, list);
    lemma_close("{\"strands\":["@ + list, ']', "]}"@);
    assert(json_text(doc) == payload);
    law_document_reads_back(doc);
    lemma_field(fields, 0);
}

proof fn lemma_strand_at(registry: FabricRegistry, strands: Seq<MachineStrand>, k: int)
    requires
        0 <= k < strands.len(),
        strands[k].wf(),
        is_written(registry, strands, k),
    ensures
        shows_strand(
            strand_docs(registry, strands)[k],
            registry,
            strands[k],
            edge_count(strands.subrange(0, k)),
            node_count(strands.subrange(0, k)),
        ),
{
    reveal(is_written);
    lemma_strand_shown(
        registry,
        strands[k],
        edge_count(strands.subrange(0, k)),
        node_count(strands.subrange(0, k)),
    );
}

/// Law: the payload of a machine reads as a document with one entry for each
/// strand. It gives each data position a name of its own, its URN and the title
/// of its definition; each edge its cap with title, whether it loops, and what
/// feeds it and where it leads, by those names; and by the same names the
/// positions where data comes in, and those where it leaves.
pub proof fn law_payload_reads_back(machine: Machine, registry: FabricRegistry, payload: Seq<char>)
    requires
        machine.wf(),
        strands_json(registry, machine.strands@) is Ok,
        payload == "{\"strands\":["@ + strands_json(registry, machine.strands@)->Ok_0 + "]}"@,
    ensures
        read_document(payload) matches Some(doc) && {
            &&& lists(doc, "strands"@)
            &&& items(doc, "strands"@).len() == machine.strands@.len()
            &&& forall|k: int|
                0 <= k < machine.strands@.len() ==> shows_strand(
                    #[trigger] items(doc, "strands"@)[k],
                    registry,
                    machine.strands@[k],
                    edge_count(machine.strands@.subrange(0, k)),
                    node_count(machine.strands@.subrange(0, k)),
                )
        },
{
    let strands = machine.strands@;
    let docs = strand_docs(registry, strands);
    let doc = Json::Fields(seq![("strands"@, Json::List(docs))]);
    lemma_strands_text(registry, strands);
    lemma_payload_document(docs);
    assert(items(doc, "strands"@) == docs);
    assert forall|k: int| 0 <= k < strands.len() implies shows_strand(
        #[trigger] items(doc, "strands"@)[k],
        registry,
        strands[k],
        edge_count(strands.subrange(0, k)),
        node_count(strands.subrange(0, k)),
    ) by {
        assert(strands[k].wf());
        assert(is_written(registry, strands, k));
        lemma_strand_at(registry, strands, k);
    }
}

/// The media definition of the position is cached.
pub open spec fn knows_media(registry: FabricRegistry, strand: MachineStrand, i: int) -> bool {
    registry.cached_media_defs@.dom().contains(norm_media(media_text(strand.nodes@[i]@)))
}

/// The cap of the edge is cached.
pub open spec fn knows_cap(registry: FabricRegistry, strand: MachineStrand, i: int) -> bool {
    registry.cached_caps@.dom().contains(norm_cap(cap_text(strand.edges@[i].cap_urn@)))
}

/// Every definition of the strand is cached.
#[verifier::opaque]
pub open spec fn knows_all(registry: FabricRegistry, strand: MachineStrand) -> bool {
    &&& forall|i: int| 0 <= i < strand.nodes@.len() ==> #[trigger] knows_media(registry, strand, i)
    &&& forall|i: int| 0 <= i < strand.edges@.len() ==> #[trigger] knows_cap(registry, strand, i)
}

/// What is named is the first definition that the strand lacks: of its data
/// positions in order, then of its edges.
#[verifier::opaque]
pub open spec fn is_first_lacking(
    registry: FabricRegistry,
    strand: MachineStrand,
    lacking: Missing,
) -> bool {
    match lacking {
        Missing::Media(urn) => exists|i: int|
            {
                &&& 0 <= i < strand.nodes@.len()
                &&& !#[trigger] knows_media(registry, strand, i)
                &&& urn == media_text(strand.nodes@[i]@)
                &&& forall|j: int| 0 <= j < i ==> #[trigger] knows_media(registry, strand, j)
            },
        Missing::Cap(urn) => {
            &&& forall|j: int|
                0 <= j < strand.nodes@.len() ==> #[trigger] knows_media(registry, strand, j)
            &&& exists|i: int|
                {
                    &&& 0 <= i < strand.edges@.len()
                    &&& !#[trigger] knows_cap(registry, strand, i)
                    &&& urn == cap_text(strand.edges@[i].cap_urn@)
                    &&& forall|j: int| 0 <= j < i ==> #[trigger] knows_cap(registry, strand, j)
                }
        },
    }
}

proof fn lemma_nodes_known(registry: FabricRegistry, strand: MachineStrand, n: int, base: int)
    requires
        0 <= n <= strand.nodes@.len(),
    ensures
        match nodes_json(registry, strand, n, base) {
            Ok(_) => forall|j: int| 0 <= j < n ==> #[trigger] knows_media(registry, strand, j),
            Err(m) => m is Media && is_first_lacking(registry, strand, m),
        },
    decreases n,
{
    reveal(is_first_lacking);
    if n > 0 {
        lemma_nodes_known(registry, strand, n - 1, base);
        assert(knows_media(registry, strand, n - 1) == media_title(
            registry,
            media_text(strand.nodes@[n - 1]@),
        ) is Some);
    }
}

proof fn lemma_edges_known(
    registry: FabricRegistry,
    strand: MachineStrand,
    n: int,
    first: int,
    base: int,
)
    requires
        0 <= n <= strand.edges@.len(),
        forall|j: int| 0 <= j < strand.nodes@.len() ==> #[trigger] knows_media(registry, strand, j),
    ensures
        match edges_json(registry, strand, n, first, base) {
            Ok(_) => forall|j: int| 0 <= j < n ==> #[trigger] knows_cap(registry, strand, j),
            Err(m) => m is Cap && is_first_lacking(registry, strand, m),
        },
    decreases n,
{
    reveal(is_first_lacking);
    if n > 0 {
        lemma_edges_known(registry, strand, n - 1, first, base);
        assert(knows_cap(registry, strand, n - 1) == cap_title(
            registry,
            cap_text(strand.edges@[n - 1].cap_urn@),
        ) is Some);
    }
}

proof fn lemma_strand_known(
    registry: FabricRegistry,
    strand: MachineStrand,
    first: int,
    base: int,
)
    ensures
        match strand_json(registry, strand, first, base) {
            Ok(_) => knows_all(registry, strand),
            Err(m) => is_first_lacking(registry, strand, m) && !knows_all(registry, strand),
        },
{
    lemma_nodes_known(registry, strand, strand.nodes@.len() as int, base);
    if nodes_json(registry, strand, strand.nodes@.len() as int, base) is Ok {
        lemma_edges_known(registry, strand, strand.edges@.len() as int, first, base);
    }
    reveal(is_first_lacking);
    reveal(knows_all);
}

proof fn lemma_last_strand_known(registry: FabricRegistry, strands: Seq<MachineStrand>)
    requires
        strands.len() > 0,
    ensures
        match (strands_json(registry, strands.drop_last()), strands_json(registry, strands)) {
            (Err(m), r) => r == Err::<Seq<char>, Missing>(m),
            (Ok(_), Ok(_)) => knows_all(registry, strands.last()),
            (Ok(_), Err(m)) => is_first_lacking(registry, strands.last(), m) && !knows_all(
                registry,
                strands.last(),
            ),
        },
{
    let rest = strands.drop_last();
    lemma_strand_known(
        registry,
        strands.last(),
        edge_count(rest) as int,
        node_count(rest) as int,
    );
}

/// Law: a payload is made exactly where every definition of the machine is
/// cached. Where one is not, the first that is lacking, in the order of the
/// strands, is named.
pub proof fn law_payload_needs_every_definition(
    registry: FabricRegistry,
    strands: Seq<MachineStrand>,
)
    ensures
        match strands_json(registry, strands) {
            Ok(_) => forall|k: int|
                0 <= k < strands.len() ==> knows_all(registry, #[trigger] strands[k]),
            Err(m) => exists|k: int|
                {
                    &&& 0 <= k < strands.len()
                    &&& !knows_all(registry, #[trigger] strands[k])
                    &&& is_first_lacking(registry, strands[k], m)
                    &&& forall|j: int| 0 <= j < k ==> knows_all(registry, #[trigger] strands[j])
                },
        },
    decreases strands.len(),
{
    if strands.len() > 0 {
        let rest = strands.drop_last();
        let n = rest.len() as int;
        law_payload_needs_every_definition(registry, rest);
        lemma_last_strand_known(registry, strands);
        match strands_json(registry, rest) {
            Err(m) => {
                let k = choose|k: int|
                    {
                        &&& 0 <= k < rest.len()
                        &&& !knows_all(registry, #[trigger] rest[k])
                        &&& is_first_lacking(registry, rest[k], m)
                        &&& forall|j: int| 0 <= j < k ==> knows_all(registry, #[trigger] rest[j])
                    };
                assert(strands[k] == rest[k]);
                assert forall|j: int| 0 <= j < k implies knows_all(
                    registry,
                    #[trigger] strands[j],
                ) by {
                    assert(strands[j] == rest[j]);
                }
            },
            Ok(_) => {
                assert forall|j: int| 0 <= j < n implies knows_all(
                    registry,
                    #[trigger] strands[j],
                ) by {
                    assert(strands[j] == rest[j]);
                }
                assert(strands[n] == strands.last());
            },
        }
    }
}

} // verus!
