//! Input files: which of them count, what they are bound to, and what is
//! written for them.
//!
//! A file is bound by its media type and never by its place: to the anchor that
//! accepts it at the smallest distance in specificity, if there is just one.

use crate::cli::command::{exit_with, refusal, three, Exit};
use crate::machine::notation::lemma_decimal_injective;
use crate::path::{extension_of, file_name, input_stem, input_stem_of, name_of, split_name};
use crate::text::{
    add_text, begins, begins_with, contains_text, decimal, decimal_text, has_text,
    lemma_less_strict, lemma_less_total, lemma_less_trans, less, lowercase, occurs, opt_text, owned,
    same_text, text_less, texts, to_lowercase,
};
use crate::urn::{media_parse, media_text, tags_accept, tags_score, MediaUrn, TagView};
use vstd::prelude::*;

verus! {

broadcast use vstd::string::group_string_axioms;

// ---------------------------------------------------------------------------
// Files
// ---------------------------------------------------------------------------

/// An extension of files that are no content.
pub open spec fn is_skipped_extension(e: Seq<char>) -> bool {
    e == "json"@ || e == "log"@ || e == "txt"@ || e == "md"@ || e == "yml"@ || e == "yaml"@ || e
        == "toml"@ || e == "sh"@ || e == "py"@ || e == "rb"@ || e == "js"@ || e == "ts"@ || e
        == "rs"@ || e == "go"@ || e == "c"@ || e == "h"@ || e == "cpp"@ || e == "zip"@ || e
        == "tar"@ || e == "gz"@ || e == "bz2"@ || e == "xz"@
}

/// Whether an extension is one of files that are no content.
fn skipped_extension(e: &str) -> (r: bool)
    ensures
        r == is_skipped_extension(e@),
{
    same_text(e, "json") || same_text(e, "log") || same_text(e, "txt") || same_text(e, "md")
        || same_text(e, "yml") || same_text(e, "yaml") || same_text(e, "toml") || same_text(
        e,
        "sh",
    ) || same_text(e, "py") || same_text(e, "rb") || same_text(e, "js") || same_text(e, "ts")
        || same_text(e, "rs") || same_text(e, "go") || same_text(e, "c") || same_text(e, "h")
        || same_text(e, "cpp") || same_text(e, "zip") || same_text(e, "tar") || same_text(e, "gz")
        || same_text(e, "bz2") || same_text(e, "xz")
}

/// A file that is passed over by its name.
pub open spec fn is_skipped_name(name: Seq<char>) -> bool {
    begins(name, "."@) || name == ".DS_Store"@ || name == "Thumbs.db"@ || name == ".gitignore"@
        || name == ".gitkeep"@
}

/// A file of a folder that is content: neither hidden nor passed over by its
/// name or its extension, and no folder itself.
pub open spec fn is_content(path: Seq<char>, is_dir: bool) -> bool {
    let name = match name_of(path) {
        Some(n) => n,
        None => ""@,
    };
    &&& !is_skipped_name(name)
    &&& !is_dir
    &&& match name_of(path) {
        Some(n) => match extension_of(n) {
            Some(e) => !is_skipped_extension(lowercase(e)),
            None => true,
        },
        None => true,
    }
}

/// Whether a file of a folder is content.
pub fn should_include_file(path: &str, is_dir: bool) -> (r: bool)
    ensures
        r == is_content(path@, is_dir),
{
    let named = file_name(path);
    let name = match &named {
        Some(n) => n.clone(),
        None => owned(""),
    };
    if begins_with(&name, ".") || same_text(&name, ".DS_Store") || same_text(&name, "Thumbs.db")
        || same_text(&name, ".gitignore") || same_text(&name, ".gitkeep") {
        return false;
    }
    if is_dir {
        return false;
    }
    match &named {
        Some(n) => {
            match split_name(n).1 {
                Some(e) => !skipped_extension(&to_lowercase(&e)),
                None => true,
            }
        },
        None => true,
    }
}

/// What an input path stands for.
#[derive(Debug, Clone, Copy, PartialEq, Eq, Structural)]
pub enum InputKind {
    /// A pattern, to be matched.
    Pattern,
    /// A folder, to be listed.
    Folder,
    File,
    Missing,
}

/// What an input path stands for: a pattern if it holds a star or a question
/// mark, else what lies there.
pub fn input_kind(path: &str, is_dir: bool, is_file: bool) -> (r: InputKind)
    ensures
        r == (if occurs(path@, "*"@) || occurs(path@, "?"@) {
            InputKind::Pattern
        } else if is_dir {
            InputKind::Folder
        } else if is_file {
            InputKind::File
        } else {
            InputKind::Missing
        }),
{
    if contains_text(path, "*") || contains_text(path, "?") {
        InputKind::Pattern
    } else if is_dir {
        InputKind::Folder
    } else if is_file {
        InputKind::File
    } else {
        InputKind::Missing
    }
}

// ---------------------------------------------------------------------------
// Anchors
// ---------------------------------------------------------------------------

/// An input of a machine: its name and what it accepts.
#[derive(Debug)]
pub struct Slot {
    pub id: String,
    pub media: MediaUrn,
}

/// The inputs by name, in order.
pub open spec fn sorted_by_id(slots: Seq<Slot>) -> bool {
    forall|i: int, j: int|
        0 <= i < j < slots.len() ==> !less((#[trigger] slots[j]).id@, (#[trigger] slots[i]).id@)
}

/// What is not before a text that is not before another is not before that
/// either.
proof fn lemma_not_less_trans(a: Seq<char>, b: Seq<char>, c: Seq<char>)
    requires
        !less(b, a),
        !less(c, b),
    ensures
        !less(c, a),
{
    if less(c, a) {
        lemma_less_total(a, b);
        if less(a, b) {
            lemma_less_trans(c, a, b);
        }
    }
}

/// The inputs in the order of their names.
pub fn sort_slots(slots: Vec<Slot>) -> (r: Vec<Slot>)
    ensures
        r@.to_multiset() == slots@.to_multiset(),
        sorted_by_id(r@),
{
    let ghost all = slots@;
    let mut out: Vec<Slot> = Vec::new();
    assert(all.subrange(0, 0) =~= Seq::<Slot>::empty());
    for slot in it: slots.into_iter()
        invariant
            it.seq() == all,
            out@.to_multiset() == all.subrange(0, it.index() as int).to_multiset(),
            sorted_by_id(out@),
    {
        let ghost index = it.index() as int;
        assert(all.subrange(0, index + 1) =~= all.subrange(0, index).push(slot));
        let mut at: usize = out.len();
        while at > 0 && text_less(&slot.id, &out[at - 1].id)
            invariant
                at <= out@.len(),
                forall|j: int| at <= j < out@.len() ==> less(slot.id@, (#[trigger] out@[j]).id@),
            decreases at,
        {
            at = at - 1;
        }
        let ghost before = out@;
        let ghost s = slot;
        proof {
            assert forall|j: int| 0 <= j < at implies !less(
                s.id@,
                (#[trigger] before[j]).id@,
            ) by {
                if j < at - 1 {
                    lemma_not_less_trans(before[j].id@, before[at - 1].id@, s.id@);
                }
            }
            assert forall|j: int| at <= j < before.len() implies !less(
                (#[trigger] before[j]).id@,
                s.id@,
            ) by {
                lemma_less_strict(s.id@, before[j].id@);
            }
        }
        out.insert(at, slot);
        proof {
            assert(out@ =~= before.insert(at as int, s));
            vstd::seq_lib::to_multiset_insert(before, at as int, s);
            vstd::seq_lib::to_multiset_build(all.subrange(0, index), s);
        }
    }
    assert(all.subrange(0, all.len() as int) =~= all);
    out
}

/// The input, from the texts of its name and of what it accepts.
pub fn slot_of(id: &str, expected: &str) -> (r: Result<Slot, Exit>)
    ensures
        match r {
            Ok(s) => s.id@ == id@ && media_parse(expected@) == Some(s.media@),
            Err(e) => {
                &&& media_parse(expected@) is None
                &&& e.code == 1 && !e.usage
                &&& e.message@ == "input slot '"@ + id@ + "' declares an invalid media URN '"@
                    + expected@ + "': "@ + "malformed URN"@
            },
        },
{
    match MediaUrn::from_string(expected) {
        Ok(media) => Ok(Slot { id: owned(id), media }),
        Err(e) => {
            let mut m = three("input slot '", id, "' declares an invalid media URN '");
            add_text(&mut m, expected);
            add_text(&mut m, "': ");
            add_text(&mut m, &e.to_string());
            Err(exit_with(m, 1))
        },
    }
}

/// Whether a machine has several inputs: then the whole set of files is bound
/// at once.
pub fn is_multi_anchor(inputs_per_plan: &Vec<usize>) -> (r: bool)
    ensures
        r == exists|i: int| 0 <= i < inputs_per_plan@.len() && #[trigger] inputs_per_plan@[i] > 1,
{
    let mut i: usize = 0;
    while i < inputs_per_plan.len()
        invariant
            i <= inputs_per_plan@.len(),
            forall|j: int| 0 <= j < i ==> #[trigger] inputs_per_plan@[j] <= 1,
        decreases inputs_per_plan@.len() - i,
    {
        if inputs_per_plan[i] > 1 {
            return true;
        }
        i = i + 1;
    }
    false
}

// ---------------------------------------------------------------------------
// Binding files to inputs
// ---------------------------------------------------------------------------

/// The input at `i` accepts the media type.
pub open spec fn fits(slots: Seq<Slot>, media: Seq<TagView>, i: int) -> bool {
    0 <= i < slots.len() && tags_accept(slots[i].media@, media)
}

/// How much narrower the media type is than what the input at `i` asks for.
pub open spec fn distance(slots: Seq<Slot>, media: Seq<TagView>, i: int) -> int {
    tags_score(media) - tags_score(slots[i].media@)
}

/// The input at `i` accepts the media type, and none is nearer.
pub open spec fn nearest(slots: Seq<Slot>, media: Seq<TagView>, i: int) -> bool {
    &&& fits(slots, media, i)
    &&& forall|j: int| #[trigger]
        fits(slots, media, j) ==> distance(slots, media, i) <= distance(slots, media, j)
}

/// The input at `i` is the nearest, and no other is as near.
pub open spec fn bound_to(slots: Seq<Slot>, media: Seq<TagView>, i: int) -> bool {
    &&& nearest(slots, media, i)
    &&& forall|j: int| #[trigger] nearest(slots, media, j) ==> j == i
}

/// The media type is bound to one of the inputs.
pub open spec fn is_bound(slots: Seq<Slot>, media: Seq<TagView>) -> bool {
    exists|i: int| bound_to(slots, media, i)
}

/// Two inputs are equally near to the media type, and none is nearer.
pub open spec fn is_ambiguous(slots: Seq<Slot>, media: Seq<TagView>) -> bool {
    exists|i: int, j: int|
        i != j && #[trigger] nearest(slots, media, i) && #[trigger] nearest(slots, media, j)
}

/// No input accepts the media type.
pub open spec fn is_refused(slots: Seq<Slot>, media: Seq<TagView>) -> bool {
    forall|i: int| !fits(slots, media, i)
}

/// What comes of binding one file.
#[derive(Debug, Clone, Copy, PartialEq, Eq, Structural)]
pub enum Binding {
    /// The file goes to the input with this index.
    Anchor(usize),
    /// No input accepts the file.
    NoAnchor,
    /// Two inputs are equally near.
    Ambiguous,
}

/// Binds one file by its media type.
pub fn bind_file(slots: &Vec<Slot>, media: &MediaUrn) -> (r: Binding)
    ensures
        match r {
            Binding::Anchor(i) => bound_to(slots@, media@, i as int),
            Binding::NoAnchor => is_refused(slots@, media@),
            Binding::Ambiguous => is_ambiguous(slots@, media@),
        },
{
    let mut best: Option<usize> = None;
    let mut best_score: u128 = 0;
    let mut tied: bool = false;
    let ghost mut rival: int = 0;
    let mut i: usize = 0;
    while i < slots.len()
        invariant
            i <= slots@.len(),
            best is None ==> !tied && forall|j: int| 0 <= j < i ==> !fits(slots@, media@, j),
            best matches Some(b) ==> {
                &&& b < i
                &&& fits(slots@, media@, b as int)
                &&& best_score == tags_score(slots@[b as int].media@)
                &&& forall|j: int|
                    0 <= j < i && #[trigger] fits(slots@, media@, j) ==> tags_score(
                        slots@[j].media@,
                    ) <= best_score
                &&& tied ==> 0 <= rival < i && rival != b && fits(slots@, media@, rival)
                    && tags_score(slots@[rival].media@) == best_score
                &&& !tied ==> forall|j: int|
                    0 <= j < i && j != b && #[trigger] fits(slots@, media@, j) ==> tags_score(
                        slots@[j].media@,
                    ) < best_score
            },
        decreases slots@.len() - i,
    {
        if media.conforms_to(&slots[i].media) {
            let score = slots[i].media.specificity();
            match best {
                None => {
                    best = Some(i);
                    best_score = score;
                },
                Some(_) => {
                    if score > best_score {
                        best = Some(i);
                        best_score = score;
                        tied = false;
                    } else if score == best_score {
                        tied = true;
                        proof {
                            rival = i as int;
                        }
                    }
                },
            }
        }
        i = i + 1;
    }
    match best {
        None => Binding::NoAnchor,
        Some(b) => {
            assert(nearest(slots@, media@, b as int));
            if tied {
                assert(nearest(slots@, media@, rival));
                Binding::Ambiguous
            } else {
                Binding::Anchor(b)
            }
        },
    }
}

/// Why a set of files cannot be bound.
#[derive(Debug, Clone, Copy, PartialEq, Eq, Structural)]
pub enum BindError {
    /// No input accepts the file with this index.
    NoAnchor(usize),
    /// Two inputs are equally near to the file with this index.
    Ambiguous(usize),
    /// The input with this index has no file.
    Unfilled(usize),
}

/// The media types of a list.
pub open spec fn tags_of(medias: Seq<MediaUrn>) -> Seq<Seq<TagView>> {
    Seq::new(medias.len(), |i: int| medias[i]@)
}

/// Each of the first `n` files is bound to an input.
pub open spec fn all_bound(slots: Seq<Slot>, medias: Seq<Seq<TagView>>, n: int) -> bool {
    forall|f: int| 0 <= f < n ==> is_bound(slots, #[trigger] medias[f])
}

/// Each file is bound to the input that is given for it.
pub open spec fn binds(slots: Seq<Slot>, medias: Seq<Seq<TagView>>, bound: Seq<usize>) -> bool {
    &&& bound.len() == medias.len()
    &&& forall|f: int|
        0 <= f < medias.len() ==> bound_to(slots, medias[f], #[trigger] bound[f] as int)
}

/// A file is bound to an input of the name `id`.
pub open spec fn is_filled(slots: Seq<Slot>, bound: Seq<usize>, id: Seq<char>) -> bool {
    exists|f: int| 0 <= f < bound.len() && slots[#[trigger] bound[f] as int].id@ == id
}

/// Binds every file, and sees to it that every input has one. The first file
/// that cannot be bound is the one in the error; then the first input without a
/// file.
pub fn bind_files(slots: &Vec<Slot>, medias: &Vec<MediaUrn>) -> (r: Result<Vec<usize>, BindError>)
    ensures
        ({
            let ms = tags_of(medias@);
            match r {
                Ok(bound) => {
                    &&& binds(slots@, ms, bound@)
                    &&& forall|s: int|
                        0 <= s < slots@.len() ==> is_filled(
                            slots@,
                            bound@,
                            (#[trigger] slots@[s]).id@,
                        )
                },
                Err(BindError::NoAnchor(f)) => {
                    &&& f < ms.len()
                    &&& all_bound(slots@, ms, f as int)
                    &&& is_refused(slots@, ms[f as int])
                },
                Err(BindError::Ambiguous(f)) => {
                    &&& f < ms.len()
                    &&& all_bound(slots@, ms, f as int)
                    &&& is_ambiguous(slots@, ms[f as int])
                },
                Err(BindError::Unfilled(s)) => {
                    &&& s < slots@.len()
                    &&& exists|bound: Seq<usize>|
                        {
                            &&& #[trigger] binds(slots@, ms, bound)
                            &&& !is_filled(slots@, bound, slots@[s as int].id@)
                            &&& forall|t: int|
                                0 <= t < s ==> is_filled(slots@, bound, (#[trigger] slots@[t]).id@)
                        }
                },
            }
        }),
{
    let ghost ms = tags_of(medias@);
    let mut bound: Vec<usize> = Vec::new();
    let mut f: usize = 0;
    while f < medias.len()
        invariant
            f <= medias@.len(),
            ms == tags_of(medias@),
            bound@.len() == f,
            forall|g: int| 0 <= g < f ==> bound_to(slots@, ms[g], #[trigger] bound@[g] as int),
            all_bound(slots@, ms, f as int),
        decreases medias@.len() - f,
    {
        match bind_file(slots, &medias[f]) {
            Binding::Anchor(i) => {
                assert(bound_to(slots@, ms[f as int], i as int));
                bound.push(i);
            },
            Binding::NoAnchor => {
                return Err(BindError::NoAnchor(f));
            },
            Binding::Ambiguous => {
                return Err(BindError::Ambiguous(f));
            },
        }
        f = f + 1;
    }
    let mut s: usize = 0;
    while s < slots.len()
        invariant
            s <= slots@.len(),
            ms == tags_of(medias@),
            binds(slots@, ms, bound@),
            forall|t: int| 0 <= t < s ==> is_filled(slots@, bound@, (#[trigger] slots@[t]).id@),
        decreases slots@.len() - s,
    {
        if !has_file(slots, &bound, &slots[s].id) {
            assert(!is_filled(slots@, bound@, slots@[s as int].id@));
            return Err(BindError::Unfilled(s));
        }
        s = s + 1;
    }
    Ok(bound)
}

/// Whether a file is bound to an input of the name `id`.
fn has_file(slots: &Vec<Slot>, bound: &Vec<usize>, id: &str) -> (r: bool)
    requires
        forall|f: int| 0 <= f < bound@.len() ==> #[trigger] bound@[f] < slots@.len(),
    ensures
        r == is_filled(slots@, bound@, id@),
{
    let mut f: usize = 0;
    while f < bound.len()
        invariant
            f <= bound@.len(),
            forall|g: int| 0 <= g < bound@.len() ==> #[trigger] bound@[g] < slots@.len(),
            forall|g: int| 0 <= g < f ==> slots@[#[trigger] bound@[g] as int].id@ != id@,
        decreases bound@.len() - f,
    {
        if same_text(&slots[bound[f]].id, id) {
            return true;
        }
        f = f + 1;
    }
    false
}

/// The message for files that cannot be bound.
pub open spec fn bind_words(
    error: BindError,
    paths: Seq<Seq<char>>,
    medias: Seq<Seq<TagView>>,
    slots: Seq<Slot>,
) -> Seq<char> {
    match error {
        BindError::NoAnchor(f) => "'"@ + paths[f as int] + "' (detected "@ + media_text(
            medias[f as int],
        ) + ") does not conform to any input anchor of this machine"@,
        BindError::Ambiguous(f) => "'"@ + paths[f as int] + "' (detected "@ + media_text(
            medias[f as int],
        )
            + ") conforms to several input anchors at equal specificity — the binding is ambiguous"@,
        BindError::Unfilled(s) => "input anchor '"@ + slots[s as int].id@ + "' ("@ + media_text(
            slots[s as int].media@,
        )
            + ") received no file — every anchor of a multi-anchor machine needs an input"@,
    }
}

/// The end of a run whose files cannot be bound.
pub fn bind_failure(
    error: BindError,
    paths: &Vec<String>,
    medias: &Vec<MediaUrn>,
    slots: &Vec<Slot>,
) -> (r: Exit)
    requires
        paths@.len() == medias@.len(),
        match error {
            BindError::NoAnchor(f) => f < medias@.len(),
            BindError::Ambiguous(f) => f < medias@.len(),
            BindError::Unfilled(s) => s < slots@.len(),
        },
    ensures
        r@ == refusal(bind_words(error, texts(paths@), tags_of(medias@), slots@), 1),
{
    match error {
        BindError::NoAnchor(f) => {
            let mut m = three("'", &paths[f], "' (detected ");
            add_text(&mut m, &medias[f].to_string());
            add_text(&mut m, ") does not conform to any input anchor of this machine");
            exit_with(m, 1)
        },
        BindError::Ambiguous(f) => {
            let mut m = three("'", &paths[f], "' (detected ");
            add_text(&mut m, &medias[f].to_string());
            add_text(
                &mut m,
                ") conforms to several input anchors at equal specificity — the binding is ambiguous",
            );
            exit_with(m, 1)
        },
        BindError::Unfilled(s) => {
            let mut m = three("input anchor '", &slots[s].id, "' (");
            add_text(&mut m, &slots[s].media.to_string());
            add_text(
                &mut m,
                ") received no file — every anchor of a multi-anchor machine needs an input",
            );
            exit_with(m, 1)
        },
    }
}

/// The files that are bound to an input of the name `id`, in order.
pub open spec fn files_for(slots: Seq<Slot>, bound: Seq<usize>, id: Seq<char>) -> Seq<usize>
    decreases bound.len(),
{
    if bound.len() == 0 {
        Seq::empty()
    } else {
        let before = files_for(slots, bound.drop_last(), id);
        if slots[bound.last() as int].id@ == id {
            before.push((bound.len() - 1) as usize)
        } else {
            before
        }
    }
}

/// The files that are bound to an input of the name `id`, in order, and whether
/// they are handed over as a sequence: all but a single file are.
pub fn slot_input(slots: &Vec<Slot>, bound: &Vec<usize>, id: &str) -> (r: (Vec<usize>, bool))
    requires
        forall|f: int| 0 <= f < bound@.len() ==> #[trigger] bound@[f] < slots@.len(),
    ensures
        r.0@ == files_for(slots@, bound@, id@),
        r.1 == (files_for(slots@, bound@, id@).len() != 1),
{
    let mut out: Vec<usize> = Vec::new();
    let mut f: usize = 0;
    while f < bound.len()
        invariant
            f <= bound@.len(),
            forall|g: int| 0 <= g < bound@.len() ==> #[trigger] bound@[g] < slots@.len(),
            out@ == files_for(slots@, bound@.subrange(0, f as int), id@),
        decreases bound@.len() - f,
    {
        let ghost upto = bound@.subrange(0, f + 1);
        assert(upto.drop_last() =~= bound@.subrange(0, f as int));
        if same_text(&slots[bound[f]].id, id) {
            out.push(f);
        }
        f = f + 1;
    }
    assert(bound@.subrange(0, bound@.len() as int) =~= bound@);
    let several = out.len() != 1;
    (out, several)
}

/// Law: a file is bound to one input at most, and where the inputs stand in the
/// list does not matter: an input that stands elsewhere in another list of the
/// same inputs is bound to there.
pub proof fn law_binding_is_by_type(
    slots: Seq<Slot>,
    others: Seq<Slot>,
    place: spec_fn(int) -> int,
    back: spec_fn(int) -> int,
    media: Seq<TagView>,
    i: int,
)
    requires
        slots.len() == others.len(),
        forall|k: int|
            0 <= k < slots.len() ==> 0 <= #[trigger] place(k) < others.len() && back(place(k)) == k
                && others[place(k)] == slots[k],
        forall|k: int|
            0 <= k < others.len() ==> 0 <= #[trigger] back(k) < slots.len() && place(back(k)) == k,
        bound_to(slots, media, i),
    ensures
        bound_to(others, media, place(i)),
        forall|j: int| bound_to(slots, media, j) ==> j == i,
{
    assert(fits(others, media, place(i)));
    assert forall|j: int| #[trigger] fits(others, media, j) implies distance(
        others,
        media,
        place(i),
    ) <= distance(others, media, j) by {
        assert(place(back(j)) == j);
        assert(fits(slots, media, back(j)));
    }
    assert forall|j: int| #[trigger] nearest(others, media, j) implies j == place(i) by {
        let b = back(j);
        assert(place(b) == j);
        assert(fits(slots, media, b));
        assert forall|k: int| #[trigger] fits(slots, media, k) implies distance(slots, media, b)
            <= distance(slots, media, k) by {
            assert(fits(others, media, place(k)));
        }
        assert(nearest(slots, media, b));
    }
}

/// Law: an input that is bound to accepts the file.
pub proof fn law_bound_input_accepts(slots: Seq<Slot>, media: Seq<TagView>, i: int)
    requires
        bound_to(slots, media, i),
    ensures
        0 <= i < slots.len(),
        tags_accept(slots[i].media@, media),
{
}

// ---------------------------------------------------------------------------
// Files of one type
// ---------------------------------------------------------------------------

/// A media type and how many files have it.
#[derive(Debug)]
pub struct Source {
    pub media: MediaUrn,
    pub count: usize,
}

/// The media types with their counts.
pub open spec fn source_views(sources: Seq<Source>) -> Seq<(Seq<TagView>, nat)> {
    Seq::new(sources.len(), |i: int| (sources[i].media@, sources[i].count as nat))
}

/// One file more of a media type: counted with the first source of that type,
/// or a new source at the end.
pub open spec fn with_file(
    sources: Seq<(Seq<TagView>, nat)>,
    media: Seq<TagView>,
) -> Seq<(Seq<TagView>, nat)>
    decreases sources.len(),
{
    if sources.len() == 0 {
        seq![(media, 1)]
    } else if sources[0].0 == media {
        sources.update(0, (media, sources[0].1 + 1))
    } else {
        seq![sources[0]] + with_file(sources.drop_first(), media)
    }
}

/// The sources of a list of files, in the order in which their types first
/// come.
pub open spec fn grouped(medias: Seq<Seq<TagView>>) -> Seq<(Seq<TagView>, nat)>
    decreases medias.len(),
{
    if medias.len() == 0 {
        Seq::empty()
    } else {
        with_file(grouped(medias.drop_last()), medias.last())
    }
}

/// A file counts with the source at `i` if that is the first of its type.
proof fn lemma_with_file_at(sources: Seq<(Seq<TagView>, nat)>, media: Seq<TagView>, i: int)
    requires
        0 <= i < sources.len(),
        sources[i].0 == media,
        forall|j: int| 0 <= j < i ==> (#[trigger] sources[j]).0 != media,
    ensures
        with_file(sources, media) == sources.update(i, (media, sources[i].1 + 1)),
    decreases sources.len(),
{
    if i > 0 {
        assert(sources[0].0 != media);
        let rest = sources.drop_first();
        lemma_with_file_at(rest, media, i - 1);
        assert(seq![sources[0]] + rest.update(i - 1, (media, sources[i].1 + 1)) =~= sources.update(
            i,
            (media, sources[i].1 + 1),
        ));
    }
}

/// A file of a new type makes a new source.
proof fn lemma_with_file_new(sources: Seq<(Seq<TagView>, nat)>, media: Seq<TagView>)
    requires
        forall|j: int| 0 <= j < sources.len() ==> (#[trigger] sources[j]).0 != media,
    ensures
        with_file(sources, media) == sources.push((media, 1)),
    decreases sources.len(),
{
    if sources.len() > 0 {
        assert(sources[0].0 != media);
        lemma_with_file_new(sources.drop_first(), media);
        assert(seq![sources[0]] + sources.drop_first().push((media, 1)) =~= sources.push(
            (media, 1),
        ));
    } else {
        assert(sources.push((media, 1)) =~= seq![(media, 1)]);
    }
}

/// The number of files of all sources.
pub open spec fn total(sources: Seq<(Seq<TagView>, nat)>) -> nat
    decreases sources.len(),
{
    if sources.len() == 0 {
        0
    } else {
        sources[0].1 + total(sources.drop_first())
    }
}

/// One file more is one more in all, and no type comes twice by it.
proof fn lemma_with_file(sources: Seq<(Seq<TagView>, nat)>, media: Seq<TagView>)
    requires
        forall|i: int, j: int|
            0 <= i < j < sources.len() ==> (#[trigger] sources[i]).0 != (#[trigger] sources[j]).0,
    ensures
        total(with_file(sources, media)) == total(sources) + 1,
        forall|i: int, j: int|
            0 <= i < j < with_file(sources, media).len() ==> (#[trigger] with_file(
                sources,
                media,
            )[i]).0 != (#[trigger] with_file(sources, media)[j]).0,
        forall|i: int|
            0 <= i < with_file(sources, media).len() ==> (#[trigger] with_file(sources, media)[i]).0
                == media || exists|j: int|
                0 <= j < sources.len() && sources[j].0 == with_file(sources, media)[i].0,
    decreases sources.len(),
{
    reveal_with_fuel(total, 2);
    let r = with_file(sources, media);
    if sources.len() == 0 {
        assert(r.drop_first() =~= Seq::<(Seq<TagView>, nat)>::empty());
    } else if sources[0].0 == media {
        assert(r.drop_first() =~= sources.drop_first());
        assert forall|i: int| 0 <= i < r.len() implies (#[trigger] r[i]).0 == media || exists|j: int|
            0 <= j < sources.len() && sources[j].0 == r[i].0 by {
            assert(sources[i].0 == r[i].0);
        }
    } else {
        let rest = sources.drop_first();
        assert forall|i: int, j: int| 0 <= i < j < rest.len() implies (#[trigger] rest[i]).0
            != (#[trigger] rest[j]).0 by {
            assert(sources[i + 1].0 != sources[j + 1].0);
        }
        lemma_with_file(rest, media);
        let rr = with_file(rest, media);
        assert(r.drop_first() =~= rr);
        assert forall|i: int, j: int| 0 <= i < j < r.len() implies (#[trigger] r[i]).0
            != (#[trigger] r[j]).0 by {
            if i == 0 {
                assert(rr[j - 1] == r[j]);
                if rr[j - 1].0 != media {
                    let k = choose|k: int| 0 <= k < rest.len() && rest[k].0 == rr[j - 1].0;
                    assert(sources[0].0 != sources[k + 1].0);
                }
            } else {
                assert(rr[i - 1] == r[i] && rr[j - 1] == r[j]);
            }
        }
        assert forall|i: int| 0 <= i < r.len() implies (#[trigger] r[i]).0 == media || exists|j: int|
            0 <= j < sources.len() && sources[j].0 == r[i].0 by {
            if i == 0 {
                assert(sources[0].0 == r[0].0);
            } else {
                assert(rr[i - 1] == r[i]);
                if rr[i - 1].0 != media {
                    let k = choose|k: int| 0 <= k < rest.len() && rest[k].0 == rr[i - 1].0;
                    assert(sources[k + 1].0 == r[i].0);
                }
            }
        }
    }
}

/// Law: files of one type make one source, and every file is counted once.
pub proof fn law_sources_are_distinct_and_complete(medias: Seq<Seq<TagView>>)
    ensures
        total(grouped(medias)) == medias.len(),
        forall|i: int, j: int|
            0 <= i < j < grouped(medias).len() ==> (#[trigger] grouped(medias)[i]).0
                != (#[trigger] grouped(medias)[j]).0,
    decreases medias.len(),
{
    if medias.len() > 0 {
        law_sources_are_distinct_and_complete(medias.drop_last());
        lemma_with_file(grouped(medias.drop_last()), medias.last());
    }
}

/// A source is at most as large as all sources together.
proof fn lemma_total_bound(sources: Seq<(Seq<TagView>, nat)>, i: int)
    requires
        0 <= i < sources.len(),
    ensures
        sources[i].1 <= total(sources),
    decreases sources.len(),
{
    if i > 0 {
        lemma_total_bound(sources.drop_first(), i - 1);
    }
}

/// Groups files by their media type: files of one type are one source.
pub fn group_files(medias: &Vec<MediaUrn>) -> (r: Vec<Source>)
    ensures
        source_views(r@) == grouped(tags_of(medias@)),
{
    let ghost ms = tags_of(medias@);
    let mut out: Vec<Source> = Vec::new();
    let mut f: usize = 0;
    assert(source_views(out@) =~= grouped(ms.subrange(0, 0)));
    while f < medias.len()
        invariant
            f <= medias@.len(),
            ms == tags_of(medias@),
            source_views(out@) == grouped(ms.subrange(0, f as int)),
        decreases medias@.len() - f,
    {
        let ghost upto = ms.subrange(0, f + 1);
        assert(upto.drop_last() =~= ms.subrange(0, f as int));
        let ghost before = source_views(out@);
        let media = &medias[f];
        let mut i: usize = 0;
        while i < out.len() && !out[i].media.is_equivalent(media)
            invariant
                i <= out@.len(),
                before == source_views(out@),
                forall|j: int| 0 <= j < i ==> (#[trigger] before[j]).0 != media@,
            decreases out@.len() - i,
        {
            i = i + 1;
        }
        if i < out.len() {
            proof {
                assert(before[i as int].0 == media@);
                lemma_with_file_at(before, media@, i as int);
                law_sources_are_distinct_and_complete(ms.subrange(0, f as int));
                lemma_total_bound(before, i as int);
            }
            let count = out[i].count + 1;
            let source = Source { media: media.copied(), count };
            out.set(i, source);
            assert(source_views(out@) =~= before.update(i as int, (media@, before[i as int].1 + 1)));
        } else {
            proof {
                lemma_with_file_new(before, media@);
            }
            out.push(Source { media: media.copied(), count: 1 });
            assert(source_views(out@) =~= before.push((media@, 1)));
        }
        f = f + 1;
    }
    assert(ms.subrange(0, ms.len() as int) =~= ms);
    out
}

// ---------------------------------------------------------------------------
// Names of inputs
// ---------------------------------------------------------------------------

/// The inputs of a strand by number, and the names that were written.
#[derive(Debug)]
pub struct StrandNames {
    pub anchors: Vec<u32>,
    pub names: Vec<(String, u32)>,
}

/// The name that was last written for a number.
pub open spec fn written_name(names: Seq<(String, u32)>, id: u32) -> Option<Seq<char>>
    decreases names.len(),
{
    if names.len() == 0 {
        None
    } else if names.last().1 == id {
        Some(names.last().0@)
    } else {
        written_name(names.drop_last(), id)
    }
}

/// The list with a name at its end, unless it holds it or there is none.
pub open spec fn with_name(found: Seq<Seq<char>>, name: Option<Seq<char>>) -> Seq<Seq<char>> {
    match name {
        Some(n) => if found.contains(n) {
            found
        } else {
            found.push(n)
        },
        None => found,
    }
}

/// The list with the names of a strand's inputs.
pub open spec fn with_strand(
    found: Seq<Seq<char>>,
    anchors: Seq<u32>,
    names: Seq<(String, u32)>,
) -> Seq<Seq<char>>
    decreases anchors.len(),
{
    if anchors.len() == 0 {
        found
    } else {
        with_name(
            with_strand(found, anchors.drop_last(), names),
            written_name(names, anchors.last()),
        )
    }
}

/// The names of all inputs, each once, in the order in which they come.
pub open spec fn input_names(strands: Seq<StrandNames>) -> Seq<Seq<char>>
    decreases strands.len(),
{
    if strands.len() == 0 {
        Seq::empty()
    } else {
        with_strand(
            input_names(strands.drop_last()),
            strands.last().anchors@,
            strands.last().names@,
        )
    }
}

/// The name that was last written for a number.
fn find_written_name(names: &Vec<(String, u32)>, id: u32) -> (r: Option<String>)
    ensures
        opt_text(r) == written_name(names@, id),
{
    let mut i: usize = names.len();
    assert(names@.subrange(0, names@.len() as int) =~= names@);
    while i > 0
        invariant
            i <= names@.len(),
            written_name(names@.subrange(0, i as int), id) == written_name(names@, id),
        decreases i,
    {
        let ghost upto = names@.subrange(0, i as int);
        assert(upto.drop_last() =~= names@.subrange(0, i - 1));
        i = i - 1;
        if names[i].1 == id {
            return Some(names[i].0.clone());
        }
    }
    None
}

/// The names of all inputs of a machine, each once.
pub fn find_input_nodes(strands: &Vec<StrandNames>) -> (r: Vec<String>)
    ensures
        texts(r@) == input_names(strands@),
{
    let mut out: Vec<String> = Vec::new();
    let mut s: usize = 0;
    assert(texts(out@) =~= input_names(strands@.subrange(0, 0)));
    while s < strands.len()
        invariant
            s <= strands@.len(),
            texts(out@) == input_names(strands@.subrange(0, s as int)),
        decreases strands@.len() - s,
    {
        let ghost upto = strands@.subrange(0, s + 1);
        assert(upto.drop_last() =~= strands@.subrange(0, s as int));
        let ghost before = texts(out@);
        let anchors = &strands[s].anchors;
        let names = &strands[s].names;
        let mut k: usize = 0;
        assert(anchors@.subrange(0, 0) =~= Seq::<u32>::empty());
        while k < anchors.len()
            invariant
                k <= anchors@.len(),
                texts(out@) == with_strand(before, anchors@.subrange(0, k as int), names@),
            decreases anchors@.len() - k,
        {
            let ghost here = anchors@.subrange(0, k + 1);
            assert(here.drop_last() =~= anchors@.subrange(0, k as int));
            let ghost so_far = texts(out@);
            match find_written_name(names, anchors[k]) {
                Some(name) => {
                    if !has_text(&out, &name) {
                        let ghost n = name@;
                        out.push(name);
                        assert(texts(out@) =~= so_far.push(n));
                    }
                },
                None => {},
            }
            k = k + 1;
        }
        assert(anchors@.subrange(0, anchors@.len() as int) =~= anchors@);
        s = s + 1;
    }
    assert(strands@.subrange(0, strands@.len() as int) =~= strands@);
    out
}

/// A name that is added is not there before.
proof fn lemma_with_strand_distinct(
    found: Seq<Seq<char>>,
    anchors: Seq<u32>,
    names: Seq<(String, u32)>,
)
    requires
        found.no_duplicates(),
    ensures
        with_strand(found, anchors, names).no_duplicates(),
    decreases anchors.len(),
{
    if anchors.len() > 0 {
        lemma_with_strand_distinct(found, anchors.drop_last(), names);
    }
}

/// Law: no input is named twice.
pub proof fn law_input_names_are_distinct(strands: Seq<StrandNames>)
    ensures
        input_names(strands).no_duplicates(),
    decreases strands.len(),
{
    if strands.len() > 0 {
        law_input_names_are_distinct(strands.drop_last());
        lemma_with_strand_distinct(
            input_names(strands.drop_last()),
            strands.last().anchors@,
            strands.last().names@,
        );
    }
}

// ---------------------------------------------------------------------------
// Results
// ---------------------------------------------------------------------------

/// Where results are written, whether over others, and under what name.
#[derive(Debug, PartialEq, Eq)]
pub struct EmitOptions {
    /// The folder; without one a single result may go to standard output.
    pub output_dir: Option<String>,
    pub force: bool,
    pub input_stem: String,
}

/// The folder for results. Several results never share standard output: then
/// there is a folder, the current one if none was named.
pub open spec fn results_dir(output_dir: Option<Seq<char>>, several: bool) -> Option<Seq<char>> {
    match output_dir {
        Some(d) => Some(d),
        None => if several {
            Some("."@)
        } else {
            None
        },
    }
}

/// The folder for results.
fn effective_dir(output_dir: &Option<String>, several: bool) -> (r: Option<String>)
    ensures
        opt_text(r) == results_dir(opt_text(*output_dir), several),
{
    match output_dir {
        Some(d) => Some(d.clone()),
        None => {
            if several {
                Some(owned("."))
            } else {
                None
            }
        },
    }
}

/// The name of a strand's results: the stem, with the strand's number where
/// there are several.
pub open spec fn strand_stem(stem: Seq<char>, strands: nat, index: nat) -> Seq<char> {
    if strands > 1 {
        stem + ".strand"@ + decimal(index)
    } else {
        stem
    }
}

/// The name of a strand's results.
fn name_strand(stem: String, strands: usize, index: usize) -> (r: String)
    ensures
        r@ == strand_stem(stem@, strands as nat, index as nat),
{
    if strands > 1 {
        let mut out = stem;
        add_text(&mut out, ".strand");
        add_text(&mut out, &decimal_text(index as u64));
        out
    } else {
        stem
    }
}

/// How the results of a strand are written when the whole set of files was
/// bound at once: always into a folder, and named after the first file.
pub fn emit_combined(
    first_file: &str,
    output_dir: &Option<String>,
    force: bool,
    strands: usize,
    index: usize,
) -> (r: EmitOptions)
    ensures
        opt_text(r.output_dir) == results_dir(opt_text(*output_dir), true),
        r.force == force,
        r.input_stem@ == strand_stem(
            input_stem_of(first_file@) + ".combined"@,
            strands as nat,
            index as nat,
        ),
{
    let mut stem = input_stem(first_file);
    add_text(&mut stem, ".combined");
    EmitOptions {
        output_dir: effective_dir(output_dir, true),
        force,
        input_stem: name_strand(stem, strands, index),
    }
}

/// How the results of a strand are written for one of a number of files that
/// are run one by one.
pub fn emit_each(
    file: &str,
    output_dir: &Option<String>,
    force: bool,
    strands: usize,
    files: usize,
    index: usize,
) -> (r: EmitOptions)
    ensures
        opt_text(r.output_dir) == results_dir(opt_text(*output_dir), strands > 1 || files > 1),
        r.force == force,
        r.input_stem@ == strand_stem(input_stem_of(file@), strands as nat, index as nat),
{
    EmitOptions {
        output_dir: effective_dir(output_dir, strands > 1 || files > 1),
        force,
        input_stem: name_strand(input_stem(file), strands, index),
    }
}

/// How the results of a single cap are written for one of a number of runs.
pub fn emit_cap(stem: &str, output_dir: &Option<String>, force: bool, runs: usize) -> (r:
    EmitOptions)
    ensures
        opt_text(r.output_dir) == results_dir(opt_text(*output_dir), runs > 1),
        r.force == force,
        r.input_stem@ == stem@,
{
    EmitOptions {
        output_dir: effective_dir(output_dir, runs > 1),
        force,
        input_stem: owned(stem),
    }
}

/// Law: where several results are to be written, none goes to standard output:
/// they go to the folder that was named, else to the current one.
pub proof fn law_several_results_have_a_folder(output_dir: Option<Seq<char>>)
    ensures
        results_dir(output_dir, true) is Some,
        results_dir(output_dir, false) == output_dir,
        output_dir is Some ==> forall|several: bool|
            #[trigger] results_dir(output_dir, several) == output_dir,
        output_dir is None ==> results_dir(output_dir, true) == Some("."@),
{
}

/// Law: a file goes to an input exactly where that input accepts it and asks for
/// more than every other that does. It is refused exactly where no input accepts
/// it, and ambiguous exactly where two accept it that ask for equally much and
/// none asks for more.
pub proof fn law_narrowest_input_wins(slots: Seq<Slot>, media: Seq<TagView>, i: int)
    requires
        0 <= i < slots.len(),
    ensures
        bound_to(slots, media, i) <==> {
            &&& tags_accept(slots[i].media@, media)
            &&& forall|j: int|
                0 <= j < slots.len() && j != i && tags_accept(
                    (#[trigger] slots[j]).media@,
                    media,
                ) ==> tags_score(slots[j].media@) < tags_score(slots[i].media@)
        },
        is_refused(slots, media) <==> forall|j: int|
            0 <= j < slots.len() ==> !tags_accept((#[trigger] slots[j]).media@, media),
        is_ambiguous(slots, media) <==> exists|a: int, b: int|
            {
                &&& 0 <= a < slots.len() && 0 <= b < slots.len() && a != b
                &&& tags_accept((#[trigger] slots[a]).media@, media)
                &&& tags_accept((#[trigger] slots[b]).media@, media)
                &&& tags_score(slots[a].media@) == tags_score(slots[b].media@)
                &&& forall|j: int|
                    0 <= j < slots.len() && tags_accept((#[trigger] slots[j]).media@, media)
                        ==> tags_score(slots[j].media@) <= tags_score(slots[a].media@)
            },
{
    let wins = tags_accept(slots[i].media@, media) && forall|j: int|
        0 <= j < slots.len() && j != i && tags_accept((#[trigger] slots[j]).media@, media)
            ==> tags_score(slots[j].media@) < tags_score(slots[i].media@);
    if wins {
        assert(fits(slots, media, i));
        assert forall|j: int| #[trigger] fits(slots, media, j) implies distance(slots, media, i)
            <= distance(slots, media, j) by {
            if j != i {
                assert(tags_accept(slots[j].media@, media));
            }
        }
        assert(nearest(slots, media, i));
        assert forall|j: int| #[trigger] nearest(slots, media, j) implies j == i by {
            if j != i {
                assert(fits(slots, media, i));
                assert(tags_accept(slots[j].media@, media));
            }
        }
    }
    if bound_to(slots, media, i) {
        assert forall|j: int|
            0 <= j < slots.len() && j != i && tags_accept(
                (#[trigger] slots[j]).media@,
                media,
            ) implies tags_score(slots[j].media@) < tags_score(slots[i].media@) by {
            assert(fits(slots, media, j));
            if tags_score(slots[j].media@) >= tags_score(slots[i].media@) {
                assert forall|k: int| #[trigger] fits(slots, media, k) implies distance(
                    slots,
                    media,
                    j,
                ) <= distance(slots, media, k) by {
                    assert(distance(slots, media, i) <= distance(slots, media, k));
                }
                assert(nearest(slots, media, j));
            }
        }
    }
    if is_refused(slots, media) {
        assert forall|j: int| 0 <= j < slots.len() implies !tags_accept(
            (#[trigger] slots[j]).media@,
            media,
        ) by {
            assert(!fits(slots, media, j));
        }
    }
    if is_ambiguous(slots, media) {
        let (a, b) = choose|a: int, b: int|
            a != b && #[trigger] nearest(slots, media, a) && #[trigger] nearest(slots, media, b);
        assert(fits(slots, media, a) && fits(slots, media, b));
        assert(slots[a] == slots[a] && slots[b] == slots[b]);
        assert forall|j: int|
            0 <= j < slots.len() && tags_accept(
                (#[trigger] slots[j]).media@,
                media,
            ) implies tags_score(slots[j].media@) <= tags_score(slots[a].media@) by {
            assert(fits(slots, media, j));
        }
    }
    if exists|a: int, b: int|
        {
            &&& 0 <= a < slots.len() && 0 <= b < slots.len() && a != b
            &&& tags_accept((#[trigger] slots[a]).media@, media)
            &&& tags_accept((#[trigger] slots[b]).media@, media)
            &&& tags_score(slots[a].media@) == tags_score(slots[b].media@)
            &&& forall|j: int|
                0 <= j < slots.len() && tags_accept((#[trigger] slots[j]).media@, media)
                    ==> tags_score(slots[j].media@) <= tags_score(slots[a].media@)
        } {
        let (a, b) = choose|a: int, b: int|
            {
                &&& 0 <= a < slots.len() && 0 <= b < slots.len() && a != b
                &&& tags_accept((#[trigger] slots[a]).media@, media)
                &&& tags_accept((#[trigger] slots[b]).media@, media)
                &&& tags_score(slots[a].media@) == tags_score(slots[b].media@)
                &&& forall|j: int|
                    0 <= j < slots.len() && tags_accept((#[trigger] slots[j]).media@, media)
                        ==> tags_score(slots[j].media@) <= tags_score(slots[a].media@)
            };
        assert(fits(slots, media, a) && fits(slots, media, b));
        assert forall|j: int| #[trigger] fits(slots, media, j) implies distance(slots, media, a)
            <= distance(slots, media, j) by {
            assert(tags_accept(slots[j].media@, media));
        }
        assert(nearest(slots, media, a) && nearest(slots, media, b));
    }
}

/// Law: an input is handed exactly the files that are bound to an input of its
/// name, in the order of the files.
pub proof fn law_input_gets_its_files(slots: Seq<Slot>, bound: Seq<usize>, id: Seq<char>)
    requires
        bound.len() <= usize::MAX,
    ensures
        forall|f: usize|
            #[trigger] files_for(slots, bound, id).contains(f) <==> f < bound.len()
                && slots[bound[f as int] as int].id@ == id,
        forall|a: int, b: int|
            0 <= a < b < files_for(slots, bound, id).len() ==> files_for(slots, bound, id)[a]
                < files_for(slots, bound, id)[b],
    decreases bound.len(),
{
    if bound.len() > 0 {
        let rest = bound.drop_last();
        law_input_gets_its_files(slots, rest, id);
        let before = files_for(slots, rest, id);
        let all = files_for(slots, bound, id);
        let last = (bound.len() - 1) as usize;
        assert forall|k: int| 0 <= k < before.len() implies before[k] < last by {
            assert(before.contains(before[k]));
        }
        assert forall|f: usize| #[trigger] all.contains(f) <==> f < bound.len()
            && slots[bound[f as int] as int].id@ == id by {
            if all.contains(f) {
                let k = all.index_of(f);
                if k < before.len() {
                    assert(before[k] == f);
                    assert(before.contains(f));
                    assert(rest[f as int] == bound[f as int]);
                }
            }
            if f < bound.len() && slots[bound[f as int] as int].id@ == id {
                if f < last {
                    assert(rest[f as int] == bound[f as int]);
                    assert(before.contains(f));
                    let k = before.index_of(f);
                    assert(all[k] == f);
                } else {
                    assert(all[all.len() - 1] == f);
                }
            }
        }
    }
}

/// How many of the files are of this type.
pub open spec fn count_of_type(medias: Seq<Seq<TagView>>, media: Seq<TagView>) -> nat
    decreases medias.len(),
{
    if medias.len() == 0 {
        0
    } else {
        count_of_type(medias.drop_last(), media) + (if medias.last() == media {
            1nat
        } else {
            0
        })
    }
}

/// How many files the sources count for a type.
spec fn counted_for(sources: Seq<(Seq<TagView>, nat)>, media: Seq<TagView>) -> nat
    decreases sources.len(),
{
    if sources.len() == 0 {
        0
    } else {
        (if sources[0].0 == media {
            sources[0].1
        } else {
            0
        }) + counted_for(sources.drop_first(), media)
    }
}

proof fn lemma_counted_with_file(
    sources: Seq<(Seq<TagView>, nat)>,
    added: Seq<TagView>,
    media: Seq<TagView>,
)
    ensures
        counted_for(with_file(sources, added), media) == counted_for(sources, media) + (if added
            == media {
            1nat
        } else {
            0
        }),
    decreases sources.len(),
{
    reveal_with_fuel(counted_for, 2);
    let r = with_file(sources, added);
    if sources.len() == 0 {
        assert(r.drop_first() =~= Seq::<(Seq<TagView>, nat)>::empty());
    } else if sources[0].0 == added {
        assert(r.drop_first() =~= sources.drop_first());
    } else {
        lemma_counted_with_file(sources.drop_first(), added, media);
        assert(r.drop_first() =~= with_file(sources.drop_first(), added));
    }
}

proof fn lemma_counted_at(sources: Seq<(Seq<TagView>, nat)>, i: int)
    requires
        0 <= i < sources.len(),
        forall|i: int, j: int|
            0 <= i < j < sources.len() ==> (#[trigger] sources[i]).0 != (#[trigger] sources[j]).0,
    ensures
        counted_for(sources, sources[i].0) == sources[i].1,
    decreases sources.len(),
{
    let rest = sources.drop_first();
    assert forall|a: int, b: int| 0 <= a < b < rest.len() implies (#[trigger] rest[a]).0 != (
    #[trigger] rest[b]).0 by {
        assert(rest[a] == sources[a + 1] && rest[b] == sources[b + 1]);
    }
    if i == 0 {
        assert forall|k: int| 0 <= k < rest.len() implies (#[trigger] rest[k]).0
            != sources[0].0 by {
            assert(rest[k] == sources[k + 1]);
        }
        lemma_counted_none(rest, sources[0].0);
    } else {
        assert(rest[i - 1] == sources[i]);
        assert(sources[0].0 != sources[i].0);
        lemma_counted_at(rest, i - 1);
    }
}

proof fn lemma_counted_none(sources: Seq<(Seq<TagView>, nat)>, media: Seq<TagView>)
    requires
        forall|k: int| 0 <= k < sources.len() ==> (#[trigger] sources[k]).0 != media,
    ensures
        counted_for(sources, media) == 0,
    decreases sources.len(),
{
    if sources.len() > 0 {
        let rest = sources.drop_first();
        assert forall|k: int| 0 <= k < rest.len() implies (#[trigger] rest[k]).0 != media by {
            assert(rest[k] == sources[k + 1]);
        }
        lemma_counted_none(rest, media);
    }
}

proof fn lemma_grouped_counts(medias: Seq<Seq<TagView>>, media: Seq<TagView>)
    ensures
        counted_for(grouped(medias), media) == count_of_type(medias, media),
    decreases medias.len(),
{
    if medias.len() > 0 {
        lemma_grouped_counts(medias.drop_last(), media);
        lemma_counted_with_file(grouped(medias.drop_last()), medias.last(), media);
    }
}

/// Law: each source counts the files of its type.
pub proof fn law_source_counts_its_files(medias: Seq<Seq<TagView>>, i: int)
    requires
        0 <= i < grouped(medias).len(),
    ensures
        grouped(medias)[i].1 == count_of_type(medias, grouped(medias)[i].0),
{
    law_sources_are_distinct_and_complete(medias);
    lemma_counted_at(grouped(medias), i);
    lemma_grouped_counts(medias, grouped(medias)[i].0);
}

/// The name was the last to be written for one of the anchors of the strand.
pub open spec fn names_anchor(strand: StrandNames, name: Seq<char>) -> bool {
    exists|k: int, n: int|
        {
            &&& 0 <= k < strand.anchors@.len()
            &&& 0 <= n < strand.names@.len()
            &&& (#[trigger] strand.names@[n]).1 == #[trigger] strand.anchors@[k]
            &&& strand.names@[n].0@ == name
            &&& forall|m: int|
                n < m < strand.names@.len() ==> (#[trigger] strand.names@[m]).1
                    != strand.anchors@[k]
        }
}

proof fn lemma_written_name(names: Seq<(String, u32)>, id: u32)
    ensures
        match written_name(names, id) {
            None => forall|n: int| 0 <= n < names.len() ==> (#[trigger] names[n]).1 != id,
            Some(name) => exists|n: int|
                {
                    &&& 0 <= n < names.len()
                    &&& (#[trigger] names[n]).1 == id
                    &&& names[n].0@ == name
                    &&& forall|m: int| n < m < names.len() ==> (#[trigger] names[m]).1 != id
                },
        },
    decreases names.len(),
{
    if names.len() > 0 {
        let rest = names.drop_last();
        assert(names[names.len() - 1] == names.last());
        if names.last().1 != id {
            lemma_written_name(rest, id);
            match written_name(rest, id) {
                None => {
                    assert forall|n: int| 0 <= n < names.len() implies (#[trigger] names[n]).1
                        != id by {
                        if n < rest.len() {
                            assert(rest[n] == names[n]);
                        }
                    }
                },
                Some(name) => {
                    let n = choose|n: int|
                        {
                            &&& 0 <= n < rest.len()
                            &&& (#[trigger] rest[n]).1 == id
                            &&& rest[n].0@ == name
                            &&& forall|m: int|
                                n < m < rest.len() ==> (#[trigger] rest[m]).1 != id
                        };
                    assert(names[n] == rest[n]);
                    assert forall|m: int| n < m < names.len() implies (#[trigger] names[m]).1
                        != id by {
                        if m < rest.len() {
                            assert(rest[m] == names[m]);
                        }
                    }
                },
            }
        }
    }
}

proof fn lemma_with_strand(
    found: Seq<Seq<char>>,
    anchors: Seq<u32>,
    names: Seq<(String, u32)>,
    name: Seq<char>,
)
    ensures
        with_strand(found, anchors, names).contains(name) <==> found.contains(name) || exists|
            k: int,
        |
            0 <= k < anchors.len() && written_name(names, #[trigger] anchors[k]) == Some(name),
    decreases anchors.len(),
{
    if anchors.len() > 0 {
        let rest = anchors.drop_last();
        lemma_with_strand(found, rest, names, name);
        let before = with_strand(found, rest, names);
        let all = with_strand(found, anchors, names);
        let last = written_name(names, anchors.last());
        assert(anchors[anchors.len() - 1] == anchors.last());
        if before.contains(name) {
            let k = before.index_of(name);
            assert(all[k] == name);
        }
        if all.contains(name) && !before.contains(name) {
            let k = all.index_of(name);
            if k < before.len() {
                assert(before[k] == name);
            }
            assert(last == Some(name));
        }
        if last == Some(name) && !before.contains(name) {
            assert(all[all.len() - 1] == name);
        }
        if exists|k: int|
            0 <= k < anchors.len() && written_name(names, #[trigger] anchors[k]) == Some(name) {
            let k = choose|k: int|
                0 <= k < anchors.len() && written_name(names, #[trigger] anchors[k]) == Some(name);
            if k < rest.len() {
                assert(rest[k] == anchors[k]);
            }
        }
        if exists|k: int|
            0 <= k < rest.len() && written_name(names, #[trigger] rest[k]) == Some(name) {
            let k = choose|k: int|
                0 <= k < rest.len() && written_name(names, #[trigger] rest[k]) == Some(name);
            assert(anchors[k] == rest[k]);
        }
    }
}

/// Law: the inputs of a machine are named by what was last written for each of
/// their numbers, and by nothing else.
pub proof fn law_inputs_have_their_written_names(strands: Seq<StrandNames>, name: Seq<char>)
    ensures
        input_names(strands).contains(name) <==> exists|s: int|
            0 <= s < strands.len() && #[trigger] names_anchor(strands[s], name),
    decreases strands.len(),
{
    if strands.len() > 0 {
        let rest = strands.drop_last();
        let last = strands.last();
        law_inputs_have_their_written_names(rest, name);
        lemma_with_strand(input_names(rest), last.anchors@, last.names@, name);
        assert(strands[strands.len() - 1] == last);
        if exists|k: int|
            0 <= k < last.anchors@.len() && written_name(
                last.names@,
                #[trigger] last.anchors@[k],
            ) == Some(name) {
            let k = choose|k: int|
                0 <= k < last.anchors@.len() && written_name(
                    last.names@,
                    #[trigger] last.anchors@[k],
                ) == Some(name);
            lemma_written_name(last.names@, last.anchors@[k]);
            assert(names_anchor(last, name));
            assert(names_anchor(strands[strands.len() - 1], name));
        }
        if names_anchor(last, name) {
            let (k, n) = choose|k: int, n: int|
                {
                    &&& 0 <= k < last.anchors@.len()
                    &&& 0 <= n < last.names@.len()
                    &&& (#[trigger] last.names@[n]).1 == #[trigger] last.anchors@[k]
                    &&& last.names@[n].0@ == name
                    &&& forall|m: int|
                        n < m < last.names@.len() ==> (#[trigger] last.names@[m]).1
                            != last.anchors@[k]
                };
            lemma_written_name(last.names@, last.anchors@[k]);
            let found = written_name(last.names@, last.anchors@[k]);
            assert(found is Some);
            let m = choose|m: int|
                {
                    &&& 0 <= m < last.names@.len()
                    &&& (#[trigger] last.names@[m]).1 == last.anchors@[k]
                    &&& last.names@[m].0@ == found->0
                    &&& forall|q: int|
                        m < q < last.names@.len() ==> (#[trigger] last.names@[q]).1
                            != last.anchors@[k]
                };
            assert(m == n);
        }
        if exists|s: int| 0 <= s < rest.len() && #[trigger] names_anchor(rest[s], name) {
            let s = choose|s: int| 0 <= s < rest.len() && #[trigger] names_anchor(rest[s], name);
            assert(names_anchor(strands[s], name));
        }
        if exists|s: int| 0 <= s < strands.len() && #[trigger] names_anchor(strands[s], name) {
            let s = choose|s: int|
                0 <= s < strands.len() && #[trigger] names_anchor(strands[s], name);
            if s < rest.len() {
                assert(names_anchor(rest[s], name));
            }
        }
    }
}

/// Law: the results of two strands of one run are named differently; those of
/// the only strand are named after the input alone.
pub proof fn law_strand_results_have_names_of_their_own(
    stem: Seq<char>,
    strands: nat,
    a: nat,
    b: nat,
)
    requires
        a != b,
    ensures
        strands > 1 ==> strand_stem(stem, strands, a) != strand_stem(stem, strands, b),
        strands > 1 ==> begins(strand_stem(stem, strands, a), stem),
        strands <= 1 ==> strand_stem(stem, strands, a) == stem,
{
    if strands > 1 {
        let head = stem + ".strand"@;
        let x = strand_stem(stem, strands, a);
        let y = strand_stem(stem, strands, b);
        assert(x.subrange(head.len() as int, x.len() as int) =~= decimal(a));
        assert(y.subrange(head.len() as int, y.len() as int) =~= decimal(b));
        assert(x.subrange(0, stem.len() as int) =~= stem);
        if x == y {
            lemma_decimal_injective(a, b);
        }
    }
}

/// Law: a folder is no content, nor is a file that is hidden, nor one that is
/// passed over by its extension in whatever case; any other file with a name is.
pub proof fn law_content_is_told_by_name(path: Seq<char>, is_dir: bool, name: Seq<char>)
    requires
        name_of(path) == Some(name),
    ensures
        is_dir ==> !is_content(path, is_dir),
        begins(name, "."@) ==> !is_content(path, is_dir),
        extension_of(name) is Some && is_skipped_extension(lowercase(extension_of(name)->0))
            ==> !is_content(path, is_dir),
        !is_dir && !begins(name, "."@) && name != "Thumbs.db"@ && (extension_of(name) is None
            || !is_skipped_extension(lowercase(extension_of(name)->0))) ==> is_content(
            path,
            is_dir,
        ),
{
    reveal_strlit(".");
    reveal_strlit(".DS_Store");
    reveal_strlit(".gitignore");
    reveal_strlit(".gitkeep");
    assert(".DS_Store"@.subrange(0, 1) =~= "."@);
    assert(".gitignore"@.subrange(0, 1) =~= "."@);
    assert(".gitkeep"@.subrange(0, 1) =~= "."@);
}

proof fn lemma_names_before(found: Seq<Seq<char>>, anchors: Seq<u32>, names: Seq<(String, u32)>)
    ensures
        found.is_prefix_of(with_strand(found, anchors, names)),
    decreases anchors.len(),
{
    if anchors.len() > 0 {
        let before = with_strand(found, anchors.drop_last(), names);
        let after = with_strand(found, anchors, names);
        lemma_names_before(found, anchors.drop_last(), names);
        assert(after.subrange(0, before.len() as int) =~= before);
        assert forall|i: int| 0 <= i < found.len() implies found[i] == after[i] by {
            assert(before[i] == after[i]);
        }
        assert(after.subrange(0, found.len() as int) =~= found);
    }
}

/// Law: the inputs are listed in the order in which the strands name them: what
/// an earlier strand names, and what stands earlier among the inputs of one,
/// comes first.
pub proof fn law_inputs_are_listed_in_order(
    strands: Seq<StrandNames>,
    found: Seq<Seq<char>>,
    anchors: Seq<u32>,
    more: u32,
    names: Seq<(String, u32)>,
)
    ensures
        strands.len() > 0 ==> input_names(strands.drop_last()).is_prefix_of(input_names(strands)),
        with_strand(found, anchors, names).is_prefix_of(
            with_strand(found, anchors.push(more), names),
        ),
{
    if strands.len() > 0 {
        lemma_names_before(
            input_names(strands.drop_last()),
            strands.last().anchors@,
            strands.last().names@,
        );
    }
    let before = with_strand(found, anchors, names);
    assert(anchors.push(more).drop_last() =~= anchors);
    let after = with_strand(found, anchors.push(more), names);
    assert(after.subrange(0, before.len() as int) =~= before);
}

} // verus!
