//! Paths as texts with slashes: joining, and the last part of a path with its
//! stem and extension.

use crate::text::{
    add_text, begins, begins_with, chars_of, ends, ends_with, owned, pieces, same_text,
    split_at_char, text_between, texts,
};
use vstd::prelude::*;

verus! {

broadcast use vstd::string::group_string_axioms;

/// `part` below `base`. A part that starts at the root stands for itself.
pub open spec fn below(base: Seq<char>, part: Seq<char>) -> Seq<char> {
    if begins(part, "/"@) || base.len() == 0 {
        part
    } else if ends(base, "/"@) {
        base + part
    } else {
        base + "/"@ + part
    }
}

/// `part` below `base`.
pub fn path_join(base: &str, part: &str) -> (r: String)
    ensures
        r@ == below(base@, part@),
{
    if begins_with(part, "/") || chars_of(base).len() == 0 {
        return owned(part);
    }
    let mut out = owned(base);
    if !ends_with(base, "/") {
        add_text(&mut out, "/");
    }
    add_text(&mut out, part);
    out
}

/// The last of the pieces that name something: neither empty nor a single dot.
pub open spec fn last_named(parts: Seq<Seq<char>>) -> Option<Seq<char>>
    decreases parts.len(),
{
    if parts.len() == 0 {
        None
    } else if parts.last() != ""@ && parts.last() != "."@ {
        Some(parts.last())
    } else {
        last_named(parts.drop_last())
    }
}

/// The last part of a path, unless the path ends at the root or goes up.
pub open spec fn name_of(path: Seq<char>) -> Option<Seq<char>> {
    match last_named(pieces(path, '/')) {
        Some(n) if n != ".."@ => Some(n),
        _ => None,
    }
}

/// The last part of a path.
pub fn file_name(path: &str) -> (r: Option<String>)
    ensures
        match r {
            Some(n) => name_of(path@) == Some(n@),
            None => name_of(path@) is None,
        },
{
    let mut parts = split_at_char(path, '/');
    while parts.len() > 0
        invariant
            last_named(texts(parts@)) == last_named(pieces(path@, '/')),
        decreases parts@.len(),
    {
        let ghost before = texts(parts@);
        let part = parts.pop().unwrap();
        assert(texts(parts@) =~= before.drop_last());
        assert(before.last() == part@);
        if !same_text(&part, "") && !same_text(&part, ".") {
            if same_text(&part, "..") {
                return None;
            }
            return Some(part);
        }
    }
    None
}

/// Where the last dot of a name stands.
pub open spec fn last_dot(name: Seq<char>) -> Option<int>
    decreases name.len(),
{
    if name.len() == 0 {
        None
    } else if name.last() == '.' {
        Some(name.len() - 1)
    } else {
        last_dot(name.drop_last())
    }
}

/// The name without its extension: what stands before its last dot, unless
/// nothing does.
pub open spec fn stem_of(name: Seq<char>) -> Seq<char> {
    match last_dot(name) {
        Some(d) if d > 0 => name.subrange(0, d),
        _ => name,
    }
}

/// The extension of a name: what stands after its last dot, where something
/// stands before it.
pub open spec fn extension_of(name: Seq<char>) -> Option<Seq<char>> {
    match last_dot(name) {
        Some(d) if d > 0 => Some(name.subrange(d + 1, name.len() as int)),
        _ => None,
    }
}

/// A dot stands where the last dot stands.
proof fn lemma_last_dot(name: Seq<char>)
    ensures
        last_dot(name) matches Some(d) ==> 0 <= d < name.len() && name[d] == '.',
    decreases name.len(),
{
    if name.len() > 0 {
        lemma_last_dot(name.drop_last());
    }
}

/// A name's stem and extension.
pub fn split_name(name: &str) -> (r: (String, Option<String>))
    ensures
        r.0@ == stem_of(name@),
        match r.1 {
            Some(e) => extension_of(name@) == Some(e@),
            None => extension_of(name@) is None,
        },
{
    let cs = chars_of(name);
    let mut i: usize = cs.len();
    assert(cs@.subrange(0, cs@.len() as int) =~= cs@);
    while i > 0
        invariant
            i <= cs@.len(),
            cs@ == name@,
            last_dot(cs@.subrange(0, i as int)) == last_dot(name@),
        decreases i,
    {
        let ghost upto = cs@.subrange(0, i as int);
        assert(upto.drop_last() =~= cs@.subrange(0, i - 1));
        if cs[i - 1] == '.' {
            if i == 1 {
                return (owned(name), None);
            }
            return (text_between(&cs, 0, i - 1), Some(text_between(&cs, i, cs.len())));
        }
        i = i - 1;
    }
    (owned(name), None)
}

/// The stem of a path's last part, or `input` where it has none.
pub open spec fn input_stem_of(path: Seq<char>) -> Seq<char> {
    match name_of(path) {
        Some(n) => stem_of(n),
        None => "input"@,
    }
}

/// The stem of a path's last part, or `input` where it has none.
pub fn input_stem(path: &str) -> (r: String)
    ensures
        r@ == input_stem_of(path@),
{
    match file_name(path) {
        Some(n) => split_name(&n).0,
        None => owned("input"),
    }
}

/// Law: a stem and an extension make up the name again.
pub proof fn law_stem_and_extension_make_the_name(name: Seq<char>)
    ensures
        match extension_of(name) {
            Some(e) => stem_of(name) + seq!['.'] + e == name,
            None => stem_of(name) == name,
        },
{
    lemma_last_dot(name);
}

/// Law: the extension of a name holds no dot, and a name that is nothing but an
/// extension has none.
pub proof fn law_extension_follows_the_last_dot(name: Seq<char>)
    ensures
        extension_of(name) matches Some(e) ==> !e.contains('.') && stem_of(name).len() > 0,
        extension_of(name) is None ==> forall|i: int|
            0 < i < name.len() ==> #[trigger] name[i] != '.',
{
    lemma_last_dot(name);
    lemma_behind_last_dot(name);
    if let Some(e) = extension_of(name) {
        let d = last_dot(name)->0;
        assert forall|k: int| 0 <= k < e.len() implies e[k] != '.' by {
            assert(e[k] == name[d + 1 + k]);
        }
    }
}

proof fn lemma_behind_last_dot(name: Seq<char>)
    ensures
        match last_dot(name) {
            Some(d) => forall|i: int| d < i < name.len() ==> #[trigger] name[i] != '.',
            None => forall|i: int| 0 <= i < name.len() ==> #[trigger] name[i] != '.',
        },
    decreases name.len(),
{
    lemma_last_dot(name);
    if name.len() > 0 && name.last() != '.' {
        lemma_behind_last_dot(name.drop_last());
        assert forall|i: int|
            0 <= i < name.len() && (last_dot(name) is None || last_dot(name)->0
                < i) implies #[trigger] name[i] != '.' by {
            if i < name.len() - 1 {
                assert(name.drop_last()[i] == name[i]);
            }
        }
    }
}

/// A text without the separator is a single piece.
pub proof fn lemma_pieces_single(t: Seq<char>, sep: char)
    requires
        !t.contains(sep),
    ensures
        pieces(t, sep) == seq![t],
    decreases t.len(),
{
    if t.len() == 0 {
        assert(t =~= Seq::<char>::empty());
    } else {
        let u = t.drop_last();
        assert forall|k: int| 0 <= k < u.len() implies u[k] != sep by {
            assert(t.contains(t[k]));
        }
        assert(t.contains(t[t.len() - 1]));
        lemma_pieces_single(u, sep);
        assert(u.push(t.last()) =~= t);
        assert(pieces(t, sep) =~= seq![t]);
    }
}

/// What stands behind a separator, without another, is the last piece.
pub proof fn lemma_pieces_append(s: Seq<char>, t: Seq<char>, sep: char)
    requires
        !t.contains(sep),
    ensures
        pieces(s + seq![sep] + t, sep) == pieces(s, sep).push(t),
    decreases t.len(),
{
    let all = s + seq![sep] + t;
    if t.len() == 0 {
        assert(all =~= s.push(sep));
        assert(all.drop_last() =~= s);
        assert(t =~= Seq::<char>::empty());
    } else {
        let u = t.drop_last();
        assert forall|k: int| 0 <= k < u.len() implies u[k] != sep by {
            assert(t.contains(t[k]));
        }
        assert(t.contains(t[t.len() - 1]));
        lemma_pieces_append(s, u, sep);
        assert(all.drop_last() =~= s + seq![sep] + u);
        assert(all.last() == t.last());
        let before = pieces(s, sep).push(u);
        assert(u.push(t.last()) =~= t);
        assert(pieces(all, sep) =~= pieces(s, sep).push(t));
    }
}

/// Law: a file in a folder is called what stands behind the last slash.
pub proof fn law_file_in_folder_keeps_its_name(folder: Seq<char>, name: Seq<char>)
    requires
        !name.contains('/'),
        name != ""@,
        name != "."@,
        name != ".."@,
    ensures
        name_of(folder + seq!['/'] + name) == Some(name),
        folder.len() > 0 ==> name_of(below(folder, name)) == Some(name),
{
    lemma_pieces_append(folder, name, '/');
    let parts = pieces(folder + seq!['/'] + name, '/');
    assert(parts.last() == name);
    reveal_strlit("/");
    reveal_strlit("");
    if folder.len() > 0 {
        if name.len() == 0 {
            assert(name =~= ""@);
        }
        assert(name.contains(name[0]));
        assert(!begins(name, "/"@)) by {
            if begins(name, "/"@) {
                assert(name.subrange(0, 1)[0] == '/');
            }
        }
        if ends(folder, "/"@) {
            let base = folder.drop_last();
            assert(folder.subrange(folder.len() - 1, folder.len() as int)[0] == '/');
            assert(folder + name =~= base + seq!['/'] + name);
            lemma_pieces_append(base, name, '/');
            assert(pieces(base + seq!['/'] + name, '/').last() == name);
        } else {
            assert("/"@ =~= seq!['/']);
        }
    }
}

/// Law: the stem that results are named after is the last part of the input's
/// path without its extension, wherever the input lies.
pub proof fn law_results_are_named_after_the_file(folder: Seq<char>, stem: Seq<char>, ext: Seq<char>)
    requires
        stem.len() > 0,
        !stem.contains('/'),
        ext.len() > 0,
        !ext.contains('/'),
        !ext.contains('.'),
    ensures
        input_stem_of(folder + seq!['/'] + (stem + seq!['.'] + ext)) == stem,
{
    let name = stem + seq!['.'] + ext;
    let n = stem.len() as int;
    reveal_strlit("");
    reveal_strlit(".");
    reveal_strlit("..");
    if name.contains('/') {
        let k = name.index_of('/');
        if k < n {
            assert(stem[k] == '/');
        } else {
            assert(ext[k - n - 1] == '/');
        }
    }
    if name == ".."@ {
        assert(name[name.len() - 1] == ext.last());
        assert(ext.contains(ext.last()));
        assert(".."@[1] == '.');
    }
    assert(name.len() >= 3 || name.len() == 2);
    law_file_in_folder_keeps_its_name(folder, name);
    law_stem_and_extension_make_the_name(name);
    law_extension_follows_the_last_dot(name);
    assert(name[n] == '.');
    let s = stem_of(name);
    let e = extension_of(name)->0;
    let m = s.len() as int;
    assert(s + seq!['.'] + e == name);
    assert(name[m] == '.') by {
        assert((s + seq!['.'] + e)[m] == '.');
    }
    if m < n {
        assert((s + seq!['.'] + e)[n] == e[n - m - 1]);
    }
    if m > n {
        assert(ext[m - n - 1] == '.');
    }
    assert(name.subrange(0, n) =~= stem);
    assert((s + seq!['.'] + e).subrange(0, m) =~= s);
}

} // verus!
