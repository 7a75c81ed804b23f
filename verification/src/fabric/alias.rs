//! Aliases: short names that stand for one cap or media URN each.
//!
//! A name is lowercase and never holds a colon; that is how a token is told
//! apart from a URN, which always holds one.

use crate::text::{add_text, chars_of, is_space, is_space_char, owned};
use crate::urn::{cap_parse, lower_char, lowered, media_parse, CapUrn, MediaUrn};
use vstd::prelude::*;

verus! {

broadcast use vstd::string::group_string_axioms;

/// What an alias stands for.
#[derive(Debug, Clone, Copy, PartialEq, Eq, Structural)]
pub enum AliasTargetKind {
    Cap,
    Media,
}

impl AliasTargetKind {
    /// The name of the kind.
    pub fn as_str(self) -> (r: &'static str)
        ensures
            r@ == (match self {
                AliasTargetKind::Cap => "cap"@,
                AliasTargetKind::Media => "media"@,
            }),
    {
        match self {
            AliasTargetKind::Cap => "cap",
            AliasTargetKind::Media => "media",
        }
    }
}

/// An alias as it is stored.
#[derive(Debug, PartialEq, Eq)]
pub struct StoredAlias {
    /// The lowercase name, unique in a snapshot.
    pub name: String,
    /// The canonical URN that it stands for.
    pub target: String,
    /// The version of the definition, at least 1.
    pub version: u32,
}

/// What is wrong with an alias name.
#[derive(Debug, PartialEq, Eq)]
pub enum AliasNameError {
    Empty,
    ContainsColon(String),
    ContainsWhitespace(String),
    InvalidChar { name: String, ch: char },
}

/// A character as `{:?}` shows it.
pub uninterp spec fn shown_char(c: char) -> Seq<char>;

/// `format!("{:?}", c)` for a character: a function of the character alone.
#[verifier::external_body]
fn show_char(c: char) -> (r: String)
    ensures
        r@ == shown_char(c),
{
    format!("{:?}", c)
}

impl AliasNameError {
    /// The error as a message.
    pub open spec fn message(self) -> Seq<char> {
        match self {
            AliasNameError::Empty => "alias name is empty"@,
            AliasNameError::ContainsColon(name) => "alias name '"@ + name@
                + "' contains ':' — aliases must never look like a tagged URN"@,
            AliasNameError::ContainsWhitespace(name) => "alias name '"@ + name@
                + "' contains whitespace"@,
            AliasNameError::InvalidChar { name, ch } => "alias name '"@ + name@
                + "' contains invalid character "@ + shown_char(ch)
                + "; allowed: lowercase letters, digits, '.', '_', '-'"@,
        }
    }

    /// The error as a message.
    pub fn to_string(&self) -> (r: String)
        ensures
            r@ == self.message(),
    {
        match self {
            AliasNameError::Empty => owned("alias name is empty"),
            AliasNameError::ContainsColon(name) => {
                let mut out = owned("alias name '");
                add_text(&mut out, name);
                add_text(&mut out, "' contains ':' — aliases must never look like a tagged URN");
                out
            },
            AliasNameError::ContainsWhitespace(name) => {
                let mut out = owned("alias name '");
                add_text(&mut out, name);
                add_text(&mut out, "' contains whitespace");
                out
            },
            AliasNameError::InvalidChar { name, ch } => {
                let mut out = owned("alias name '");
                add_text(&mut out, name);
                add_text(&mut out, "' contains invalid character ");
                add_text(&mut out, &show_char(*ch));
                add_text(&mut out, "; allowed: lowercase letters, digits, '.', '_', '-'");
                out
            },
        }
    }
}

/// Whether a token is a URN: it holds a colon.
pub fn token_is_urn(token: &str) -> (r: bool)
    ensures
        r == token@.contains(':'),
{
    let cs = chars_of(token);
    let mut i: usize = 0;
    while i < cs.len()
        invariant
            i <= cs@.len(),
            cs@ == token@,
            forall|j: int| 0 <= j < i ==> cs@[j] != ':',
        decreases cs@.len() - i,
    {
        if cs[i] == ':' {
            return true;
        }
        i = i + 1;
    }
    false
}

/// Whether a token is to be looked up as an alias: it holds no colon.
pub fn is_alias_token(token: &str) -> (r: bool)
    ensures
        r == !token@.contains(':'),
{
    !token_is_urn(token)
}

/// A character that an alias name may hold.
pub open spec fn is_name_char(c: char) -> bool {
    ('a' <= c && c <= 'z') || ('0' <= c && c <= '9') || c == '.' || c == '_' || c == '-'
}

/// Some character of the text is white space.
pub open spec fn has_space(s: Seq<char>) -> bool {
    exists|i: int| 0 <= i < s.len() && is_space(#[trigger] s[i])
}

/// The character at `i` is the first that no alias name holds.
pub open spec fn first_bad(s: Seq<char>, i: int) -> bool {
    &&& 0 <= i < s.len()
    &&& !is_name_char(s[i])
    &&& forall|j: int| 0 <= j < i ==> is_name_char(#[trigger] s[j])
}

/// The name may stand as it is: not empty, and of allowed characters only.
pub open spec fn is_alias_name(s: Seq<char>) -> bool {
    s.len() > 0 && forall|i: int| 0 <= i < s.len() ==> is_name_char(#[trigger] s[i])
}

/// The canonical form of an alias name, or what is wrong with it: an empty
/// name, a colon, white space, and the first other character that is not
/// allowed, in this order.
pub fn normalize_alias_name(name: &str) -> (r: Result<String, AliasNameError>)
    ensures
        if name@.len() == 0 {
            r == Err::<String, AliasNameError>(AliasNameError::Empty)
        } else if name@.contains(':') {
            r matches Err(AliasNameError::ContainsColon(s)) && s@ == name@
        } else if has_space(name@) {
            r matches Err(AliasNameError::ContainsWhitespace(s)) && s@ == name@
        } else if is_alias_name(lowered(name@)) {
            r is Ok && r->Ok_0@ == lowered(name@)
        } else {
            r matches Err(AliasNameError::InvalidChar { name: s, ch }) && s@ == name@ && exists|
                i: int,
            |
                #[trigger] first_bad(lowered(name@), i) && ch == lowered(name@)[i]
        },
{
    if name.is_empty() {
        return Err(AliasNameError::Empty);
    }
    if token_is_urn(name) {
        return Err(AliasNameError::ContainsColon(owned(name)));
    }
    let cs = chars_of(name);
    let mut i: usize = 0;
    while i < cs.len()
        invariant
            i <= cs@.len(),
            cs@ == name@,
            name@.len() > 0,
            !name@.contains(':'),
            forall|j: int| 0 <= j < i ==> !is_space(#[trigger] cs@[j]),
        decreases cs@.len() - i,
    {
        if is_space_char(cs[i]) {
            assert(has_space(name@));
            return Err(AliasNameError::ContainsWhitespace(owned(name)));
        }
        i = i + 1;
    }
    let mut out = String::new();
    let mut k: usize = 0;
    while k < cs.len()
        invariant
            k <= cs@.len(),
            cs@ == name@,
            name@.len() > 0,
            !name@.contains(':'),
            !has_space(name@),
            out@ == lowered(name@).subrange(0, k as int),
            forall|j: int| 0 <= j < k ==> is_name_char(#[trigger] lowered(name@)[j]),
        decreases cs@.len() - k,
    {
        let ch = lower_char(cs[k]);
        assert(lowered(name@)[k as int] == ch);
        let ok = ('a' <= ch && ch <= 'z') || ('0' <= ch && ch <= '9') || ch == '.' || ch == '_'
            || ch == '-';
        if !ok {
            assert(first_bad(lowered(name@), k as int));
            return Err(AliasNameError::InvalidChar { name: owned(name), ch });
        }
        out.push(ch);
        assert(out@ =~= lowered(name@).subrange(0, k + 1));
        k = k + 1;
    }
    assert(lowered(name@).subrange(0, k as int) =~= lowered(name@));
    Ok(out)
}

/// What an alias target is: a cap where it reads as a cap URN, media where it
/// reads as a media URN.
pub fn classify_alias_target(target: &str) -> (r: Option<AliasTargetKind>)
    ensures
        r == (if cap_parse(target@) is Some {
            Some(AliasTargetKind::Cap)
        } else if media_parse(target@) is Some {
            Some(AliasTargetKind::Media)
        } else {
            None
        }),
{
    if CapUrn::from_string(target).is_ok() {
        return Some(AliasTargetKind::Cap);
    }
    if MediaUrn::from_string(target).is_ok() {
        return Some(AliasTargetKind::Media);
    }
    None
}

/// Law: a valid alias name is never taken for a URN, and a URN is never a valid
/// alias name.
pub proof fn law_names_are_never_urns(s: Seq<char>)
    ensures
        is_alias_name(s) ==> !s.contains(':'),
        media_parse(s) is Some || cap_parse(s) is Some ==> s.contains(':') && !is_alias_name(s),
{
    if is_alias_name(s) && s.contains(':') {
        let i = s.index_of(':');
        assert(is_name_char(s[i]));
    }
    reveal_strlit("media");
    reveal_strlit("cap");
    if media_parse(s) is Some {
        assert(s[5] == ':');
        assert(s.contains(':'));
    }
    if cap_parse(s) is Some {
        assert(s[3] == ':');
        assert(s.contains(':'));
    }
}

/// Law: a canonical name stays as it is when it is put into canonical form
/// again.
pub proof fn law_canonical_name_is_stable(s: Seq<char>)
    requires
        is_alias_name(lowered(s)),
    ensures
        lowered(lowered(s)) == lowered(s),
{
    let t = lowered(s);
    assert forall|i: int| 0 <= i < t.len() implies lowered(t)[i] == t[i] by {
        assert(is_name_char(t[i]));
    }
    assert(lowered(t) =~= t);
}

} // verus!
