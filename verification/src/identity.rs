//! Package identities and the identifier strings they are parsed from.
//!
//! An identifier is three fields separated by single spaces: a name and a
//! version, neither empty nor holding a space, and an origin, which is the
//! non-empty rest of the string.

use crate::error::{Error, ErrorView};
use vstd::prelude::*;

verus! {

/// The name, version and origin of a package. Two identities are equal if
/// the three hold the same text.
#[derive(Debug, Eq, Hash)]
pub struct Identity {
    pub name: String,
    pub version: String,
    pub origin: String,
}

/// The mathematical value of an [`Identity`].
pub struct IdentityView {
    pub name: Seq<char>,
    pub version: Seq<char>,
    pub origin: Seq<char>,
}

impl View for Identity {
    type V = IdentityView;

    open spec fn view(&self) -> IdentityView {
        IdentityView { name: self.name@, version: self.version@, origin: self.origin@ }
    }
}

impl PartialEq for Identity {
    fn eq(&self, other: &Identity) -> (equal: bool) {
        self.name == other.name && self.version == other.version && self.origin == other.origin
    }
}

impl vstd::std_specs::cmp::PartialEqSpecImpl for Identity {
    open spec fn obeys_eq_spec() -> bool {
        true
    }

    open spec fn eq_spec(&self, other: &Identity) -> bool {
        self@ == other@
    }
}

impl Clone for Identity {
    fn clone(&self) -> (copy: Identity)
        ensures
            copy == *self,
    {
        Identity {
            name: self.name.clone(),
            version: self.version.clone(),
            origin: self.origin.clone(),
        }
    }
}

/// The position of the first space of `text` at or after `from`, or the
/// length of `text` if there is none.
pub open spec fn first_space(text: Seq<char>, from: int) -> int
    decreases text.len() - from,
{
    if from < 0 || from >= text.len() {
        text.len() as int
    } else if text[from] == ' ' {
        from
    } else {
        first_space(text, from + 1)
    }
}

/// The identity that an identifier string stands for, if it follows the
/// grammar.
pub open spec fn parse_identity(text: Seq<char>) -> Option<IdentityView> {
    let name_end = first_space(text, 0);
    let version_end = first_space(text, name_end + 1);
    if 0 < name_end && name_end + 1 < version_end && version_end + 1 < text.len() {
        Some(
            IdentityView {
                name: text.subrange(0, name_end),
                version: text.subrange(name_end + 1, version_end),
                origin: text.subrange(version_end + 1, text.len() as int),
            },
        )
    } else {
        None
    }
}

/// The identifier string of an identity.
pub open spec fn render_identity(identity: IdentityView) -> Seq<char> {
    identity.name + seq![' '] + identity.version + seq![' '] + identity.origin
}

/// What [`Identity::parse_from_id`] returns for an identifier string.
pub open spec fn parsed_identity(text: Seq<char>) -> Result<IdentityView, ErrorView> {
    match parse_identity(text) {
        Some(identity) => Ok(identity),
        None => Err(ErrorView::UnparsableIdentifier { text }),
    }
}

proof fn lemma_first_space_bounds(text: Seq<char>, from: int)
    requires
        0 <= from <= text.len(),
    ensures
        from <= first_space(text, from) <= text.len(),
        first_space(text, from) < text.len() ==> text[first_space(text, from)] == ' ',
        forall|k: int| from <= k < first_space(text, from) ==> text[k] != ' ',
    decreases text.len() - from,
{
    if from < text.len() && text[from] != ' ' {
        lemma_first_space_bounds(text, from + 1);
    }
}

/// An identifier that parses is its identity written out again: the fields
/// joined by single spaces. Name and version hold no space.
pub proof fn lemma_parse_then_render(text: Seq<char>)
    requires
        parse_identity(text) is Some,
    ensures
        render_identity(parse_identity(text)->Some_0) == text,
        !parse_identity(text)->Some_0.name.contains(' '),
        !parse_identity(text)->Some_0.version.contains(' '),
{
    let name_end = first_space(text, 0);
    lemma_first_space_bounds(text, 0);
    lemma_first_space_bounds(text, name_end + 1);
}

/// Two identifiers that stand for the same identity are the same string.
pub proof fn lemma_parse_injective(first: Seq<char>, second: Seq<char>)
    requires
        parse_identity(first) is Some,
        parse_identity(first) == parse_identity(second),
    ensures
        first == second,
{
    lemma_parse_then_render(first);
    lemma_parse_then_render(second);
}

proof fn lemma_first_space_at(text: Seq<char>, from: int, at: int)
    requires
        0 <= from <= at < text.len(),
        text[at] == ' ',
        forall|k: int| from <= k < at ==> text[k] != ' ',
    ensures
        first_space(text, from) == at,
    decreases at - from,
{
    if from < at {
        lemma_first_space_at(text, from + 1, at);
    }
}

/// Every identity whose name and version are not empty and hold no space,
/// and whose origin is not empty, is what its identifier string parses to.
pub proof fn lemma_render_then_parse(identity: IdentityView)
    requires
        identity.name.len() > 0,
        identity.version.len() > 0,
        identity.origin.len() > 0,
        !identity.name.contains(' '),
        !identity.version.contains(' '),
    ensures
        parse_identity(render_identity(identity)) == Some(identity),
{
    let text = render_identity(identity);
    let name_end = identity.name.len() as int;
    let version_end = name_end + 1 + identity.version.len();
    lemma_first_space_at(text, 0, name_end);
    lemma_first_space_at(text, name_end + 1, version_end);
    assert(text.subrange(0, name_end) =~= identity.name);
    assert(text.subrange(name_end + 1, version_end) =~= identity.version);
    assert(text.subrange(version_end + 1, text.len() as int) =~= identity.origin);
}

fn find_space(text: &str, from: usize, len: usize) -> (at: usize)
    requires
        from <= len,
        len == text@.len(),
    ensures
        at == first_space(text@, from as int),
        from <= at <= len,
{
    let mut at: usize = from;
    while at < len
        invariant
            from <= at <= len,
            len == text@.len(),
            first_space(text@, from as int) == first_space(text@, at as int),
        decreases len - at,
    {
        if text.get_char(at) == ' ' {
            return at;
        }
        at += 1;
    }
    at
}

impl Identity {
    /// Writes the identity as an identifier string.
    pub fn render(&self) -> (text: String)
        ensures
            text@ == render_identity(self@),
    {
        proof {
            reveal_strlit(" ");
        }
        self.name.clone().concat(" ").concat(self.version.as_str()).concat(" ").concat(
            self.origin.as_str(),
        )
    }

    /// Parses an identifier string.
    pub fn parse_from_id(source_id: &str) -> (parsed: Result<Identity, Error>)
        ensures
            match parsed_identity(source_id@) {
                Ok(identity) => parsed is Ok && parsed->Ok_0@ == identity,
                Err(error) => parsed is Err && parsed->Err_0@ == error,
            },
    {
        let len = source_id.unicode_len();
        let name_end = find_space(source_id, 0, len);
        if name_end == 0 || name_end >= len {
            return Err(Error::UnparsableIdentifier { text: source_id.to_owned() });
        }
        let version_end = find_space(source_id, name_end + 1, len);
        if version_end <= name_end + 1 || version_end >= len || version_end + 1 >= len {
            return Err(Error::UnparsableIdentifier { text: source_id.to_owned() });
        }
        Ok(
            Identity {
                name: source_id.substring_char(0, name_end).to_owned(),
                version: source_id.substring_char(name_end + 1, version_end).to_owned(),
                origin: source_id.substring_char(version_end + 1, len).to_owned(),
            },
        )
    }
}

} // verus!
