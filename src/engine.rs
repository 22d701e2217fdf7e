//! The regular-expression engine that dynamic path patterns run on.
use vstd::prelude::*;

verus! {

#[verifier::external_type_specification]
#[verifier::external_body]
pub struct ExRegex(regex::Regex);

/// Whether `regex::Regex::new` accepts the given source text.
pub uninterp spec fn regex_compiles(source: Seq<char>) -> bool;

/// The groups of the leftmost-first match of a regex in a haystack, as
/// `regex::Regex::captures` reports them: `None` when nothing matches, else
/// one entry per group (group 0 is the whole match), each the byte span of
/// what the group matched, or `None` where the group did not take part.
pub uninterp spec fn captures_of(source: Seq<char>, haystack: Seq<char>) -> Option<
    Seq<Option<(usize, usize)>>,
>;

/// The names of the groups of a regex, as `regex::Regex::capture_names`
/// lists them: one entry per group, `None` for an unnamed group.
pub uninterp spec fn capture_names_of(source: Seq<char>) -> Seq<Option<Seq<char>>>;

/// The text that `regex::escape` makes of a literal: a regex that matches
/// exactly that literal.
pub uninterp spec fn escaped(literal: Seq<char>) -> Seq<char>;

/// A regex together with the source text it was compiled from.
pub struct CompiledRegex {
    re: regex::Regex,
    source: String,
}

/// What the byte spans of a match satisfy in a haystack of `len` bytes:
/// group 0 is present, and every span is ordered and lies within the haystack.
pub open spec fn spans_in_bounds(groups: Seq<Option<(usize, usize)>>, len: nat) -> bool {
    &&& groups.len() >= 1
    &&& groups[0] is Some
    &&& forall|i: int|
        0 <= i < groups.len() && (#[trigger] groups[i]) is Some ==> {
            let (s, e) = groups[i]->Some_0;
            s <= e <= len
        }
}

/// The view of an optional list of groups.
pub open spec fn groups_view(r: Option<Vec<Option<(usize, usize)>>>) -> Option<
    Seq<Option<(usize, usize)>>,
> {
    match r {
        Some(v) => Some(v@),
        None => None,
    }
}

/// The view of a list of optional names.
pub open spec fn names_view(v: Seq<Option<String>>) -> Seq<Option<Seq<char>>> {
    v.map_values(|n: Option<String>| match n {
        Some(s) => Some(s@),
        None => None,
    })
}

impl CompiledRegex {
    /// The source text this regex was compiled from.
    pub closed spec fn source(&self) -> Seq<char> {
        self.source@
    }

    /// Relies on `regex::Regex::new`: it succeeds exactly on the sources
    /// that `regex_compiles` names.
    #[verifier::external_body]
    pub(crate) fn compile(source: &String) -> (r: Option<CompiledRegex>)
        ensures
            r is Some <==> regex_compiles(source@),
            r matches Some(c) ==> c.source() == source@,
    {
        match regex::Regex::new(source) {
            Ok(re) => Some(CompiledRegex { re, source: source.clone() }),
            Err(_) => None,
        }
    }

    /// Relies on `regex::Regex::captures`, `Captures::iter` and the byte
    /// offsets of `Match`: group 0 is always present, spans are ordered, lie
    /// within the haystack and fall on UTF-8 character boundaries.
    #[verifier::external_body]
    pub(crate) fn captures(&self, haystack: &str) -> (r: Option<Vec<Option<(usize, usize)>>>)
        ensures
            groups_view(r) == captures_of(self.source(), haystack@),
            r matches Some(v) ==> spans_in_bounds(v@, vstd::utf8::encode_utf8(haystack@).len()),
            r matches Some(v) ==> forall|i: int|
                0 <= i < v.len() && (#[trigger] v[i]) is Some ==> {
                    &&& vstd::utf8::is_char_boundary(vstd::utf8::encode_utf8(haystack@), v[i]->Some_0.0 as int)
                    &&& vstd::utf8::is_char_boundary(vstd::utf8::encode_utf8(haystack@), v[i]->Some_0.1 as int)
                },
    {
        self.re.captures(haystack).map(
            |c| c.iter().map(|m| m.map(|m| (m.start(), m.end()))).collect(),
        )
    }

    /// Relies on `regex::Regex::capture_names`: one entry per group of the
    /// regex, the group's name or `None`.
    #[verifier::external_body]
    pub(crate) fn capture_names(&self) -> (r: Vec<Option<String>>)
        ensures
            names_view(r@) == capture_names_of(self.source()),
    {
        self.re.capture_names().map(|n| n.map(|n| n.to_string())).collect()
    }
}

/// Relies on `regex::escape`: the escaped form of a literal.
#[verifier::external_body]
pub(crate) fn escape(literal: &str) -> (r: String)
    ensures
        r@ == escaped(literal@),
{
    regex::escape(literal)
}

} // verus!
