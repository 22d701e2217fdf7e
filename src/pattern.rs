//! Path patterns: a route template compiled into a static, prefix or
//! regex-backed matcher, and the matching of request paths against it.
use vstd::prelude::*;
use vstd::string::*;

use crate::engine::{names_view, capture_names_of, captures_of, escape, escaped, regex_compiles, CompiledRegex};
use crate::engine::spans_in_bounds;
use crate::param::{item_valid, model_valid, ParamItem, ParamValue, Params, ParamsModel};
use crate::text::{
    at_boundary, byte_at, byte_len, byte_slice, bytes_of, has_prefix, lemma_boundary_from_suffix,
    lemma_ascii_byte_is_boundary, lemma_bytes_injective, lemma_bytes_valid, lemma_ends_are_boundaries, same_text, starts_with_text,
    suffix_from,
};
use vstd::utf8::{is_char_boundary, valid_utf8};

verus! {

/// The sub-pattern of a parameter that names no pattern of its own.
pub const DEFAULT_PATTERN: &'static str = "[^/]+";

/// The index of the first `c` in `s` at or after `from`.
pub open spec fn index_of(s: Seq<char>, c: char, from: int) -> Option<int>
    decreases s.len() - from,
{
    if from < 0 || from >= s.len() {
        None
    } else if s[from] == c {
        Some(from)
    } else {
        index_of(s, c, from + 1)
    }
}

/// The regex text of one `{...}` segment, given what stands between the
/// braces: `name` alone takes the default sub-pattern, `name:pattern` its own.
pub open spec fn group_text(param: Seq<char>) -> Seq<char> {
    match index_of(param, ':', 0) {
        Some(k) => "(?P<"@ + param.subrange(0, k) + ">"@ + param.subrange(k + 1, param.len() as int)
            + ")"@,
        None => "(?P<"@ + param + ">"@ + DEFAULT_PATTERN@ + ")"@,
    }
}

/// Scans template `t` from index `i`. With `depth == 0` the scan is in a
/// literal that began at `lit`; otherwise it is inside a segment whose
/// opening brace is at `open`, with `depth` braces open. The result is the
/// regex text of the rest of the template and the index where its final
/// literal begins, or `None` where a segment is never closed.
pub open spec fn parse_from(t: Seq<char>, i: int, lit: int, depth: nat, open: int) -> Option<
    (Seq<char>, int),
>
    decreases t.len() - i,
{
    if i >= t.len() {
        if depth == 0 {
            Some((escaped(t.subrange(lit, t.len() as int)), lit))
        } else {
            None
        }
    } else if depth == 0 {
        if t[i] == '{' {
            match parse_from(t, i + 1, lit, 1, i) {
                Some((b, l)) => Some((escaped(t.subrange(lit, i)) + b, l)),
                None => None,
            }
        } else {
            parse_from(t, i + 1, lit, 0, open)
        }
    } else if t[i] == '{' {
        parse_from(t, i + 1, lit, depth + 1, open)
    } else if t[i] == '}' {
        if depth == 1 {
            match parse_from(t, i + 1, i + 1, 0, open) {
                Some((b, l)) => Some((group_text(t.subrange(open + 1, i)) + b, l)),
                None => None,
            }
        } else {
            parse_from(t, i + 1, lit, (depth - 1) as nat, open)
        }
    } else {
        parse_from(t, i + 1, lit, depth, open)
    }
}

/// Whether a template holds an opening brace, and so a segment.
pub open spec fn has_segment(t: Seq<char>) -> bool {
    exists|j: int| 0 <= j < t.len() && t[j] == '{'
}

/// The template with a leading `/` put in front where `slash` asks for one.
pub open spec fn normalized(t: Seq<char>, slash: bool) -> Seq<char> {
    if slash && !(t.len() > 0 && t[0] == '/') {
        seq!['/'] + t
    } else {
        t
    }
}

/// The anchored regex text of a template with segments: anchored at the
/// start, and at the end too unless it matches prefixes.
pub open spec fn regex_text(body: Seq<char>, for_prefix: bool) -> Seq<char> {
    if for_prefix {
        "^"@ + body
    } else {
        "^"@ + body + "$"@
    }
}

proof fn lemma_index_of(s: Seq<char>, c: char, from: int)
    ensures
        index_of(s, c, from) matches Some(k) ==> from <= k < s.len() && s[k] == c,
    decreases s.len() - from,
{
    if 0 <= from < s.len() && s[from] != c {
        lemma_index_of(s, c, from + 1);
    }
}

/// Where text accumulated so far meets what the rest of a parse gives.
pub open spec fn joined(acc: Seq<char>, r: Option<(Seq<char>, int)>) -> Option<(Seq<char>, int)> {
    match r {
        Some((b, l)) => Some((acc + b, l)),
        None => None,
    }
}

/// The index of the first `c` in `s`.
fn find_char(s: &str, c: char) -> (r: Option<usize>)
    ensures
        match index_of(s@, c, 0) {
            Some(k) => r == Some(k as usize),
            None => r is None,
        },
{
    let n = s.unicode_len();
    let mut i: usize = 0;
    while i < n
        invariant
            n == s@.len(),
            i <= n,
            index_of(s@, c, 0) == index_of(s@, c, i as int),
        decreases n - i,
    {
        if s.get_char(i) == c {
            return Some(i);
        }
        i = i + 1;
    }
    None
}

/// The regex text of one segment from what stands between its braces.
fn param_regex(param: &str) -> (r: String)
    ensures
        r@ == group_text(param@),
{
    let mut g = "(?P<".to_owned();
    match find_char(param, ':') {
        Some(k) => {
            proof {
                lemma_index_of(param@, ':', 0);
            }
            let n = param.unicode_len();
            g.append(param.substring_char(0, k));
            g.append(">");
            g.append(param.substring_char(k + 1, n));
        },
        None => {
            g.append(param);
            g.append(">");
            g.append(DEFAULT_PATTERN);
        },
    }
    g.append(")");
    g
}

/// Scans a template: `None` where a segment is never closed; else the regex
/// body, whether the template had a segment, and where its final literal
/// begins.
fn parse(t: &str) -> (r: Option<(String, bool, usize)>)
    ensures
        match parse_from(t@, 0, 0, 0, 0) {
            Some((b, l)) => r matches Some((rb, dynamic, rl)) && rb@ == b && rl == l && dynamic
                == has_segment(t@) && rl <= t@.len(),
            None => r is None && has_segment(t@),
        },
{
    let n = t.unicode_len();
    let mut acc = String::new();
    let mut depth: usize = 0;
    let mut lit: usize = 0;
    let mut open: usize = 0;
    let mut dynamic = false;
    let mut i: usize = 0;
    while i < n
        invariant
            n == t@.len(),
            i <= n,
            lit <= i,
            depth <= i,
            depth > 0 ==> open < i && lit <= open,
            joined(acc@, parse_from(t@, i as int, lit as int, depth as nat, open as int))
                == parse_from(t@, 0, 0, 0, 0),
            dynamic == (exists|j: int| 0 <= j < i && t@[j] == '{'),
            !dynamic ==> depth == 0 && lit == 0,
        decreases n - i,
    {
        let c = t.get_char(i);
        let ghost acc0 = acc@;
        if depth == 0 {
            if c == '{' {
                let e = escape(t.substring_char(lit, i));
                acc.append(e.as_str());
                depth = 1;
                open = i;
                dynamic = true;
                proof {
                    match parse_from(t@, i + 1, lit as int, 1, i as int) {
                        Some((b, l)) => {
                            assert(acc0 + (e@ + b) == acc@ + b);
                        },
                        None => {},
                    }
                }
            }
        } else if c == '{' {
            depth = depth + 1;
        } else if c == '}' {
            if depth == 1 {
                let g = param_regex(t.substring_char(open + 1, i));
                acc.append(g.as_str());
                depth = 0;
                lit = i + 1;
                proof {
                    match parse_from(t@, i + 1, i + 1, 0, open as int) {
                        Some((b, l)) => {
                            assert(acc0 + (g@ + b) == acc@ + b);
                        },
                        None => {},
                    }
                }
            } else {
                depth = depth - 1;
            }
        }
        i = i + 1;
        proof {
            assert(dynamic == (exists|j: int| 0 <= j < i && t@[j] == '{')) by {
                if t@[i - 1] == '{' {
                    assert(0 <= i - 1 < i && t@[i - 1] == '{');
                }
            }
        }
    }
    if depth != 0 {
        assert(dynamic);
        return None;
    }
    let e = escape(t.substring_char(lit, n));
    let ghost acc0 = acc@;
    acc.append(e.as_str());
    Some((acc, dynamic, lit))
}

/// Resource type.
#[derive(Debug, Clone, Copy, PartialEq, Eq, Structural)]
pub enum ResourceType {
    /// Normal resource
    Normal,
    /// Resource for application default handler
    Default,
    /// External resource
    External,
    /// Unknown resource type
    Unset,
}

/// How a compiled pattern matches.
enum PatternType {
    Static(String),
    Prefix(String),
    Dynamic(CompiledRegex, Vec<Option<String>>, usize),
}

/// What a compiled pattern matches by.
pub enum MatcherModel {
    /// The path must equal the text.
    Static(Seq<char>),
    /// The path must start with the text at a `/` boundary.
    Prefix(Seq<char>),
    /// The path must match the regex `source`, whose group names are
    /// `names`; `trailing` is the byte length of the template's final literal.
    Dynamic { source: Seq<char>, names: Seq<Option<Seq<char>>>, trailing: usize },
}

/// The matcher a template compiles to, or `None` for a template that does
/// not compile (an unclosed segment, or a regex the engine refuses).
pub open spec fn compile_spec(t: Seq<char>, for_prefix: bool, slash: bool) -> Option<MatcherModel> {
    let p = normalized(t, slash);
    if !has_segment(p) {
        Some(
            if for_prefix {
                MatcherModel::Prefix(p)
            } else {
                MatcherModel::Static(p)
            },
        )
    } else {
        match parse_from(p, 0, 0, 0, 0) {
            Some((b, l)) => {
                let src = regex_text(b, for_prefix);
                if regex_compiles(src) {
                    Some(
                        MatcherModel::Dynamic {
                            source: src,
                            names: capture_names_of(src),
                            trailing: bytes_of(p.subrange(l, p.len() as int)).len() as usize,
                        },
                    )
                } else {
                    None
                }
            },
            None => None,
        }
    }
}

/// Whether a template compiles.
pub open spec fn template_valid(t: Seq<char>, for_prefix: bool, slash: bool) -> bool {
    compile_spec(t, for_prefix, slash) is Some
}

/// What a `ResourcePattern` is: its matcher, its resource type and its
/// template (with the leading slash it was given).
pub struct PatternModel {
    pub matcher: MatcherModel,
    pub rtype: ResourceType,
    pub template: Seq<char>,
}

/// A route template compiled into a matcher.
pub struct ResourcePattern {
    tp: PatternType,
    rtp: ResourceType,
    pattern: String,
}

impl View for ResourcePattern {
    type V = PatternModel;

    closed spec fn view(&self) -> PatternModel {
        PatternModel {
            matcher: match self.tp {
                PatternType::Static(s) => MatcherModel::Static(s@),
                PatternType::Prefix(s) => MatcherModel::Prefix(s@),
                PatternType::Dynamic(re, names, len) => MatcherModel::Dynamic {
                    source: re.source(),
                    names: names_view(names@),
                    trailing: len,
                },
            },
            rtype: self.rtp,
            template: self.pattern@,
        }
    }
}

/// The template with a leading slash where `slash` asks for one.
fn with_slash(path: &str, slash: bool) -> (r: String)
    ensures
        r@ == normalized(path@, slash),
{
    if slash && !(path.unicode_len() > 0 && path.get_char(0) == '/') {
        let mut p = "/".to_owned();
        p.append(path);
        proof {
            reveal_strlit("/");
            assert(p@ =~= seq!['/'] + path@);
        }
        p
    } else {
        path.to_owned()
    }
}

impl ResourcePattern {
    /// Compiles `path`, with a leading slash put in front where `slash` asks
    /// for one, into a prefix matcher if `for_prefix` holds and the template
    /// has no segment, a static one if neither, and a regex one (anchored at
    /// the end unless `for_prefix`) where it has segments. `None` where the
    /// template does not compile.
    pub fn try_with_prefix(path: &str, for_prefix: bool, slash: bool) -> (r: Option<Self>)
        ensures
            r is Some <==> template_valid(path@, for_prefix, slash),
            r matches Some(p) ==> p@ == (PatternModel {
                matcher: compile_spec(path@, for_prefix, slash)->Some_0,
                rtype: ResourceType::Normal,
                template: normalized(path@, slash),
            }),
    {
        let p = with_slash(path, slash);
        let parsed = parse(p.as_str());
        match parsed {
            None => None,
            Some((body, dynamic, lit)) => {
                let tp = if dynamic {
                    let mut src = "^".to_owned();
                    src.append(body.as_str());
                    if !for_prefix {
                        src.append("$");
                    }
                    let compiled = CompiledRegex::compile(&src);
                    match compiled {
                        None => {
                            return None;
                        },
                        Some(re) => {
                            let names = re.capture_names();
                            let n = p.as_str().unicode_len();
                            let trailing = p.as_str().substring_char(lit, n).as_bytes().len();
                            PatternType::Dynamic(re, names, trailing)
                        },
                    }
                } else if for_prefix {
                    PatternType::Prefix(p.clone())
                } else {
                    PatternType::Static(p.clone())
                };
                Some(ResourcePattern { tp, rtp: ResourceType::Normal, pattern: p })
            },
        }
    }
}

/// Whether the bytes `s` end with a `/`.
pub open spec fn ends_with_slash(s: Seq<u8>) -> bool {
    s.len() > 0 && s[s.len() - 1] == 47u8
}

/// Where a prefix pattern `s` stops matching the path `p`, both as bytes:
/// `p` must equal `s`, or start with it where `s` ends with `/` or `p`
/// goes on with `/`. A trailing `/` of `s` is not counted.
pub open spec fn prefix_end(s: Seq<u8>, p: Seq<u8>) -> Option<int> {
    if p == s {
        Some(s.len() as int)
    } else if has_prefix(p, s) && (ends_with_slash(s) || (p.len() > s.len() && p[s.len() as int]
        == 47u8)) {
        Some(
            if ends_with_slash(s) {
                s.len() - 1
            } else {
                s.len() as int
            },
        )
    } else {
        None
    }
}

/// Whether a matcher accepts a path.
pub open spec fn matches_path(m: MatcherModel, path: Seq<char>) -> bool {
    match m {
        MatcherModel::Static(s) => path == s,
        MatcherModel::Prefix(s) => prefix_end(bytes_of(s), bytes_of(path)) is Some,
        MatcherModel::Dynamic { source, .. } => captures_of(source, path) is Some,
    }
}

/// The parameters that groups `1..n` of a match give: one for each group
/// that took part and has a name, its span moved by `plen` bytes.
pub open spec fn group_params(
    groups: Seq<Option<(usize, usize)>>,
    names: Seq<Option<Seq<char>>>,
    plen: int,
    n: int,
) -> Seq<(Seq<char>, ParamValue)>
    decreases n,
{
    if n <= 1 {
        Seq::empty()
    } else {
        let prev = group_params(groups, names, plen, n - 1);
        let j = n - 1;
        if j < groups.len() && groups[j] is Some && j < names.len() && names[j] is Some {
            prev.push(
                (
                    names[j]->Some_0,
                    ParamValue::Span(
                        (plen + groups[j]->Some_0.0) as nat,
                        (plen + groups[j]->Some_0.1) as nat,
                    ),
                ),
            )
        } else {
            prev
        }
    }
}

/// The part of `path` after its first `plen` bytes.
pub open spec fn rest_of(path: Seq<char>, plen: int) -> Seq<char> {
    byte_slice(path, plen, bytes_of(path).len() as int)
}

/// An empty set of parameters over `path` with the given tail.
pub open spec fn no_params(path: Seq<char>, tail: usize) -> ParamsModel {
    ParamsModel { path, tail, segments: Seq::empty() }
}

/// What `match_with_params` gives for the path after its first `plen` bytes.
pub open spec fn match_spec(m: MatcherModel, path: Seq<char>, plen: int) -> Option<ParamsModel> {
    let rest = rest_of(path, plen);
    if !at_boundary(path, plen) {
        None
    } else {
        match m {
        MatcherModel::Static(s) => if rest == s {
            Some(no_params(path, 0))
        } else {
            None
        },
        MatcherModel::Prefix(s) => if prefix_end(bytes_of(s), bytes_of(rest)) is Some {
            Some(no_params(path, 0))
        } else {
            None
        },
        MatcherModel::Dynamic { source, names, .. } => match captures_of(source, rest) {
            Some(g) => Some(
                ParamsModel {
                    path,
                    tail: bytes_of(path).len() as usize,
                    segments: group_params(g, names, plen, g.len() as int),
                },
            ),
            None => None,
        },
        }
    }
}

/// Where a prefix pattern `s` stops matching `p`.
fn prefix_len(s: &str, p: &str) -> (r: Option<usize>)
    ensures
        match prefix_end(bytes_of(s@), bytes_of(p@)) {
            Some(k) => r matches Some(x) && x as int == k,
            None => r is None,
        },
{
    proof {
        lemma_bytes_injective(s@, p@);
    }
    let sl = byte_len(s);
    let ends_slash = sl > 0 && byte_at(s, sl - 1) == 47u8;
    if same_text(p, s) {
        Some(sl)
    } else if starts_with_text(p, s) && (ends_slash || (byte_len(p) > sl && byte_at(p, sl) == 47u8)) {
        if ends_slash {
            Some(sl - 1)
        } else {
            Some(sl)
        }
    } else {
        None
    }
}

impl ResourcePattern {
    /// Compiles a template; see `try_with_prefix`.
    pub fn with_prefix(path: &str, for_prefix: bool, slash: bool) -> (r: Self)
        requires
            template_valid(path@, for_prefix, slash),
        ensures
            r@ == (PatternModel {
                matcher: compile_spec(path@, for_prefix, slash)->Some_0,
                rtype: ResourceType::Normal,
                template: normalized(path@, slash),
            }),
    {
        match Self::try_with_prefix(path, for_prefix, slash) {
            Some(p) => p,
            None => vstd::pervasive::unreached(),
        }
    }

    /// Compiles a template that must match whole paths; a leading slash is
    /// put in front of a non-empty template that lacks one.
    pub fn new(path: &str) -> (r: Self)
        requires
            template_valid(path@, false, path@.len() > 0),
        ensures
            r@ == (PatternModel {
                matcher: compile_spec(path@, false, path@.len() > 0)->Some_0,
                rtype: ResourceType::Normal,
                template: normalized(path@, path@.len() > 0),
            }),
    {
        Self::with_prefix(path, false, !path.is_empty())
    }

    /// Compiles a template that matches path prefixes; a leading slash is
    /// put in front of a non-empty template that lacks one.
    pub fn prefix(path: &str) -> (r: Self)
        requires
            template_valid(path@, true, path@.len() > 0),
        ensures
            r@ == (PatternModel {
                matcher: compile_spec(path@, true, path@.len() > 0)->Some_0,
                rtype: ResourceType::Normal,
                template: normalized(path@, path@.len() > 0),
            }),
    {
        Self::with_prefix(path, true, !path.is_empty())
    }

    /// Compiles the template of an external resource, taken as it is.
    pub fn external(path: &str) -> (r: Self)
        requires
            template_valid(path@, false, false),
        ensures
            r@ == (PatternModel {
                matcher: compile_spec(path@, false, false)->Some_0,
                rtype: ResourceType::External,
                template: path@,
            }),
    {
        let mut resource = Self::with_prefix(path, false, false);
        resource.rtp = ResourceType::External;
        resource
    }

    /// `new`, or `None` where the template does not compile.
    pub fn try_new(path: &str) -> (r: Option<Self>)
        ensures
            r is Some <==> template_valid(path@, false, path@.len() > 0),
            r matches Some(p) ==> p@ == (PatternModel {
                matcher: compile_spec(path@, false, path@.len() > 0)->Some_0,
                rtype: ResourceType::Normal,
                template: normalized(path@, path@.len() > 0),
            }),
    {
        match Self::try_with_prefix(path, false, !path.is_empty()) {
            Some(_) => Some(Self::new(path)),
            None => None,
        }
    }

    /// `prefix`, or `None` where the template does not compile.
    pub fn try_prefix(path: &str) -> (r: Option<Self>)
        ensures
            r is Some <==> template_valid(path@, true, path@.len() > 0),
            r matches Some(p) ==> p@ == (PatternModel {
                matcher: compile_spec(path@, true, path@.len() > 0)->Some_0,
                rtype: ResourceType::Normal,
                template: normalized(path@, path@.len() > 0),
            }),
    {
        match Self::try_with_prefix(path, true, !path.is_empty()) {
            Some(_) => Some(Self::prefix(path)),
            None => None,
        }
    }

    /// `external`, or `None` where the template does not compile.
    pub fn try_external(path: &str) -> (r: Option<Self>)
        ensures
            r is Some <==> template_valid(path@, false, false),
            r matches Some(p) ==> p@ == (PatternModel {
                matcher: compile_spec(path@, false, false)->Some_0,
                rtype: ResourceType::External,
                template: path@,
            }),
    {
        match Self::try_with_prefix(path, false, false) {
            Some(_) => Some(Self::external(path)),
            None => None,
        }
    }

    /// The resource type.
    pub fn rtype(&self) -> (r: ResourceType)
        ensures
            r == self@.rtype,
    {
        self.rtp
    }

    /// The template of the resource.
    pub fn pattern(&self) -> (r: &str)
        ensures
            r@ == self@.template,
    {
        self.pattern.as_str()
    }

    /// Whether `path` matches this pattern: equal to a static template,
    /// starting at a `/` boundary with a prefix template, or matching the
    /// regex of a template with segments.
    pub fn is_match(&self, path: &str) -> (r: bool)
        ensures
            r == matches_path(self@.matcher, path@),
    {
        match &self.tp {
            PatternType::Static(s) => same_text(s.as_str(), path),
            PatternType::Prefix(s) => prefix_len(s.as_str(), path).is_some(),
            PatternType::Dynamic(re, _, _) => re.captures(path).is_some(),
        }
    }

    /// Adds to `params` the named groups `1..` of a match found in the part
    /// of the path after its first `plen` bytes.
    fn add_groups(
        params: &mut Params,
        groups: &Vec<Option<(usize, usize)>>,
        names: &Vec<Option<String>>,
        plen: usize,
    )
        requires
            model_valid(old(params)@),
            bytes_of(old(params)@.path).len() <= usize::MAX,
            at_boundary(old(params)@.path, plen as int),
            spans_in_bounds(groups@, (bytes_of(old(params)@.path).len() - plen) as nat),
            forall|i: int|
                0 <= i < groups@.len() && (#[trigger] groups@[i]) is Some ==> {
                    &&& is_char_boundary(
                        bytes_of(rest_of(old(params)@.path, plen as int)),
                        groups@[i]->Some_0.0 as int,
                    )
                    &&& is_char_boundary(
                        bytes_of(rest_of(old(params)@.path, plen as int)),
                        groups@[i]->Some_0.1 as int,
                    )
                },
            bytes_of(rest_of(old(params)@.path, plen as int)) == bytes_of(old(params)@.path).subrange(
                plen as int,
                bytes_of(old(params)@.path).len() as int,
            ),
        ensures
            model_valid(final(params)@),
            final(params)@ == (ParamsModel {
                segments: old(params)@.segments + group_params(
                    groups@,
                    names_view(names@),
                    plen as int,
                    groups@.len() as int,
                ),
                ..old(params)@
            }),
    {
        let ghost path = params@.path;
        let ghost b = bytes_of(path);
        let ghost start = params@;
        let mut i: usize = 1;
        proof {
            lemma_bytes_valid(path);
            assert(start.segments + group_params(groups@, names_view(names@), plen as int, 1)
                =~= start.segments);
        }
        while i < groups.len()
            invariant
                1 <= i <= groups@.len(),
                model_valid(params@),
                params@.path == path,
                b == bytes_of(path),
                b.len() <= usize::MAX,
                valid_utf8(b),
                is_char_boundary(b, plen as int),
                plen <= b.len(),
                spans_in_bounds(groups@, (b.len() - plen) as nat),
                forall|i: int|
                    0 <= i < groups@.len() && (#[trigger] groups@[i]) is Some ==> {
                        &&& is_char_boundary(
                            b.subrange(plen as int, b.len() as int),
                            groups@[i]->Some_0.0 as int,
                        )
                        &&& is_char_boundary(
                            b.subrange(plen as int, b.len() as int),
                            groups@[i]->Some_0.1 as int,
                        )
                    },
                params@ == (ParamsModel {
                    segments: start.segments + group_params(
                        groups@,
                        names_view(names@),
                        plen as int,
                        i as int,
                    ),
                    ..start
                }),
            decreases groups@.len() - i,
        {
            let ghost before = params@;
            match groups[i] {
                Some((s, e)) => {
                    if i < names.len() {
                        match &names[i] {
                            Some(name) => {
                                proof {
                                    assert(groups@[i as int] is Some);
                                    lemma_boundary_from_suffix(b, plen as int, s as int);
                                    lemma_boundary_from_suffix(b, plen as int, e as int);
                                }
                                params.add(name.clone(), ParamItem::UrlSegment(plen + s, plen + e));
                                proof {
                                    assert(params@.segments =~= start.segments + group_params(
                                        groups@,
                                        names_view(names@),
                                        plen as int,
                                        i + 1,
                                    ));
                                }
                            },
                            None => {},
                        }
                    }
                },
                None => {},
            }
            i = i + 1;
        }
    }

    /// Matches the part of the request path after its first `plen` bytes;
    /// no match where `plen` does not fall on a character boundary of the
    /// path. Spans of the parameters are offsets into the whole path.
    pub fn match_with_params(&self, path: &str, plen: usize) -> (r: Option<Params>)
        ensures
            match match_spec(self@.matcher, path@, plen as int) {
                Some(m) => r matches Some(p) && p@ == m && model_valid(p@),
                None => r is None,
            },
    {
        if !(plen <= byte_len(path) && path.is_char_boundary(plen)) {
            return None;
        }
        let rest = suffix_from(path, plen);
        match &self.tp {
            PatternType::Static(s) => {
                if same_text(s.as_str(), rest) {
                    Some(Params::with_path(path))
                } else {
                    None
                }
            },
            PatternType::Prefix(s) => {
                if prefix_len(s.as_str(), rest).is_some() {
                    Some(Params::with_path(path))
                } else {
                    None
                }
            },
            PatternType::Dynamic(re, names, _) => {
                match re.captures(rest) {
                    Some(groups) => {
                        let mut params = Params::with_path(path);
                        Self::add_groups(&mut params, &groups, names, plen);
                        let n = byte_len(path);
                        proof {
                            lemma_ends_are_boundaries(path@);
                        }
                        params.set_tail(n);
                        proof {
                            assert(params@.segments =~= group_params(
                                groups@,
                                names_view(names@),
                                plen as int,
                                groups@.len() as int,
                            ));
                        }
                        Some(params)
                    },
                    None => None,
                }
            },
        }
    }
}

/// The path a prefix match looks at: the rest of the path, or `/` where
/// nothing is left.
pub open spec fn prefix_rest(path: Seq<char>, plen: int) -> Seq<char> {
    let r = rest_of(path, plen);
    if r.len() == 0 {
        "/"@
    } else {
        r
    }
}

/// The end of the last group among `1..n` that took part in a match, or 0.
pub open spec fn last_group_end(groups: Seq<Option<(usize, usize)>>, n: int) -> int
    decreases n,
{
    if n <= 1 || n > groups.len() {
        0
    } else if groups[n - 1] is Some {
        groups[n - 1]->Some_0.1 as int
    } else {
        last_group_end(groups, n - 1)
    }
}

/// Whether every parameter refers to a valid part of `path`.
pub open spec fn segments_fit(path: Seq<char>, segs: Seq<(Seq<char>, ParamValue)>) -> bool {
    forall|i: int| 0 <= i < segs.len() ==> item_valid(path, #[trigger] segs[i].1)
}

/// What `match_prefix_with_params` gives: like `match_spec`, on the rest of
/// the path (`/` where nothing is left), and with the tail set where the
/// match stops. A regex match whose spans or tail fall outside the path
/// (the `/` that stands for an empty rest can cause that) gives `None`.
pub open spec fn match_prefix_spec(m: MatcherModel, path: Seq<char>, plen: int) -> Option<
    ParamsModel,
> {
    let rest = prefix_rest(path, plen);
    let n = bytes_of(path).len() as int;
    if !at_boundary(path, plen) {
        None
    } else {
        match m {
        MatcherModel::Static(s) => if rest == s {
            Some(no_params(path, n as usize))
        } else {
            None
        },
        MatcherModel::Prefix(s) => match prefix_end(bytes_of(s), bytes_of(rest)) {
            Some(k) => Some(
                no_params(
                    path,
                    if plen + k <= n {
                        (plen + k) as usize
                    } else {
                        n as usize
                    },
                ),
            ),
            None => None,
        },
        MatcherModel::Dynamic { source, names, trailing } => match captures_of(source, rest) {
            Some(g) => {
                let segs = group_params(g, names, plen, g.len() as int);
                let tail = plen + last_group_end(g, g.len() as int) + trailing;
                if segments_fit(path, segs) && at_boundary(path, tail) {
                    Some(ParamsModel { path, tail: tail as usize, segments: segs })
                } else {
                    None
                }
            },
            None => None,
        },
        }
    }
}

proof fn lemma_group_params_prefix(
    groups: Seq<Option<(usize, usize)>>,
    names: Seq<Option<Seq<char>>>,
    plen: int,
    m: int,
    n: int,
)
    requires
        m <= n,
    ensures
        group_params(groups, names, plen, m).len() <= group_params(groups, names, plen, n).len(),
        forall|i: int|
            0 <= i < group_params(groups, names, plen, m).len() ==> group_params(
                groups,
                names,
                plen,
                n,
            )[i] == #[trigger] group_params(groups, names, plen, m)[i],
    decreases n - m,
{
    if m < n {
        lemma_group_params_prefix(groups, names, plen, m, n - 1);
    }
}

/// The rest of a path after a boundary is encoded by the rest of its bytes.
proof fn lemma_rest_bytes(path: Seq<char>, plen: int)
    requires
        at_boundary(path, plen),
    ensures
        bytes_of(rest_of(path, plen)) == bytes_of(path).subrange(plen, bytes_of(path).len() as int),
{
    let b = bytes_of(path);
    lemma_bytes_valid(path);
    vstd::utf8::valid_utf8_split(b, plen);
    vstd::utf8::decode_utf8_encode_utf8(b.subrange(plen, b.len() as int));
}

/// Where a prefix pattern stops matching lies on a boundary of the path.
proof fn lemma_prefix_tail(s: Seq<char>, path: Seq<char>, plen: int, k: int)
    requires
        at_boundary(path, plen),
        prefix_end(bytes_of(s), bytes_of(prefix_rest(path, plen))) == Some(k),
    ensures
        at_boundary(
            path,
            if plen + k <= bytes_of(path).len() {
                plen + k
            } else {
                bytes_of(path).len() as int
            },
        ),
{
    let b = bytes_of(path);
    let n = b.len() as int;
    lemma_bytes_valid(path);
    lemma_ends_are_boundaries(path);
    lemma_rest_bytes(path, plen);
    let rest = rest_of(path, plen);
    if rest.len() == 0 {
        assert(bytes_of(rest) =~= Seq::<u8>::empty());
        assert(plen == n);
    } else {
        let p = bytes_of(rest);
        let sb = bytes_of(s);
        if plen + k != n {
            if p == sb {
            } else if ends_with_slash(sb) {
                assert(p.subrange(0, sb.len() as int)[k] == p[k]);
            }
            assert(p[k] == 47u8);
            lemma_ascii_byte_is_boundary(rest, k);
            lemma_boundary_from_suffix(b, plen, k);
        }
    }
}

/// The byte offset where a prefix pattern stops matching, put inside the path.
fn clamp_tail(plen: usize, k: usize, n: usize) -> (r: usize)
    requires
        plen <= n,
    ensures
        r == if plen + k <= n {
            plen + k
        } else {
            n as int
        },
{
    if k <= n - plen {
        plen + k
    } else {
        n
    }
}

impl ResourcePattern {
    /// Adds to `params` the named groups `1..` of a match found after the
    /// first `plen` bytes of the path, where all their spans fit in the path;
    /// also gives the end of the last group that took part.
    fn add_groups_checked(
        params: &mut Params,
        groups: &Vec<Option<(usize, usize)>>,
        names: &Vec<Option<String>>,
        plen: usize,
        path: &str,
    ) -> (r: (bool, usize))
        requires
            model_valid(old(params)@),
            old(params)@.path == path@,
            old(params)@.segments == Seq::<(Seq<char>, ParamValue)>::empty(),
            plen <= bytes_of(path@).len(),
            groups@.len() >= 1,
        ensures
            r.0 == segments_fit(
                path@,
                group_params(groups@, names_view(names@), plen as int, groups@.len() as int),
            ),
            r.0 ==> r.1 == last_group_end(groups@, groups@.len() as int),
            r.0 ==> model_valid(final(params)@) && final(params)@ == (ParamsModel {
                segments: group_params(
                    groups@,
                    names_view(names@),
                    plen as int,
                    groups@.len() as int,
                ),
                ..old(params)@
            }),
    {
        let ghost start = params@;
        let n = byte_len(path);
        let mut pos: usize = 0;
        let mut i: usize = 1;
        proof {
            assert(group_params(groups@, names_view(names@), plen as int, 1) =~= Seq::empty());
        }
        while i < groups.len()
            invariant
                1 <= i <= groups@.len(),
                n == bytes_of(path@).len(),
                plen <= n,
                model_valid(params@),
                params@ == (ParamsModel {
                    segments: group_params(groups@, names_view(names@), plen as int, i as int),
                    ..start
                }),
                start.path == path@,
                pos == last_group_end(groups@, i as int),
            decreases groups@.len() - i,
        {
            match groups[i] {
                Some((s, e)) => {
                    pos = e;
                    if i < names.len() {
                        match &names[i] {
                            Some(name) => {
                                let fits = s <= e && e <= n - plen && path.is_char_boundary(
                                    plen + s,
                                ) && path.is_char_boundary(plen + e);
                                let ghost next = group_params(
                                    groups@,
                                    names_view(names@),
                                    plen as int,
                                    i + 1,
                                );
                                proof {
                                    assert(names_view(names@)[i as int] == Some(name@));
                                    assert(groups@[i as int] == Some((s, e)));
                                }
                                if !fits {
                                    proof {
                                        lemma_group_params_prefix(
                                            groups@,
                                            names_view(names@),
                                            plen as int,
                                            i + 1,
                                            groups@.len() as int,
                                        );
                                        let k = next.len() - 1;
                                        assert(!item_valid(path@, next[k].1));
                                    }
                                    return (false, pos);
                                }
                                params.add(name.clone(), ParamItem::UrlSegment(plen + s, plen + e));
                                proof {
                                    assert(params@.segments =~= next);
                                }
                            },
                            None => {},
                        }
                    }
                },
                None => {},
            }
            i = i + 1;
        }
        proof {
            let segs = params@.segments;
            assert forall|j: int| 0 <= j < segs.len() implies item_valid(path@, #[trigger] segs[j].1) by {
                assert(item_valid(params@.path, params@.segments[j].1));
            }
        }
        (true, pos)
    }

    /// Matches the part of the request path after its first `plen` bytes
    /// (`/` where nothing is left), as a prefix: also sets where the
    /// unconsumed tail of the path begins, for a nested router to go on.
    /// No match where `plen` does not fall on a character boundary.
    pub fn match_prefix_with_params(&self, path: &str, plen: usize) -> (r: Option<Params>)
        ensures
            match match_prefix_spec(self@.matcher, path@, plen as int) {
                Some(m) => r matches Some(p) && p@ == m && model_valid(p@),
                None => r is None,
            },
    {
        let n = byte_len(path);
        if !(plen <= n && path.is_char_boundary(plen)) {
            return None;
        }
        let rest0 = suffix_from(path, plen);
        let rest = if rest0.is_empty() {
            "/"
        } else {
            rest0
        };
        proof {
            lemma_ends_are_boundaries(path@);
            assert(rest@ == prefix_rest(path@, plen as int));
        }
        match &self.tp {
            PatternType::Static(s) => {
                if same_text(s.as_str(), rest) {
                    let mut params = Params::with_path(path);
                    params.set_tail(n);
                    Some(params)
                } else {
                    None
                }
            },
            PatternType::Prefix(s) => {
                match prefix_len(s.as_str(), rest) {
                    Some(k) => {
                        let tail = clamp_tail(plen, k, n);
                        proof {
                            lemma_prefix_tail(s@, path@, plen as int, k as int);
                        }
                        let mut params = Params::with_path(path);
                        params.set_tail(tail);
                        Some(params)
                    },
                    None => None,
                }
            },
            PatternType::Dynamic(re, names, trailing) => {
                match re.captures(rest) {
                    Some(groups) => {
                        let mut params = Params::with_path(path);
                        let (fits, pos) = Self::add_groups_checked(
                            &mut params,
                            &groups,
                            names,
                            plen,
                            path,
                        );
                        if !fits {
                            return None;
                        }
                        if pos > n - plen || *trailing > n - plen - pos {
                            return None;
                        }
                        let tail = plen + pos + *trailing;
                        if !path.is_char_boundary(tail) {
                            return None;
                        }
                        params.set_tail(tail);
                        Some(params)
                    },
                    None => None,
                }
            },
        }
    }
}

/// Where a whole path stops matching a pattern, as `is_prefix_match`
/// reports it: the empty path is taken as `/`; a static pattern gives the
/// path's length, a prefix pattern the end of its literal (within the
/// path's length), and a regex pattern the path's length plus the end of
/// its last group that took part plus the template's final literal.
pub open spec fn prefix_match_spec(m: MatcherModel, path: Seq<char>) -> Option<int> {
    let plen = bytes_of(path).len() as int;
    let p = if path.len() == 0 {
        "/"@
    } else {
        path
    };
    match m {
        MatcherModel::Static(s) => if s == p {
            Some(plen)
        } else {
            None
        },
        MatcherModel::Prefix(s) => match prefix_end(bytes_of(s), bytes_of(p)) {
            Some(k) => Some(
                if plen <= k {
                    plen
                } else {
                    k
                },
            ),
            None => None,
        },
        MatcherModel::Dynamic { source, trailing, .. } => match captures_of(source, p) {
            Some(g) => Some(plen + last_group_end(g, g.len() as int) + trailing),
            None => None,
        },
    }
}

/// The end of the last group among `1..` that took part in a match.
fn last_end(groups: &Vec<Option<(usize, usize)>>) -> (r: usize)
    ensures
        r == last_group_end(groups@, groups@.len() as int),
{
    let mut pos: usize = 0;
    let mut i: usize = 1;
    while i < groups.len()
        invariant
            groups@.len() == 0 ==> i == 1,
            1 <= i,
            groups@.len() > 0 ==> i <= groups@.len(),
            pos == last_group_end(groups@, i as int),
        decreases groups@.len() - i,
    {
        match groups[i] {
            Some((_, e)) => {
                pos = e;
            },
            None => {},
        }
        i = i + 1;
    }
    pos
}

impl ResourcePattern {
    /// Where the whole of `path` stops matching this pattern; `None` where
    /// it does not match, or where that offset would not fit in a `usize`.
    pub fn is_prefix_match(&self, path: &str) -> (r: Option<usize>)
        ensures
            match prefix_match_spec(self@.matcher, path@) {
                Some(v) => if v <= usize::MAX {
                    r == Some(v as usize)
                } else {
                    r is None
                },
                None => r is None,
            },
    {
        let plen = byte_len(path);
        let p = if path.is_empty() {
            "/"
        } else {
            path
        };
        match &self.tp {
            PatternType::Static(s) => {
                if same_text(s.as_str(), p) {
                    Some(plen)
                } else {
                    None
                }
            },
            PatternType::Prefix(s) => {
                match prefix_len(s.as_str(), p) {
                    Some(k) => {
                        if plen <= k {
                            Some(plen)
                        } else {
                            Some(k)
                        }
                    },
                    None => None,
                }
            },
            PatternType::Dynamic(re, _, trailing) => {
                match re.captures(p) {
                    Some(groups) => {
                        let pos = last_end(&groups);
                        if pos > usize::MAX - plen || *trailing > usize::MAX - plen - pos {
                            None
                        } else {
                            Some(plen + pos + *trailing)
                        }
                    },
                    None => None,
                }
            },
        }
    }
}

/// A template without segments compiles to a static matcher, which accepts
/// exactly its own (slash-normalized) template: `/name` and `/name/` differ.
pub proof fn lemma_static_match_is_equality(t: Seq<char>, path: Seq<char>)
    requires
        !has_segment(normalized(t, t.len() > 0)),
    ensures
        compile_spec(t, false, t.len() > 0) == Some(
            MatcherModel::Static(normalized(t, t.len() > 0)),
        ),
        matches_path(compile_spec(t, false, t.len() > 0)->Some_0, path) == (path == normalized(
            t,
            t.len() > 0,
        )),
{
}

/// A prefix pattern accepts a path that starts with its literal at a `/`
/// boundary (the path equals it, goes on with `/`, or the literal ends with
/// `/`), and refuses one that merely shares the literal without a boundary.
pub proof fn lemma_prefix_match_at_boundary(t: Seq<char>, path: Seq<char>)
    requires
        !has_segment(normalized(t, t.len() > 0)),
    ensures
        ({
            let s = bytes_of(normalized(t, t.len() > 0));
            let p = bytes_of(path);
            &&& compile_spec(t, true, t.len() > 0) == Some(
                MatcherModel::Prefix(normalized(t, t.len() > 0)),
            )
            &&& has_prefix(p, s) && (p.len() == s.len() || p[s.len() as int] == 47u8
                || ends_with_slash(s)) ==> matches_path(compile_spec(t, true, t.len() > 0)->Some_0, path)
            &&& has_prefix(p, s) && p.len() > s.len() && p[s.len() as int] != 47u8 && !ends_with_slash(s)
                ==> !matches_path(compile_spec(t, true, t.len() > 0)->Some_0, path)
        }),
{
    let s = bytes_of(normalized(t, t.len() > 0));
    let p = bytes_of(path);
    if has_prefix(p, s) && p.len() == s.len() {
        assert(p =~= p.subrange(0, s.len() as int));
    }
}

/// Compiling a template is deterministic: two patterns compiled from the
/// same template accept the same paths and extract the same parameters.
pub proof fn lemma_compile_deterministic(
    a: ResourcePattern,
    b: ResourcePattern,
    t: Seq<char>,
    for_prefix: bool,
    slash: bool,
    path: Seq<char>,
    plen: int,
)
    requires
        template_valid(t, for_prefix, slash),
        a@.matcher == compile_spec(t, for_prefix, slash)->Some_0,
        b@.matcher == compile_spec(t, for_prefix, slash)->Some_0,
    ensures
        matches_path(a@.matcher, path) == matches_path(b@.matcher, path),
        match_spec(a@.matcher, path, plen) == match_spec(b@.matcher, path, plen),
        match_prefix_spec(a@.matcher, path, plen) == match_prefix_spec(b@.matcher, path, plen),
{
}

/// The template of a pattern without segments, used as a path, matches
/// the pattern it compiled to.
pub proof fn lemma_template_rematches(t: Seq<char>, for_prefix: bool)
    requires
        !has_segment(normalized(t, t.len() > 0)),
    ensures
        matches_path(
            compile_spec(t, for_prefix, t.len() > 0)->Some_0,
            normalized(t, t.len() > 0),
        ),
{
}

} // verus!
