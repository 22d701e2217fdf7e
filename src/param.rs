//! Match information: the parameters that a path pattern extracted from a
//! request path, kept as byte spans into that path.
use vstd::prelude::*;

use crate::text::{at_boundary, byte_slice, bytes_of, lemma_ends_are_boundaries, same_text, slice_between, suffix_from};

verus! {

/// The value of one parameter.
pub enum ParamItem {
    /// A fixed text.
    Static(String),
    /// The bytes `start..end` of the matched path.
    UrlSegment(usize, usize),
}

/// What a parameter's value is, in the model.
pub enum ParamValue {
    Text(Seq<char>),
    Span(nat, nat),
}

/// The model of an item.
pub open spec fn item_view(item: ParamItem) -> ParamValue {
    match item {
        ParamItem::Static(s) => ParamValue::Text(s@),
        ParamItem::UrlSegment(s, e) => ParamValue::Span(s as nat, e as nat),
    }
}

/// What a `Params` holds: the path it refers to, where the unprocessed
/// tail of that path begins, and the parameters in the order they were added.
pub struct ParamsModel {
    pub path: Seq<char>,
    pub tail: usize,
    pub segments: Seq<(Seq<char>, ParamValue)>,
}

/// Whether an item refers to a valid part of `path`.
pub open spec fn item_valid(path: Seq<char>, item: ParamValue) -> bool {
    match item {
        ParamValue::Text(_) => true,
        ParamValue::Span(s, e) => s <= e && at_boundary(path, s as int) && at_boundary(
            path,
            e as int,
        ),
    }
}

/// The text that an item stands for in `path`.
pub open spec fn item_text(path: Seq<char>, item: ParamValue) -> Seq<char> {
    match item {
        ParamValue::Text(s) => s,
        ParamValue::Span(s, e) => byte_slice(path, s as int, e as int),
    }
}

/// Every span and the tail lie on character boundaries of the path.
pub open spec fn model_valid(m: ParamsModel) -> bool {
    &&& at_boundary(m.path, m.tail as int)
    &&& forall|i: int| 0 <= i < m.segments.len() ==> item_valid(m.path, #[trigger] m.segments[i].1)
}

/// The index of the first parameter named `key` at or after `from`.
pub open spec fn find_name(segs: Seq<(Seq<char>, ParamValue)>, key: Seq<char>, from: int) -> Option<
    int,
>
    decreases segs.len() - from,
{
    if from < 0 || from >= segs.len() {
        None
    } else if segs[from].0 == key {
        Some(from)
    } else {
        find_name(segs, key, from + 1)
    }
}

/// The value that `get` gives for `key`: the first parameter of that name,
/// else, for the name `tail`, the unprocessed part of the path.
pub open spec fn lookup(m: ParamsModel, key: Seq<char>) -> Option<Seq<char>> {
    match find_name(m.segments, key, 0) {
        Some(i) => Some(item_text(m.path, m.segments[i].1)),
        None => if key == "tail"@ {
            Some(byte_slice(m.path, m.tail as int, bytes_of(m.path).len() as int))
        } else {
            None
        },
    }
}

/// Route match information: the parameters extracted from a path.
pub struct Params {
    path: String,
    tail: usize,
    segments: Vec<(String, ParamItem)>,
}

impl View for Params {
    type V = ParamsModel;

    closed spec fn view(&self) -> ParamsModel {
        ParamsModel {
            path: self.path@,
            tail: self.tail,
            segments: self.segments@.map_values(|p: (String, ParamItem)| (p.0@, item_view(p.1))),
        }
    }
}

proof fn lemma_find_name_skip(segs: Seq<(Seq<char>, ParamValue)>, key: Seq<char>, i: int)
    requires
        0 <= i <= segs.len(),
        forall|j: int| 0 <= j < i ==> segs[j].0 != key,
    ensures
        find_name(segs, key, 0) == find_name(segs, key, i),
    decreases i,
{
    if i > 0 {
        lemma_find_name_skip(segs, key, i - 1);
    }
}

impl Params {
    /// An empty set of parameters over the empty path.
    pub fn new() -> (r: Params)
        ensures
            r@.path.len() == 0,
            r@.tail == 0,
            r@.segments == Seq::<(Seq<char>, ParamValue)>::empty(),
            model_valid(r@),
    {
        let r = Params { path: String::new(), tail: 0, segments: Vec::new() };
        proof {
            lemma_ends_are_boundaries(r.path@);
            assert(r@.segments =~= Seq::empty());
        }
        r
    }

    /// An empty set of parameters over `path`.
    pub fn with_path(path: &str) -> (r: Params)
        ensures
            r@.path == path@,
            r@.tail == 0,
            r@.segments == Seq::<(Seq<char>, ParamValue)>::empty(),
            model_valid(r@),
    {
        let r = Params { path: path.to_owned(), tail: 0, segments: Vec::new() };
        proof {
            lemma_ends_are_boundaries(r.path@);
            assert(r@.segments =~= Seq::empty());
        }
        r
    }

    /// Drops every parameter.
    pub fn clear(&mut self)
        requires
            model_valid(old(self)@),
        ensures
            model_valid(final(self)@),
            final(self)@.path == old(self)@.path,
            final(self)@.tail == old(self)@.tail,
            final(self)@.segments.len() == 0,
    {
        self.segments = Vec::new();
        proof {
            assert(self@.segments =~= Seq::empty());
        }
    }

    /// Sets where the unprocessed tail of the path begins.
    pub fn set_tail(&mut self, tail: usize)
        requires
            model_valid(old(self)@),
            at_boundary(old(self)@.path, tail as int),
        ensures
            model_valid(final(self)@),
            final(self)@ == (ParamsModel { tail, ..old(self)@ }),
    {
        self.tail = tail;
    }

    /// Adds a parameter after the present ones.
    pub fn add(&mut self, name: String, value: ParamItem)
        requires
            model_valid(old(self)@),
            item_valid(old(self)@.path, item_view(value)),
        ensures
            model_valid(final(self)@),
            final(self)@ == (ParamsModel {
                segments: old(self)@.segments.push((name@, item_view(value))),
                ..old(self)@
            }),
    {
        self.segments.push((name, value));
        proof {
            assert(self@.segments =~= old(self)@.segments.push((name@, item_view(value))));
        }
    }

    /// Adds a parameter with a fixed value after the present ones.
    pub fn add_static(&mut self, name: &str, value: &str)
        requires
            model_valid(old(self)@),
        ensures
            model_valid(final(self)@),
            final(self)@ == (ParamsModel {
                segments: old(self)@.segments.push((name@, ParamValue::Text(value@))),
                ..old(self)@
            }),
    {
        self.add(name.to_owned(), ParamItem::Static(value.to_owned()));
    }

    /// Whether no parameter was extracted.
    pub fn is_empty(&self) -> (r: bool)
        ensures
            r == (self@.segments.len() == 0),
    {
        self.segments.len() == 0
    }

    /// The number of extracted parameters.
    pub fn len(&self) -> (r: usize)
        ensures
            r == self@.segments.len(),
    {
        self.segments.len()
    }

    /// The path these parameters refer to.
    pub fn path(&self) -> (r: &str)
        ensures
            r@ == self@.path,
    {
        self.path.as_str()
    }

    /// The text of one item.
    fn item_str<'a>(&'a self, item: &'a ParamItem) -> (r: &'a str)
        requires
            item_valid(self@.path, item_view(*item)),
        ensures
            r@ == item_text(self@.path, item_view(*item)),
    {
        match item {
            ParamItem::Static(s) => s.as_str(),
            ParamItem::UrlSegment(s, e) => slice_between(self.path.as_str(), *s, *e),
        }
    }

    /// The value of the first parameter named `key`; for the name `tail`,
    /// where no parameter has it, the unprocessed part of the path.
    pub fn get(&self, key: &str) -> (r: Option<&str>)
        requires
            model_valid(self@),
        ensures
            r matches Some(v) ==> lookup(self@, key@) == Some(v@),
            r is None ==> lookup(self@, key@) is None,
    {
        let mut i: usize = 0;
        while i < self.segments.len()
            invariant
                model_valid(self@),
                i <= self@.segments.len(),
                forall|j: int| 0 <= j < i ==> self@.segments[j].0 != key@,
            decreases self@.segments.len() - i,
        {
            let item = &self.segments[i];
            if same_text(key, item.0.as_str()) {
                proof {
                    lemma_find_name_skip(self@.segments, key@, i as int);
                    assert(self@.segments[i as int].1 == item_view(item.1));
                }
                return Some(self.item_str(&item.1));
            }
            i = i + 1;
        }
        proof {
            lemma_find_name_skip(self@.segments, key@, i as int);
        }
        if same_text(key, "tail") {
            Some(suffix_from(self.path.as_str(), self.tail))
        } else {
            None
        }
    }

    /// The part of the path that no pattern has consumed yet.
    pub fn unprocessed(&self) -> (r: &str)
        requires
            model_valid(self@),
        ensures
            r@ == byte_slice(self@.path, self@.tail as int, bytes_of(self@.path).len() as int),
    {
        suffix_from(self.path.as_str(), self.tail)
    }

    /// The value that `get` gives for `key`, or the empty text.
    pub fn query(&self, key: &str) -> (r: &str)
        requires
            model_valid(self@),
        ensures
            r@ == match lookup(self@, key@) {
                Some(v) => v,
                None => Seq::empty(),
            },
    {
        match self.get(key) {
            Some(v) => v,
            None => {
                proof {
                    reveal_strlit("");
                }
                ""
            },
        }
    }

    /// The value of the parameter at position `idx`.
    pub fn value_at(&self, idx: usize) -> (r: &str)
        requires
            model_valid(self@),
            idx < self@.segments.len(),
        ensures
            r@ == item_text(self@.path, self@.segments[idx as int].1),
    {
        let item = &self.segments[idx];
        proof {
            assert(self@.segments[idx as int].1 == item_view(item.1));
        }
        self.item_str(&item.1)
    }

    /// The parameters as (name, value) pairs, in order.
    pub fn iter(&self) -> (r: Vec<(&str, &str)>)
        requires
            model_valid(self@),
        ensures
            r@.len() == self@.segments.len(),
            forall|i: int|
                0 <= i < r@.len() ==> (#[trigger] r@[i]).0@ == self@.segments[i].0 && r@[i].1@
                    == item_text(self@.path, self@.segments[i].1),
    {
        let mut out: Vec<(&str, &str)> = Vec::new();
        let mut i: usize = 0;
        while i < self.segments.len()
            invariant
                model_valid(self@),
                i <= self@.segments.len(),
                out@.len() == i,
                forall|j: int|
                    0 <= j < i ==> (#[trigger] out@[j]).0@ == self@.segments[j].0 && out@[j].1@
                        == item_text(self@.path, self@.segments[j].1),
            decreases self@.segments.len() - i,
        {
            let item = &self.segments[i];
            proof {
                assert(self@.segments[i as int].1 == item_view(item.1));
                assert(self@.segments[i as int].0 == item.0@);
            }
            out.push((item.0.as_str(), self.item_str(&item.1)));
            i = i + 1;
        }
        out
    }
}

} // verus!
