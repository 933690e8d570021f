use vstd::prelude::*;
use crate::json::{Json, json_member, json_element};

verus! {

/// The value of a run of decimal digits.
pub open spec fn digits_value(d: Seq<char>) -> nat
    decreases d.len(),
{
    if d.len() == 0 {
        0
    } else {
        digits_value(d.drop_last()) * 10 + ((d.last() as u32 - '0' as u32) as nat)
    }
}

/// The text after an optional leading `+`.
pub open spec fn unsigned_digits(s: Seq<char>) -> Seq<char> {
    if s.len() > 0 && s[0] == '+' {
        s.drop_first()
    } else {
        s
    }
}

/// The number that `s` writes in base 10: an optional `+`, then one or more
/// ASCII digits, with a value that fits in a `usize`.
pub open spec fn decimal_of(s: Seq<char>) -> Option<nat> {
    let d = unsigned_digits(s);
    if d.len() > 0 && (forall|i: int| 0 <= i < d.len() ==> '0' <= #[trigger] d[i] <= '9') && digits_value(d)
        <= usize::MAX {
        Some(digits_value(d))
    } else {
        None
    }
}

/// Relies on usize::from_str_radix in base 10, which takes an optional `+`
/// and then ASCII digits only, and fails on an empty text, on any other
/// character and on a value over `usize::MAX`.
#[verifier::external_body]
fn parse_decimal(s: &str) -> (r: Option<usize>)
    ensures
        r matches Some(n) ==> decimal_of(s@) == Some(n as nat),
        r is None ==> decimal_of(s@) is None,
{
    usize::from_str_radix(s, 10).ok()
}

/// One step of a path into a JSON value: an object member or an array element.
#[derive(Debug)]
pub enum Index {
    String(String),
    Integer(usize),
}

/// The model of a selector.
pub enum Selector {
    Key(Seq<char>),
    Position(nat),
}

impl View for Index {
    type V = Selector;

    open spec fn view(&self) -> Selector {
        match self {
            Index::String(s) => Selector::Key(s@),
            Index::Integer(n) => Selector::Position(*n as nat),
        }
    }
}

impl Index {
    pub fn copy(&self) -> (r: Index)
        ensures
            r == *self,
    {
        match self {
            Index::String(s) => Index::String(s.clone()),
            Index::Integer(n) => Index::Integer(*n),
        }
    }
}

/// A dotted path into a JSON value; `None` is the empty path, which selects
/// the whole value.
#[derive(Debug)]
pub struct ValueName {
    pub names: Option<Vec<Index>>,
}

/// The segments of `s` between the dots, from left to right.
pub open spec fn split_dots(s: Seq<char>) -> Seq<Seq<char>>
    decreases s.len(),
{
    if s.len() == 0 {
        seq![Seq::empty()]
    } else {
        let before = split_dots(s.drop_last());
        if s.last() == '.' {
            before.push(Seq::empty())
        } else {
            before.update(before.len() - 1, before.last().push(s.last()))
        }
    }
}

/// A segment that reads as a decimal number selects an element; any other
/// a member.
pub open spec fn selector_of(segment: Seq<char>) -> Selector {
    match decimal_of(segment) {
        Some(n) => Selector::Position(n),
        None => Selector::Key(segment),
    }
}

/// The selectors that the text `s` names; the empty text names none.
pub open spec fn path_of(s: Seq<char>) -> Seq<Selector> {
    if s.len() == 0 {
        Seq::empty()
    } else {
        split_dots(s).map_values(|seg: Seq<char>| selector_of(seg))
    }
}

/// Following `path` from the value `doc`: the value reached, or the first
/// selector that found nothing.
pub open spec fn extract(path: Seq<Selector>, doc: Seq<char>) -> Result<Seq<char>, Selector>
    decreases path.len(),
{
    if path.len() == 0 {
        Ok(doc)
    } else {
        let next = match path[0] {
            Selector::Key(k) => json_member(doc, k),
            Selector::Position(i) => json_element(doc, i),
        };
        match next {
            Some(d) => extract(path.drop_first(), d),
            None => Err(path[0]),
        }
    }
}

proof fn lemma_split_nonempty(s: Seq<char>)
    ensures
        split_dots(s).len() >= 1,
    decreases s.len(),
{
    if s.len() > 0 {
        lemma_split_nonempty(s.drop_last());
    }
}

/// Following the empty path gives the value itself.
pub proof fn lemma_empty_path_is_identity(doc: Seq<char>)
    ensures
        extract(path_of(Seq::empty()), doc) == Ok::<Seq<char>, Selector>(doc),
{
}

impl ValueName {
    pub open spec fn path(&self) -> Seq<Selector> {
        match self.names {
            None => Seq::empty(),
            Some(v) => v@.map_values(|i: Index| i@),
        }
    }

    /// Reads a dotted path: each segment becomes an element index where it is
    /// a decimal number, else a member key.
    pub fn from_str(s: &str) -> (r: ValueName)
        ensures
            r.path() == path_of(s@),
            (s@.len() == 0) == (r.names is None),
    {
        let n = s.unicode_len();
        if n == 0 {
            return ValueName { names: None };
        }
        let mut segments: Vec<Index> = Vec::new();
        let mut start: usize = 0;
        let mut i: usize = 0;
        while i < n
            invariant
                n == s@.len(),
                start <= i <= n,
                ({
                    let parts = split_dots(s@.subrange(0, i as int));
                    &&& parts.len() == segments.len() + 1
                    &&& parts.last() == s@.subrange(start as int, i as int)
                    &&& forall|j: int| 0 <= j < segments.len() ==> #[trigger] segments@[j]@ == selector_of(parts[j])
                }),
            decreases n - i,
        {
            let c = s.get_char(i);
            proof {
                assert(s@.subrange(0, i + 1).drop_last() =~= s@.subrange(0, i as int));
                assert(s@.subrange(0, i + 1).last() == c);
                lemma_split_nonempty(s@.subrange(0, i as int));
            }
            if c == '.' {
                let seg = s.substring_char(start, i);
                let sel = match parse_decimal(seg) {
                    Some(v) => Index::Integer(v),
                    None => Index::String(String::from_str(seg)),
                };
                segments.push(sel);
                start = i + 1;
                proof {
                    assert(s@.subrange(start as int, i + 1) =~= Seq::<char>::empty());
                }
            } else {
                proof {
                    assert(s@.subrange(start as int, i + 1) =~= s@.subrange(start as int, i as int).push(c));
                }
            }
            i = i + 1;
        }
        let seg = s.substring_char(start, n);
        let sel = match parse_decimal(seg) {
            Some(v) => Index::Integer(v),
            None => Index::String(String::from_str(seg)),
        };
        segments.push(sel);
        proof {
            assert(s@.subrange(0, n as int) =~= s@);
            assert(segments@.map_values(|i: Index| i@) =~= split_dots(s@).map_values(|seg: Seq<char>| selector_of(seg)));
        }
        ValueName { names: Some(segments) }
    }

    /// Follows the path from `doc`; on failure, the selector that found
    /// nothing.
    pub fn parse(&self, doc: &Json) -> (r: Result<Json, Index>)
        ensures
            r matches Ok(j) ==> extract(self.path(), doc@) == Ok::<Seq<char>, Selector>(j@),
            r matches Err(e) ==> extract(self.path(), doc@) == Err::<Seq<char>, Selector>(e@),
    {
        match &self.names {
            None => Ok(doc.copy()),
            Some(names) => {
                let ghost path = self.path();
                let mut cur = doc.copy();
                let mut i: usize = 0;
                proof {
                    assert(path.subrange(0, path.len() as int) =~= path);
                }
                while i < names.len()
                    invariant
                        i <= names.len(),
                        path == names@.map_values(|x: Index| x@),
                        path == self.path(),
                        extract(path, doc@) == extract(path.subrange(i as int, path.len() as int), cur@),
                    decreases names.len() - i,
                {
                    let ghost rest = path.subrange(i as int, path.len() as int);
                    proof {
                        assert(rest.drop_first() =~= path.subrange(i + 1, path.len() as int));
                        assert(rest[0] == names@[i as int]@);
                    }
                    let next = match &names[i] {
                        Index::String(k) => cur.member(k.as_str()),
                        Index::Integer(n) => cur.element(*n),
                    };
                    match next {
                        Some(d) => cur = d,
                        None => return Err(names[i].copy()),
                    }
                    i = i + 1;
                }
                proof {
                    assert(path.subrange(i as int, path.len() as int) =~= Seq::<Selector>::empty());
                }
                Ok(cur)
            },
        }
    }
}

} // verus!
