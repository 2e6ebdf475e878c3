//! Interface strings: a flat JSON object from keys to translations.
use vstd::prelude::*;

use crate::text::str_eq;

verus! {

/// What `serde_json` reads from a document as a JSON object: its members in
/// the order its `Map` walks them (by key, one member per key), each with
/// its string value (`None` for other values); `None` when the document is
/// not an object.
pub uninterp spec fn spec_json_members(doc: Seq<char>) -> Option<Seq<(Seq<char>, Option<Seq<char>>)>>;

/// The members of an object, as plain values.
pub open spec fn members_view(m: Seq<(String, Option<String>)>) -> Seq<(Seq<char>, Option<Seq<char>>)> {
    m.map_values(|e: (String, Option<String>)| (e.0@, crate::json::opt_view(e.1)))
}

/// `serde_json::from_str` into a `serde_json::Value`; for an object, its
/// members with `Value::as_str` of each value. The contract names the
/// result.
#[verifier::external_body]
pub(crate) fn json_members(doc: &str) -> (r: Option<Vec<(String, Option<String>)>>)
    ensures
        match r {
            Some(m) => spec_json_members(doc@) == Some(members_view(m@)),
            None => spec_json_members(doc@) is None,
        },
{
    match serde_json::from_str::<serde_json::Value>(doc) {
        Ok(serde_json::Value::Object(map)) => Some(
            map.into_iter().map(|(k, v)| (k, v.as_str().map(|s| s.to_string()))).collect(),
        ),
        _ => None,
    }
}

/// Translations by key.
pub struct I18n {
    strings: Vec<(String, String)>,
}

/// The string members of an object, in order.
pub open spec fn string_members(m: Seq<(Seq<char>, Option<Seq<char>>)>) -> Seq<(Seq<char>, Seq<char>)>
    decreases m.len(),
{
    if m.len() == 0 {
        seq![]
    } else {
        let prev = string_members(m.drop_last());
        match m.last().1 {
            Some(s) => prev.push((m.last().0, s)),
            None => prev,
        }
    }
}

/// The translation of a key: the first entry with that key.
pub open spec fn lookup(l: Seq<(Seq<char>, Seq<char>)>, key: Seq<char>) -> Option<Seq<char>>
    decreases l.len(),
{
    if l.len() == 0 {
        None
    } else if l[0].0 == key {
        Some(l[0].1)
    } else {
        lookup(l.drop_first(), key)
    }
}

impl I18n {
    /// The translations as (key, text) pairs.
    pub closed spec fn view(&self) -> Seq<(Seq<char>, Seq<char>)> {
        crate::mcp::pair_views(self.strings@)
    }

    /// No translations.
    pub fn empty() -> (r: I18n)
        ensures
            r.view() == Seq::<(Seq<char>, Seq<char>)>::empty(),
    {
        let r = I18n { strings: Vec::new() };
        proof {
            assert(r.view() =~= Seq::<(Seq<char>, Seq<char>)>::empty());
        }
        r
    }

    /// The translations of a locale file: its string members when it is a
    /// JSON object, else none.
    pub fn from_json(doc: &str) -> (r: I18n)
        ensures
            r.view() == match spec_json_members(doc@) {
                Some(m) => string_members(m),
                None => seq![],
            },
    {
        match json_members(doc) {
            Some(m) => {
                let ghost mv = members_view(m@);
                let mut strings: Vec<(String, String)> = Vec::new();
                let mut i: usize = 0;
                while i < m.len()
                    invariant
                        i <= m@.len(),
                        mv == members_view(m@),
                        crate::mcp::pair_views(strings@) == string_members(mv.take(i as int)),
                    decreases m.len() - i,
                {
                    proof {
                        assert(mv.take(i + 1).drop_last() =~= mv.take(i as int));
                        assert(mv.take(i + 1).last() == mv[i as int]);
                    }
                    match &m[i].1 {
                        Some(s) => {
                            let ghost before = crate::mcp::pair_views(strings@);
                            strings.push((m[i].0.clone(), s.clone()));
                            proof {
                                assert(crate::mcp::pair_views(strings@) =~= before.push(
                                    (m@[i as int].0@, s@),
                                ));
                            }
                        },
                        None => {},
                    }
                    i = i + 1;
                }
                proof {
                    assert(mv.take(m@.len() as int) =~= mv);
                }
                I18n { strings }
            },
            None => I18n::empty(),
        }
    }

    /// The translation of a key, or the key itself when there is none.
    pub fn t<'a>(&'a self, key: &'a str) -> (r: &'a str)
        ensures
            r@ == match lookup(self.view(), key@) {
                Some(s) => s,
                None => key@,
            },
    {
        let mut i: usize = 0;
        proof {
            assert(self.view().skip(0) =~= self.view());
        }
        while i < self.strings.len()
            invariant
                i <= self.strings@.len(),
                self.view() == crate::mcp::pair_views(self.strings@),
                lookup(self.view(), key@) == lookup(self.view().skip(i as int), key@),
            decreases self.strings.len() - i,
        {
            proof {
                assert(self.view().skip(i as int)[0] == (self.strings@[i as int].0@, self.strings@[i as int].1@));
                assert(self.view().skip(i as int).drop_first() =~= self.view().skip(i + 1));
            }
            if str_eq(self.strings[i].0.as_str(), key) {
                return self.strings[i].1.as_str();
            }
            i = i + 1;
        }
        proof {
            assert(self.view().skip(self.strings@.len() as int).len() == 0);
        }
        key
    }
}

} // verus!
