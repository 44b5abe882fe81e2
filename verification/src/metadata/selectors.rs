//! Selectors: predicates on the labels of an entry. A list of selectors
//! holds where each of them holds.

use crate::error::Error;
use crate::metadata::labels::{
    label_key_chars, label_value_chars, valid_label_key, valid_label_value,
};
use crate::string_map::StringMap;
use crate::text::{chars_of, concat, find, find_char, substring};
use vstd::prelude::*;

verus! {

/// How a selector compares the value of its key.
#[derive(Clone, Copy, Debug, PartialEq, Eq, Structural)]
pub enum Operation {
    Equal,
    NotEqual,
}

/// A predicate on one label key.
#[derive(Debug)]
pub struct Selector {
    pub key: String,
    pub value: String,
    pub op: Operation,
}

/// What a `Selector` holds.
pub struct SelectorView {
    pub key: Seq<char>,
    pub value: Seq<char>,
    pub op: Operation,
}

impl View for Selector {
    type V = SelectorView;

    open spec fn view(&self) -> SelectorView {
        SelectorView { key: self.key@, value: self.value@, op: self.op }
    }
}

impl Clone for Selector {
    fn clone(&self) -> (r: Self)
        ensures
            r@ == self@,
    {
        Selector { key: self.key.clone(), value: self.value.clone(), op: self.op }
    }
}

/// The views of a sequence of selectors.
pub open spec fn selector_views(selectors: Seq<Selector>) -> Seq<SelectorView> {
    selectors.map_values(|s: Selector| s@)
}

/// Whether `selector` holds of `labels`. A selector whose key has no
/// label does not hold, whatever its operation.
pub open spec fn selector_holds(selector: SelectorView, labels: Map<Seq<char>, Seq<char>>) -> bool {
    labels.contains_key(selector.key) && match selector.op {
        Operation::Equal => labels[selector.key] == selector.value,
        Operation::NotEqual => labels[selector.key] != selector.value,
    }
}

/// Whether every selector of `selectors` holds of `labels`.
pub open spec fn matches_all(selectors: Seq<SelectorView>, labels: Map<Seq<char>, Seq<char>>) -> bool {
    forall|i: int| 0 <= i < selectors.len() ==> selector_holds(#[trigger] selectors[i], labels)
}

/// The selector that `s` denotes: `key=value` or `key!=value`, split at
/// the first equals sign, with a valid key and value.
pub open spec fn parse_selector(s: Seq<char>) -> Option<SelectorView> {
    match find(s, '=') {
        Some(p) => {
            let negated = p >= 1 && s[p - 1] == '!';
            let key = s.subrange(0, if negated { p - 1 } else { p });
            let value = s.subrange(p + 1, s.len() as int);
            if valid_label_key(key) && valid_label_value(value) {
                Some(
                    SelectorView {
                        key,
                        value,
                        op: if negated { Operation::NotEqual } else { Operation::Equal },
                    },
                )
            } else {
                None
            }
        },
        None => None,
    }
}

/// The message for a string that does not denote a selector.
pub open spec fn parse_selector_message(s: Seq<char>) -> Seq<char> {
    if find(s, '=') is Some {
        "key or value are not valid RFC 1123 dns-style"@
    } else {
        "invalid selector: no `=` found in `"@ + s + "`"@
    }
}

/// Whether every selector of `selectors` holds of `labels`.
pub fn matches(selectors: &Vec<Selector>, labels: &StringMap<String>) -> (r: bool)
    ensures
        r == matches_all(selector_views(selectors@), labels@),
{
    let mut i: usize = 0;
    while i < selectors.len()
        invariant
            i <= selectors.len(),
            forall|j: int|
                0 <= j < i ==> selector_holds(#[trigger] selector_views(selectors@)[j], labels@),
        decreases selectors.len() - i,
    {
        let selector = &selectors[i];
        assert(selector_views(selectors@)[i as int] == selector@);
        match labels.get(selector.key.as_str()) {
            Some(value) => {
                let same = selector.value == *value;
                let holds = match selector.op {
                    Operation::Equal => same,
                    Operation::NotEqual => !same,
                };
                if !holds {
                    return false;
                }
            },
            None => {
                return false;
            },
        }
        i += 1;
    }
    true
}

/// Parses a single selector, `key=value` or `key!=value`.
pub fn parse(s: &str) -> (r: Result<Selector, Error>)
    ensures
        match r {
            Ok(selector) => parse_selector(s@) == Some(selector@),
            Err(Error::Validation(m)) => parse_selector(s@) is None && m@
                == parse_selector_message(s@),
            Err(_) => false,
        },
{
    let v = chars_of(s);
    let n = v.len();
    match find_char(&v, '=') {
        Some(pos) => {
            proof {
                crate::text::lemma_find(v@, '=');
            }
            let negated = pos >= 1 && v[pos - 1] == '!';
            let key_end: usize = if negated { pos - 1 } else { pos };
            if !label_key_chars(&v, 0, key_end) || !label_value_chars(&v, pos + 1, n) {
                return Err(
                    Error::Validation("key or value are not valid RFC 1123 dns-style".to_owned()),
                );
            }
            let op = if negated { Operation::NotEqual } else { Operation::Equal };
            Ok(Selector { key: substring(s, 0, key_end), value: substring(s, pos + 1, n), op })
        },
        None => {
            let head = concat("invalid selector: no `=` found in `", s);
            Err(Error::Validation(concat(head.as_str(), "`")))
        },
    }
}

} // verus!
