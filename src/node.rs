//! Structured values: the JSON-like objects that describe parameters.
use vstd::prelude::*;
use crate::reader::same_text;

verus! {

/// A structured value. An object keeps its entries in the order written,
/// repeated keys included.
#[derive(Debug, PartialEq)]
pub enum Node {
    Null,
    Bool(bool),
    /// A number, as written.
    Number(String),
    Text(String),
    List(Vec<Node>),
    Object(Vec<(String, Node)>),
}

/// The last index below `n` whose entry has key `key`, or -1.
pub open spec fn find_key(es: Seq<(String, Node)>, key: Seq<char>, n: int) -> int
    decreases n,
{
    if n <= 0 {
        -1
    } else if es[n - 1].0@ == key {
        n - 1
    } else {
        find_key(es, key, n - 1)
    }
}

/// The index of the last entry with key `key`, if any.
pub fn last_entry(es: &Vec<(String, Node)>, key: &str) -> (r: Option<usize>)
    ensures
        match r {
            Some(i) => i < es@.len() && find_key(es@, key@, es@.len() as int) == i as int,
            None => find_key(es@, key@, es@.len() as int) == -1,
        },
{
    let mut k: usize = es.len();
    while k > 0
        invariant
            k <= es@.len(),
            find_key(es@, key@, k as int) == find_key(es@, key@, es@.len() as int),
        decreases k,
    {
        if same_text(es[k - 1].0.as_str(), key) {
            return Some(k - 1);
        }
        k = k - 1;
    }
    None
}

} // verus!
