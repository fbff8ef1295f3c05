//! Lists of tuple components, reduced to their element types.
use vstd::prelude::*;
use crate::error::{Error, Fault};
use crate::node::{find_key, last_entry, Node};
use crate::param_type::{elems, lemma_tuple_view, Kind, ParamType};
use crate::reader::{outcome, parse, Reader};

verus! {

/// The element types of a tuple, in the order of its components.
#[derive(Debug, PartialEq)]
pub struct TupleParams(pub Vec<Box<ParamType>>);

/// The element types that a list of component descriptors gives.
pub open spec fn components(v: Node) -> Result<Seq<Kind>, Fault>
    decreases v, 1int,
{
    match v {
        Node::List(items) => components_prefix(items, items.len() as int),
        _ => Err(Fault::InvalidFieldType("components"@)),
    }
}

/// The element types of the first `n` component descriptors.
pub open spec fn components_prefix(items: Vec<Node>, n: int) -> Result<Seq<Kind>, Fault>
    decreases items, n,
{
    if n <= 0 || n > items.len() {
        Ok(seq![])
    } else {
        match components_prefix(items, n - 1) {
            Ok(acc) => match component(items[n - 1]) {
                Ok(k) => Ok(acc.push(k)),
                Err(e) => Err(e),
            },
            Err(e) => Err(e),
        }
    }
}

/// The type that one component descriptor gives: its `type` read, and for a
/// tuple its element types taken from its own `components`. Where a key
/// repeats, its last entry counts.
pub open spec fn component(item: Node) -> Result<Kind, Fault>
    decreases item, 1int,
{
    match item {
        Node::Object(es) => {
            let j = find_key(es@, "type"@, es.len() as int);
            if 0 <= j < es.len() {
                match es[j].1 {
                    Node::Text(s) => match parse(s@) {
                        Ok(k) => if k is Tuple {
                            let c = find_key(es@, "components"@, es.len() as int);
                            if 0 <= c < es.len() {
                                match components(es[c].1) {
                                    Ok(ks) => Ok(Kind::Tuple(ks)),
                                    Err(e) => Err(e),
                                }
                            } else {
                                Err(Fault::MissingField("components"@))
                            }
                        } else {
                            Ok(k)
                        },
                        Err(e) => Err(e),
                    },
                    _ => Err(Fault::InvalidFieldType("type"@)),
                }
            } else {
                Err(Fault::MissingTypeField)
            }
        },
        _ => Err(Fault::MissingTypeField),
    }
}

/// Once a prefix of the components fails, every longer prefix fails alike.
proof fn lemma_prefix_fails(items: Vec<Node>, m: int, n: int)
    requires
        0 <= m <= n <= items.len(),
        components_prefix(items, m) is Err,
    ensures
        components_prefix(items, n) == components_prefix(items, m),
    decreases n - m,
{
    if m < n {
        lemma_prefix_fails(items, m, n - 1);
    }
}

pub open spec fn list_outcome(r: Result<Vec<Box<ParamType>>, Error>) -> Result<Seq<Kind>, Fault> {
    match r {
        Ok(v) => Ok(elems(v@)),
        Err(e) => Err(e@),
    }
}

/// Reads the element types of a list of component descriptors.
pub fn read_components(v: &Node) -> (r: Result<Vec<Box<ParamType>>, Error>)
    ensures
        list_outcome(r) == components(*v),
    decreases *v, 0int,
{
    match v {
        Node::List(items) => {
            let mut out: Vec<Box<ParamType>> = Vec::new();
            let mut i: usize = 0;
            assert(elems(out@) =~= seq![]);
            while i < items.len()
                invariant
                    *v == Node::List(*items),
                    i <= items.len(),
                    components_prefix(*items, i as int) == Ok::<Seq<Kind>, Fault>(elems(out@)),
                decreases items.len() - i,
            {
                match read_component(&items[i]) {
                    Ok(t) => {
                        let ghost before = out@;
                        out.push(Box::new(t));
                        assert(elems(out@) =~= elems(before).push(t@));
                    },
                    Err(e) => {
                        proof {
                            lemma_prefix_fails(*items, i + 1, items.len() as int);
                        }
                        return Err(e);
                    },
                }
                i = i + 1;
            }
            Ok(out)
        },
        _ => Err(Error::InvalidFieldType("components".to_owned())),
    }
}

/// Reads the type that one component descriptor gives.
pub fn read_component(item: &Node) -> (r: Result<ParamType, Error>)
    ensures
        outcome(r) == component(*item),
    decreases *item, 0int,
{
    match item {
        Node::Object(es) => {
            let j = match last_entry(es, "type") {
                Some(j) => j,
                None => {
                    return Err(Error::MissingTypeField);
                },
            };
            let s = match &es[j].1 {
                Node::Text(s) => s,
                _ => {
                    return Err(Error::InvalidFieldType("type".to_owned()));
                },
            };
            let k = Reader::read(s.as_str())?;
            match k {
                ParamType::Tuple(_) => {
                    let c = match last_entry(es, "components") {
                        Some(c) => c,
                        None => {
                            return Err(Error::MissingField("components".to_owned()));
                        },
                    };
                    let ks = read_components(&es[c].1)?;
                    proof {
                        lemma_tuple_view(ks);
                    }
                    Ok(ParamType::Tuple(ks))
                },
                _ => Ok(k),
            }
        },
        _ => Err(Error::MissingTypeField),
    }
}

impl TupleParams {
    /// Reads a list of component descriptors into their element types.
    pub fn from_node(v: &Node) -> (r: Result<TupleParams, Error>)
        ensures
            match r {
                Ok(p) => components(*v) == Ok::<Seq<Kind>, Fault>(elems(p.0@)),
                Err(e) => components(*v) == Err::<Seq<Kind>, Fault>(e@),
            },
    {
        match read_components(v) {
            Ok(ks) => Ok(TupleParams(ks)),
            Err(e) => Err(e),
        }
    }
}

} // verus!
