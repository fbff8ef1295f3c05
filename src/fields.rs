//! The fields of a structured parameter object, gathered in one pass.
use vstd::prelude::*;
use crate::error::{Error, Fault};
use crate::node::Node;
use crate::param_type::{lemma_tuple_view, Kind, ParamType};
use crate::reader::{outcome, parse, same_text, Reader};
use crate::tuple_params::{components, read_components};

verus! {

/// The fields seen so far, as seen in contracts.
pub struct Collected {
    pub name: Option<Seq<char>>,
    pub kind: Option<Kind>,
    pub indexed: Option<bool>,
    /// The `components` entry's value, kept unread until the kind is known.
    pub components: Option<Node>,
}

pub open spec fn nothing_collected() -> Collected {
    Collected { name: None, kind: None, indexed: None, components: None }
}

/// One entry taken into the fields seen so far. A known key may come once;
/// `indexed` is known to event parameters only; other keys are skipped.
/// `components` is only kept here: it is read once the kind is known.
pub open spec fn field_step(acc: Collected, e: (String, Node), event: bool) -> Result<Collected, Fault> {
    let key = e.0@;
    if key == "name"@ {
        if acc.name is Some {
            Err(Fault::DuplicateField("name"@))
        } else {
            match e.1 {
                Node::Text(s) => Ok(Collected { name: Some(s@), ..acc }),
                _ => Err(Fault::InvalidFieldType("name"@)),
            }
        }
    } else if key == "type"@ {
        if acc.kind is Some {
            Err(Fault::DuplicateField("type"@))
        } else {
            match e.1 {
                Node::Text(s) => match parse(s@) {
                    Ok(k) => Ok(Collected { kind: Some(k), ..acc }),
                    Err(f) => Err(f),
                },
                _ => Err(Fault::InvalidFieldType("type"@)),
            }
        }
    } else if key == "components"@ {
        if acc.components is Some {
            Err(Fault::DuplicateField("components"@))
        } else {
            Ok(Collected { components: Some(e.1), ..acc })
        }
    } else if event && key == "indexed"@ {
        if acc.indexed is Some {
            Err(Fault::DuplicateField("indexed"@))
        } else {
            match e.1 {
                Node::Bool(b) => Ok(Collected { indexed: Some(b), ..acc }),
                _ => Err(Fault::InvalidFieldType("indexed"@)),
            }
        }
    } else {
        Ok(acc)
    }
}

/// The fields of the first `n` entries, or the first failure among them.
pub open spec fn collect(es: Seq<(String, Node)>, n: int, event: bool) -> Result<Collected, Fault>
    decreases n,
{
    if n <= 0 {
        Ok(nothing_collected())
    } else {
        match collect(es, n - 1, event) {
            Ok(acc) => field_step(acc, es[n - 1], event),
            Err(f) => Err(f),
        }
    }
}

/// The declared kind with, for a tuple, its elements read from the
/// components. For any other kind the components are ignored, unread.
pub open spec fn resolve(kind: Kind, comps: Option<Node>) -> Result<Kind, Fault> {
    if kind is Tuple {
        match comps {
            Some(c) => match components(c) {
                Ok(ks) => Ok(Kind::Tuple(ks)),
                Err(f) => Err(f),
            },
            None => Err(Fault::MissingField("components"@)),
        }
    } else {
        Ok(kind)
    }
}

/// Once a prefix of the entries fails, every longer prefix fails alike.
pub proof fn lemma_collect_fails(es: Seq<(String, Node)>, m: int, n: int, event: bool)
    requires
        0 <= m <= n,
        collect(es, m, event) is Err,
    ensures
        collect(es, n, event) == collect(es, m, event),
    decreases n - m,
{
    if m < n {
        lemma_collect_fails(es, m, n - 1, event);
    }
}

/// The fields seen so far.
pub struct Fields {
    pub name: Option<String>,
    pub kind: Option<ParamType>,
    pub indexed: Option<bool>,
    /// The index of the `components` entry.
    pub components: Option<usize>,
}

impl Fields {
    /// The fields seen so far, for the entries `es` that they index.
    pub open spec fn view_in(&self, es: Seq<(String, Node)>) -> Collected {
        Collected {
            name: match self.name {
                Some(s) => Some(s@),
                None => None,
            },
            kind: match self.kind {
                Some(t) => Some(t@),
                None => None,
            },
            indexed: self.indexed,
            components: match self.components {
                Some(i) => Some(es[i as int].1),
                None => None,
            },
        }
    }
}

/// Gathers the fields of a structured parameter object.
pub fn collect_fields(es: &Vec<(String, Node)>, event: bool) -> (r: Result<Fields, Error>)
    ensures
        match r {
            Ok(f) => collect(es@, es@.len() as int, event) == Ok::<Collected, Fault>(f.view_in(es@))
                && (f.components matches Some(c) ==> c < es@.len()),
            Err(e) => collect(es@, es@.len() as int, event) == Err::<Collected, Fault>(e@),
        },
{
    let mut f = Fields { name: None, kind: None, indexed: None, components: None };
    let mut i: usize = 0;
    while i < es.len()
        invariant
            i <= es@.len(),
            collect(es@, i as int, event) == Ok::<Collected, Fault>(f.view_in(es@)),
            f.components matches Some(c) ==> c < i,
        decreases es.len() - i,
    {
        let key = es[i].0.as_str();
        let val = &es[i].1;
        let step: Result<(), Error> = if same_text(key, "name") {
            if f.name.is_some() {
                Err(Error::DuplicateField("name".to_owned()))
            } else {
                match val {
                    Node::Text(s) => {
                        f.name = Some(s.clone());
                        Ok(())
                    },
                    _ => Err(Error::InvalidFieldType("name".to_owned())),
                }
            }
        } else if same_text(key, "type") {
            if f.kind.is_some() {
                Err(Error::DuplicateField("type".to_owned()))
            } else {
                match val {
                    Node::Text(s) => match Reader::read(s.as_str()) {
                        Ok(t) => {
                            f.kind = Some(t);
                            Ok(())
                        },
                        Err(e) => Err(e),
                    },
                    _ => Err(Error::InvalidFieldType("type".to_owned())),
                }
            }
        } else if same_text(key, "components") {
            if f.components.is_some() {
                Err(Error::DuplicateField("components".to_owned()))
            } else {
                f.components = Some(i);
                Ok(())
            }
        } else if event && same_text(key, "indexed") {
            if f.indexed.is_some() {
                Err(Error::DuplicateField("indexed".to_owned()))
            } else {
                match val {
                    Node::Bool(b) => {
                        f.indexed = Some(*b);
                        Ok(())
                    },
                    _ => Err(Error::InvalidFieldType("indexed".to_owned())),
                }
            }
        } else {
            Ok(())
        };
        match step {
            Ok(()) => {},
            Err(e) => {
                proof {
                    lemma_collect_fails(es@, i + 1, es@.len() as int, event);
                }
                return Err(e);
            },
        }
        i = i + 1;
    }
    Ok(f)
}

/// Gives a tuple its elements from the components; other kinds stay as read.
pub fn resolve_kind(kind: ParamType, comps: Option<&Node>) -> (r: Result<ParamType, Error>)
    ensures
        outcome(r) == resolve(
            kind@,
            match comps {
                Some(c) => Some(*c),
                None => None,
            },
        ),
{
    match kind {
        ParamType::Tuple(_) => match comps {
            Some(c) => {
                let ks = read_components(c)?;
                proof {
                    lemma_tuple_view(ks);
                }
                Ok(ParamType::Tuple(ks))
            },
            None => Err(Error::MissingField("components".to_owned())),
        },
        other => Ok(other),
    }
}

} // verus!
