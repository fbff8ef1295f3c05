//! Event parameters read from structured objects.
use vstd::prelude::*;
use crate::error::{Error, Fault};
use crate::fields::{collect, collect_fields, resolve, resolve_kind};
use crate::node::Node;
use crate::param_type::{Kind, ParamType};

verus! {

/// An event parameter as seen in contracts: name, kind, indexed flag.
pub struct EventModel {
    pub name: Seq<char>,
    pub kind: Kind,
    pub indexed: bool,
}

/// Event param specification.
#[derive(Debug, PartialEq)]
pub struct EventParam {
    /// Param name.
    pub name: String,
    /// Param type.
    pub kind: ParamType,
    /// Indexed flag. If true, param is used to build block bloom.
    pub indexed: bool,
}

impl View for EventParam {
    type V = EventModel;

    open spec fn view(&self) -> EventModel {
        EventModel { name: self.name@, kind: self.kind@, indexed: self.indexed }
    }
}

/// The event parameter that the entries of an object describe: `name` and
/// `type` are required, `indexed` defaults to false, and a tuple takes its
/// elements from `components`.
pub open spec fn event_param(es: Seq<(String, Node)>) -> Result<EventModel, Fault> {
    match collect(es, es.len() as int, true) {
        Err(f) => Err(f),
        Ok(acc) => match acc.name {
            None => Err(Fault::MissingField("name"@)),
            Some(name) => match acc.kind {
                None => Err(Fault::MissingField("kind"@)),
                Some(k) => match resolve(k, acc.components) {
                    Err(f) => Err(f),
                    Ok(kind) => Ok(
                        EventModel {
                            name,
                            kind,
                            indexed: match acc.indexed {
                                Some(b) => b,
                                None => false,
                            },
                        },
                    ),
                },
            },
        },
    }
}

impl EventParam {
    /// Reads an event parameter from the entries of a structured object.
    pub fn from_fields(es: &Vec<(String, Node)>) -> (r: Result<EventParam, Error>)
        ensures
            match r {
                Ok(p) => event_param(es@) == Ok::<EventModel, Fault>(p@),
                Err(e) => event_param(es@) == Err::<EventModel, Fault>(e@),
            },
    {
        let f = collect_fields(es, true)?;
        let name = match f.name {
            Some(n) => n,
            None => {
                return Err(Error::MissingField("name".to_owned()));
            },
        };
        let kind = match f.kind {
            Some(k) => k,
            None => {
                return Err(Error::MissingField("kind".to_owned()));
            },
        };
        let comps = match f.components {
            Some(c) => Some(&es[c].1),
            None => None,
        };
        let kind = resolve_kind(kind, comps)?;
        let indexed = match f.indexed {
            Some(b) => b,
            None => false,
        };
        Ok(EventParam { name, kind, indexed })
    }
}

} // verus!
