//! Tuple parameters read from structured objects.
use vstd::prelude::*;
use crate::error::{Error, Fault};
use crate::fields::{collect, collect_fields, resolve, resolve_kind};
use crate::node::Node;
use crate::param_type::{Kind, ParamType};

verus! {

/// A tuple parameter as seen in contracts: optional name, kind.
pub struct TupleModel {
    pub name: Option<Seq<char>>,
    pub kind: Kind,
}

/// Tuple params specification
#[derive(Debug, PartialEq)]
pub struct TupleParam {
    /// Param name.
    pub name: Option<String>,
    /// Param type.
    pub kind: ParamType,
}

impl View for TupleParam {
    type V = TupleModel;

    open spec fn view(&self) -> TupleModel {
        TupleModel {
            name: match self.name {
                Some(s) => Some(s@),
                None => None,
            },
            kind: self.kind@,
        }
    }
}

/// The tuple parameter that the entries of an object describe: `type` is
/// required, `name` optional, and a tuple takes its elements from `components`.
pub open spec fn tuple_param(es: Seq<(String, Node)>) -> Result<TupleModel, Fault> {
    match collect(es, es.len() as int, false) {
        Err(f) => Err(f),
        Ok(acc) => match acc.kind {
            None => Err(Fault::MissingField("type"@)),
            Some(k) => match resolve(k, acc.components) {
                Err(f) => Err(f),
                Ok(kind) => Ok(TupleModel { name: acc.name, kind }),
            },
        },
    }
}

impl TupleParam {
    /// Reads a tuple parameter from the entries of a structured object.
    pub fn from_fields(es: &Vec<(String, Node)>) -> (r: Result<TupleParam, Error>)
        ensures
            match r {
                Ok(p) => tuple_param(es@) == Ok::<TupleModel, Fault>(p@),
                Err(e) => tuple_param(es@) == Err::<TupleModel, Fault>(e@),
            },
    {
        let f = collect_fields(es, false)?;
        let kind = match f.kind {
            Some(k) => k,
            None => {
                return Err(Error::MissingField("type".to_owned()));
            },
        };
        let comps = match f.components {
            Some(c) => Some(&es[c].1),
            None => None,
        };
        let kind = resolve_kind(kind, comps)?;
        Ok(TupleParam { name: f.name, kind })
    }
}

} // verus!
