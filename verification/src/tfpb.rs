//! Node definitions as an importer hands them over: the name of a node, the
//! name of its operator, and its attributes in the order in which they were
//! written.

use vstd::prelude::*;
use crate::analyser::types::{ShapeFact, ShapeFactValue};
use crate::errors::{TractError, TractResult};
use crate::tensor::{DatumType, Tensor, TensorValue};

verus! {

/// The value of one attribute of a node definition.
#[derive(Debug)]
pub enum AttrValue {
    /// A list of integers.
    List(Vec<i64>),
    /// An element type.
    Type(DatumType),
    /// A tensor.
    Tensor(Tensor),
    /// What is known of a shape.
    Shape(ShapeFact),
}

/// What an attribute value holds.
pub enum AttrContent {
    List(Seq<i64>),
    Type(DatumType),
    Tensor(TensorValue),
    Shape(ShapeFactValue),
}

impl View for AttrValue {
    type V = AttrContent;

    open spec fn view(&self) -> AttrContent {
        match *self {
            AttrValue::List(l) => AttrContent::List(l@),
            AttrValue::Type(t) => AttrContent::Type(t),
            AttrValue::Tensor(t) => AttrContent::Tensor(t@),
            AttrValue::Shape(s) => AttrContent::Shape(s@),
        }
    }
}

/// One named attribute.
#[derive(Debug)]
pub struct Attr {
    pub key: String,
    pub value: AttrValue,
}

/// The definition of one node.
#[derive(Debug)]
pub struct NodeDef {
    pub name: String,
    pub op: String,
    pub attr: Vec<Attr>,
}

/// What a node definition holds.
pub struct NodeDefContent {
    pub name: Seq<char>,
    pub op: Seq<char>,
    pub attr: Seq<(Seq<char>, AttrContent)>,
}

impl View for NodeDef {
    type V = NodeDefContent;

    open spec fn view(&self) -> NodeDefContent {
        NodeDefContent {
            name: self.name@,
            op: self.op@,
            attr: Seq::new(self.attr@.len(), |i: int| (self.attr@[i].key@, self.attr@[i].value@)),
        }
    }
}

impl NodeDefContent {
    /// The index of the first attribute called `key` at or after `from`, or
    /// the number of attributes if there is none.
    pub open spec fn position(self, key: Seq<char>, from: int) -> int
        decreases self.attr.len() - from,
    {
        if from < 0 || from >= self.attr.len() {
            self.attr.len() as int
        } else if self.attr[from].0 == key {
            from
        } else {
            self.position(key, from + 1)
        }
    }

    /// The value of the first attribute called `key`.
    pub open spec fn get(self, key: Seq<char>) -> Option<AttrContent> {
        let at = self.position(key, 0);
        if at < self.attr.len() {
            Some(self.attr[at].1)
        } else {
            None
        }
    }

    /// The list of integers that the attribute `key` holds.
    pub open spec fn list(self, key: Seq<char>) -> Option<Seq<i64>> {
        match self.get(key) {
            Some(AttrContent::List(l)) => Some(l),
            _ => None,
        }
    }

    /// The element type that the attribute `key` holds.
    pub open spec fn datum_type(self, key: Seq<char>) -> Option<DatumType> {
        match self.get(key) {
            Some(AttrContent::Type(t)) => Some(t),
            _ => None,
        }
    }

    /// The tensor that the attribute `key` holds.
    pub open spec fn tensor(self, key: Seq<char>) -> Option<TensorValue> {
        match self.get(key) {
            Some(AttrContent::Tensor(t)) => Some(t),
            _ => None,
        }
    }
}

impl NodeDef {
    /// A node definition without attributes.
    pub fn new(name: String, op: String) -> (r: NodeDef)
        ensures
            r@ == (NodeDefContent { name: name@, op: op@, attr: Seq::empty() }),
    {
        let r = NodeDef { name, op, attr: Vec::new() };
        assert(r@.attr =~= Seq::empty());
        r
    }

    /// Adds an attribute after those already there.
    pub fn push_attr(&mut self, key: String, value: AttrValue)
        ensures
            final(self)@ == (NodeDefContent {
                attr: old(self)@.attr.push((key@, value@)),
                ..old(self)@
            }),
    {
        self.attr.push(Attr { key, value });
        assert(self@.attr =~= old(self)@.attr.push((key@, value@)));
    }

    /// The name of the operator.
    pub fn get_op(&self) -> (r: &String)
        ensures
            r@ == self@.op,
    {
        &self.op
    }

    /// The first attribute called `key`, if there is one.
    pub fn get_attr(&self, key: &str) -> (r: Option<&AttrValue>)
        ensures
            match r {
                Some(v) => self@.get(key@) == Some(v@),
                None => self@.get(key@) is None,
            },
    {
        let wanted = key.to_owned();
        let mut i: usize = 0;
        while i < self.attr.len()
            invariant
                i <= self.attr.len(),
                wanted@ == key@,
                self@.position(key@, 0) == self@.position(key@, i as int),
            decreases self.attr.len() - i,
        {
            if self.attr[i].key == wanted {
                return Some(&self.attr[i].value);
            }
            i += 1;
        }
        None
    }

    /// The list of integers held by the attribute `key`. Fails with
    /// `MissingAttribute` when there is no such attribute or it holds
    /// something else.
    pub fn get_attr_list_int(&self, key: &str) -> (r: TractResult<&Vec<i64>>)
        ensures
            match r {
                Ok(l) => self@.list(key@) == Some(l@),
                Err(e) => e == TractError::MissingAttribute && self@.list(key@) is None,
            },
    {
        match self.get_attr(key) {
            Some(AttrValue::List(l)) => Ok(l),
            _ => Err(TractError::MissingAttribute),
        }
    }

    /// The element type held by the attribute `key`. Fails with
    /// `MissingAttribute` when there is no such attribute or it holds
    /// something else.
    pub fn get_attr_datum_type(&self, key: &str) -> (r: TractResult<DatumType>)
        ensures
            match r {
                Ok(t) => self@.datum_type(key@) == Some(t),
                Err(e) => e == TractError::MissingAttribute && self@.datum_type(key@) is None,
            },
    {
        match self.get_attr(key) {
            Some(AttrValue::Type(t)) => Ok(*t),
            _ => Err(TractError::MissingAttribute),
        }
    }

    /// The tensor held by the attribute `key`. Fails with `MissingAttribute`
    /// when there is no such attribute or it holds something else.
    pub fn get_attr_tensor(&self, key: &str) -> (r: TractResult<Tensor>)
        ensures
            match r {
                Ok(t) => self@.tensor(key@) == Some(t@) && t@.wf(),
                Err(e) => e == TractError::MissingAttribute && self@.tensor(key@) is None,
            },
    {
        match self.get_attr(key) {
            Some(AttrValue::Tensor(t)) => {
                let copy = t.clone();
                let _ = copy.len();
                Ok(copy)
            },
            _ => Err(TractError::MissingAttribute),
        }
    }

    /// The shape fact held by the attribute `key`, or `None` when there is no
    /// such attribute. Fails with `MissingAttribute` when the attribute holds
    /// something else.
    pub fn get_attr_opt_shape(&self, key: &str) -> (r: TractResult<Option<ShapeFact>>)
        ensures
            match self@.get(key@) {
                None => r matches Ok(None),
                Some(AttrContent::Shape(s)) => r matches Ok(Some(f)) && f@ == s,
                Some(_) => r matches Err(e) && e == TractError::MissingAttribute,
            },
    {
        match self.get_attr(key) {
            None => Ok(None),
            Some(AttrValue::Shape(s)) => Ok(Some(s.clone())),
            Some(_) => Err(TractError::MissingAttribute),
        }
    }
}

} // verus!
