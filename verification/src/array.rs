//! Builders for the arrays of a document.
//!
//! An array is filled element by element and handed to
//! [`Cfua::write_array`](crate::Cfua::write_array):
//! `CfuaIntegerArray::new().push(1).push(2)`.
use vstd::prelude::*;
use crate::cfua::{lemma_array_view, values_of, CfuaType, Value};
use crate::float::CfuaFloat;

verus! {

/// What can become the array of a pair.
pub trait ToCfuaArray: Sized {
    /// The elements of the array.
    spec fn items(&self) -> Seq<Value>;

    /// The array of the elements.
    fn finish(self) -> (r: CfuaType)
        ensures
            r@ == Value::Array(self.items()),
    ;
}

impl ToCfuaArray for Vec<CfuaType> {
    open spec fn items(&self) -> Seq<Value> {
        values_of(self@)
    }

    fn finish(self) -> (r: CfuaType) {
        proof {
            lemma_array_view(self);
        }
        CfuaType::Array(self)
    }
}

/// An array of integers.
pub struct CfuaIntegerArray {
    elements: Vec<CfuaType>,
}

impl CfuaIntegerArray {
    /// An array without elements.
    pub fn new() -> (r: Self)
        ensures
            r.items() == Seq::<Value>::empty(),
    {
        let r = CfuaIntegerArray { elements: Vec::new() };
        r
    }

    /// The array with `value` behind its elements.
    pub fn push(self, value: i64) -> (r: Self)
        ensures
            r.items() == self.items().push(Value::Integer(value)),
    {
        let mut elements = self.elements;
        let item = CfuaType::Integer(value);
        let ghost model = item@;
        elements.push(item);
        let r = CfuaIntegerArray { elements };
        assert(r.items() =~= self.items().push(model));
        r
    }
}

impl ToCfuaArray for CfuaIntegerArray {
    closed spec fn items(&self) -> Seq<Value> {
        values_of(self.elements@)
    }

    fn finish(self) -> (r: CfuaType) {
        proof {
            lemma_array_view(self.elements);
        }
        CfuaType::Array(self.elements)
    }
}

/// An array of floats.
pub struct CfuaFloatArray {
    elements: Vec<CfuaType>,
}

impl CfuaFloatArray {
    /// An array without elements.
    pub fn new() -> (r: Self)
        ensures
            r.items() == Seq::<Value>::empty(),
    {
        let r = CfuaFloatArray { elements: Vec::new() };
        r
    }

    /// The array with `value` behind its elements.
    pub fn push(self, value: CfuaFloat) -> (r: Self)
        ensures
            r.items() == self.items().push(Value::Float(value@)),
    {
        let mut elements = self.elements;
        let item = CfuaType::Float(value);
        let ghost model = item@;
        elements.push(item);
        let r = CfuaFloatArray { elements };
        assert(r.items() =~= self.items().push(model));
        r
    }
}

impl ToCfuaArray for CfuaFloatArray {
    closed spec fn items(&self) -> Seq<Value> {
        values_of(self.elements@)
    }

    fn finish(self) -> (r: CfuaType) {
        proof {
            lemma_array_view(self.elements);
        }
        CfuaType::Array(self.elements)
    }
}

/// An array of booleans.
pub struct CfuaBooleanArray {
    elements: Vec<CfuaType>,
}

impl CfuaBooleanArray {
    /// An array without elements.
    pub fn new() -> (r: Self)
        ensures
            r.items() == Seq::<Value>::empty(),
    {
        let r = CfuaBooleanArray { elements: Vec::new() };
        r
    }

    /// The array with `value` behind its elements.
    pub fn push(self, value: bool) -> (r: Self)
        ensures
            r.items() == self.items().push(Value::Bool(value)),
    {
        let mut elements = self.elements;
        let item = CfuaType::Bool(value);
        let ghost model = item@;
        elements.push(item);
        let r = CfuaBooleanArray { elements };
        assert(r.items() =~= self.items().push(model));
        r
    }
}

impl ToCfuaArray for CfuaBooleanArray {
    closed spec fn items(&self) -> Seq<Value> {
        values_of(self.elements@)
    }

    fn finish(self) -> (r: CfuaType) {
        proof {
            lemma_array_view(self.elements);
        }
        CfuaType::Array(self.elements)
    }
}

/// An array of strings.
pub struct CfuaStringArray {
    elements: Vec<CfuaType>,
}

impl CfuaStringArray {
    /// An array without elements.
    pub fn new() -> (r: Self)
        ensures
            r.items() == Seq::<Value>::empty(),
    {
        let r = CfuaStringArray { elements: Vec::new() };
        r
    }

    /// The array with `value` behind its elements.
    pub fn push(self, value: String) -> (r: Self)
        ensures
            r.items() == self.items().push(Value::Text(value@)),
    {
        let mut elements = self.elements;
        let item = CfuaType::String(value);
        let ghost model = item@;
        elements.push(item);
        let r = CfuaStringArray { elements };
        assert(r.items() =~= self.items().push(model));
        r
    }
}

impl ToCfuaArray for CfuaStringArray {
    closed spec fn items(&self) -> Seq<Value> {
        values_of(self.elements@)
    }

    fn finish(self) -> (r: CfuaType) {
        proof {
            lemma_array_view(self.elements);
        }
        CfuaType::Array(self.elements)
    }
}

} // verus!
