//! Schema nodes: tagged values written in schema notation, such as the
//! values a default or an annotation carries.
use vstd::prelude::*;

use crate::name::Name;

verus! {

/// A node: a tag and the data it carries.
#[derive(Debug)]
pub struct SchemaNode {
    pub tag: Name,
    pub data: SchemaNodeData,
}

/// What a node carries: nothing, one value, a vector, or a map.
#[derive(Debug)]
pub enum SchemaNodeData {
    Unit,
    Value(SchemaNodeValue),
    Vector(Vec<SchemaNodeValue>),
    MapOf(Vec<SchemaNodePair>),
}

/// A value inside a node: a symbol, text, a nested node, a vector, or a map.
#[derive(Debug)]
pub enum SchemaNodeValue {
    Symbol(Name),
    Text(String),
    Node(Box<SchemaNode>),
    Vector(Vec<SchemaNodeValue>),
    MapOf(Vec<SchemaNodePair>),
}

/// One entry of a map value: its key and value.
#[derive(Debug)]
pub struct SchemaNodePair {
    pub key: Name,
    pub value: SchemaNodeValue,
}

impl SchemaNode {
    pub fn new(tag: Name, data: SchemaNodeData) -> (r: Self)
        ensures
            r.tag == tag,
            r.data == data,
    {
        SchemaNode { tag, data }
    }

    pub fn tag(&self) -> (r: &Name)
        ensures
            *r == self.tag,
    {
        &self.tag
    }

    pub fn data(&self) -> (r: &SchemaNodeData)
        ensures
            *r == self.data,
    {
        &self.data
    }
}

impl SchemaNodePair {
    pub fn new(key: Name, value: SchemaNodeValue) -> (r: Self)
        ensures
            r.key == key,
            r.value == value,
    {
        SchemaNodePair { key, value }
    }

    pub fn key(&self) -> (r: &Name)
        ensures
            *r == self.key,
    {
        &self.key
    }

    pub fn value(&self) -> (r: &SchemaNodeValue)
        ensures
            *r == self.value,
    {
        &self.value
    }
}

} // verus!
