//! The extracted schema: nodes, their fields or variants, and the type
//! algebra that describes each field.
use vstd::prelude::*;
use crate::features::Features;

verus! {

/// A delimited sequence: elements separated by a token kind.
#[derive(Debug, PartialEq, Eq)]
pub struct Punctuated {
    pub element: Box<Type>,
    pub punct: String,
}

/// The type of a field or of a variant's payload.
#[derive(Debug, PartialEq, Eq)]
pub enum Type {
    /// Another node, by name.
    NodeRef(String),
    /// A type of the standard library: text, a flag, an unsigned integer.
    Std(String),
    /// A leaf that the tokenizer layer supplies whole.
    Ext(String),
    /// A token kind, by its symbolic name.
    Token(String),
    /// A delimiter group marker: braces, brackets, parentheses.
    Group(String),
    Punctuated(Punctuated),
    Optional(Box<Type>),
    Boxed(Box<Type>),
    Vector(Box<Type>),
    Tuple(Vec<Type>),
}

/// The mathematical value of a [`Type`].
pub enum TypeV {
    NodeRef(Seq<char>),
    Std(Seq<char>),
    Ext(Seq<char>),
    Token(Seq<char>),
    Group(Seq<char>),
    Punctuated(Box<TypeV>, Seq<char>),
    Optional(Box<TypeV>),
    Boxed(Box<TypeV>),
    Vector(Box<TypeV>),
    Tuple(Seq<TypeV>),
}

pub open spec fn type_view(t: Type) -> TypeV
    decreases t, 1nat,
{
    match t {
        Type::NodeRef(s) => TypeV::NodeRef(s@),
        Type::Std(s) => TypeV::Std(s@),
        Type::Ext(s) => TypeV::Ext(s@),
        Type::Token(s) => TypeV::Token(s@),
        Type::Group(s) => TypeV::Group(s@),
        Type::Punctuated(p) => TypeV::Punctuated(Box::new(type_view(*p.element)), p.punct@),
        Type::Optional(b) => TypeV::Optional(Box::new(type_view(*b))),
        Type::Boxed(b) => TypeV::Boxed(Box::new(type_view(*b))),
        Type::Vector(b) => TypeV::Vector(Box::new(type_view(*b))),
        Type::Tuple(v) => TypeV::Tuple(types_view(v@)),
    }
}

pub open spec fn types_view(s: Seq<Type>) -> Seq<TypeV>
    decreases s, 0nat,
{
    if s.len() == 0 {
        Seq::empty()
    } else {
        types_view(s.drop_last()).push(type_view(s.last()))
    }
}

impl View for Type {
    type V = TypeV;

    open spec fn view(&self) -> TypeV {
        type_view(*self)
    }
}

/// What a node holds: named fields, variants with positional payloads, or
/// nothing that may be looked into.
#[derive(Debug, PartialEq, Eq)]
pub enum NodeData {
    /// A struct with a field that is not public: opaque.
    Private,
    Struct(Vec<(String, Type)>),
    Enum(Vec<(String, Vec<Type>)>),
}

/// One node of the schema.
#[derive(Debug)]
pub struct Node {
    pub ident: String,
    pub features: Features,
    pub data: NodeData,
    pub exhaustive: bool,
}

/// The schema: a version, the nodes in order of their names, and for each
/// token kind its spelling.
#[derive(Debug)]
pub struct Definitions {
    pub version: String,
    pub types: Vec<Node>,
    pub tokens: Vec<(String, String)>,
}

} // verus!

verus! {

/// The mathematical value of a [`NodeData`].
pub enum NodeDataV {
    Private,
    Struct(Seq<(Seq<char>, TypeV)>),
    Enum(Seq<(Seq<char>, Seq<TypeV>)>),
}

/// The mathematical value of a [`Node`].
pub struct NodeV {
    pub ident: Seq<char>,
    pub features: Set<Seq<char>>,
    pub data: NodeDataV,
    pub exhaustive: bool,
}

pub open spec fn fields_view(s: Seq<(String, Type)>) -> Seq<(Seq<char>, TypeV)> {
    s.map_values(|p: (String, Type)| (p.0@, p.1@))
}

pub open spec fn variants_view(s: Seq<(String, Vec<Type>)>) -> Seq<(Seq<char>, Seq<TypeV>)> {
    s.map_values(|p: (String, Vec<Type>)| (p.0@, types_view(p.1@)))
}

impl View for NodeData {
    type V = NodeDataV;

    open spec fn view(&self) -> NodeDataV {
        match self {
            NodeData::Private => NodeDataV::Private,
            NodeData::Struct(f) => NodeDataV::Struct(fields_view(f@)),
            NodeData::Enum(v) => NodeDataV::Enum(variants_view(v@)),
        }
    }
}

impl View for Node {
    type V = NodeV;

    open spec fn view(&self) -> NodeV {
        NodeV { ident: self.ident@, features: self.features@, data: self.data@, exhaustive: self.exhaustive }
    }
}

} // verus!
