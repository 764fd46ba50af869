//! The declared-command model: names qualified by subgraph, type
//! references, and the command definition whose arguments the permission
//! resolver checks presets against.

use vstd::prelude::*;
use crate::table::distinct_keys;

verus! {

/// A name qualified by the subgraph that declares it.
#[derive(Debug, PartialEq)]
pub struct Qualified {
    pub subgraph: String,
    pub name: String,
}

impl View for Qualified {
    type V = (Seq<char>, Seq<char>);

    open spec fn view(&self) -> (Seq<char>, Seq<char>) {
        (self.subgraph@, self.name@)
    }
}

impl Qualified {
    pub fn new(subgraph: String, name: String) -> (r: Qualified)
        ensures
            r@ == (subgraph@, name@),
    {
        Qualified { subgraph, name }
    }

    pub fn clone(&self) -> (r: Qualified)
        ensures
            r == *self,
    {
        Qualified { subgraph: self.subgraph.clone(), name: self.name.clone() }
    }

    /// Whether this name is the pair (`subgraph`, `name`).
    pub fn matches(&self, subgraph: &str, name: &str) -> (r: bool)
        ensures
            r == (self@ == (subgraph@, name@)),
    {
        crate::headers::str_eq(self.subgraph.as_str(), subgraph) && crate::headers::str_eq(
            self.name.as_str(),
            name,
        )
    }

    /// Whether two qualified names are the same pair.
    pub fn same_as(&self, other: &Qualified) -> (r: bool)
        ensures
            r == (self@ == other@),
    {
        self.matches(other.subgraph.as_str(), other.name.as_str())
    }
}

/// The scalar types built into the type system.
#[derive(Debug, Clone, Copy, PartialEq, Eq, Structural)]
pub enum InbuiltType {
    ID,
    Int,
    Float,
    Boolean,
    Str,
}

/// A named type: built in, or declared in some subgraph.
#[derive(Debug, PartialEq)]
pub enum QualifiedTypeName {
    Inbuilt(InbuiltType),
    Custom(Qualified),
}

impl QualifiedTypeName {
    pub fn clone(&self) -> (r: QualifiedTypeName)
        ensures
            r == *self,
    {
        match self {
            QualifiedTypeName::Inbuilt(t) => QualifiedTypeName::Inbuilt(*t),
            QualifiedTypeName::Custom(q) => QualifiedTypeName::Custom(q.clone()),
        }
    }
}

/// The shape of a type reference: a named type or a list of elements.
#[derive(Debug, PartialEq)]
pub enum QualifiedBaseType {
    Named(QualifiedTypeName),
    List(Box<QualifiedTypeReference>),
}

/// A type expression a command argument is declared with.
#[derive(Debug, PartialEq)]
pub struct QualifiedTypeReference {
    pub underlying_type: QualifiedBaseType,
    pub nullable: bool,
}

impl QualifiedTypeReference {
    pub fn clone(&self) -> (r: QualifiedTypeReference)
        ensures
            r == *self,
        decreases *self,
    {
        let underlying_type = match &self.underlying_type {
            QualifiedBaseType::Named(n) => QualifiedBaseType::Named(n.clone()),
            QualifiedBaseType::List(inner) => QualifiedBaseType::List(
                Box::new((**inner).clone()),
            ),
        };
        QualifiedTypeReference { underlying_type, nullable: self.nullable }
    }
}

/// What a command declares about one argument.
#[derive(Debug, PartialEq)]
pub struct ArgumentInfo {
    pub argument_type: QualifiedTypeReference,
}

/// The data connector operation a command is backed by.
#[derive(Debug, PartialEq)]
pub enum DataConnectorCommand {
    Function(String),
    Procedure(String),
}

/// A link to the data connector that executes a command.
#[derive(Debug, PartialEq)]
pub struct DataConnectorLink {
    pub name: Qualified,
}

impl DataConnectorLink {
    pub fn clone(&self) -> (r: DataConnectorLink)
        ensures
            r == *self,
    {
        DataConnectorLink { name: self.name.clone() }
    }
}

/// How one declared object type maps onto the data connector's fields.
#[derive(Debug, PartialEq)]
pub struct TypeMapping {
    pub field_mappings: Vec<(String, String)>,
}

/// Where a command executes: its connector, type and argument mappings,
/// and the function or procedure that backs it.
#[derive(Debug, PartialEq)]
pub struct CommandSource {
    pub data_connector: DataConnectorLink,
    pub type_mappings: Vec<(Qualified, TypeMapping)>,
    pub argument_mappings: Vec<(String, String)>,
    pub source: DataConnectorCommand,
}

/// A declared command: its qualified name, its declared arguments, and
/// where it executes, if anywhere.
#[derive(Debug, PartialEq)]
pub struct Command {
    pub name: Qualified,
    pub arguments: Vec<(String, ArgumentInfo)>,
    pub source: Option<CommandSource>,
}

/// A command's arguments, keyed by argument name.
pub open spec fn arguments_view(command: Command) -> Seq<(Seq<char>, ArgumentInfo)> {
    command.arguments@.map_values(|p: (String, ArgumentInfo)| (p.0@, p.1))
}

impl Command {
    /// Well-formed: argument names distinct, as the declaration table
    /// that produced the command keeps them.
    pub open spec fn wf(&self) -> bool {
        distinct_keys(arguments_view(*self))
    }
}

} // verus!
