//! Relationship annotations of the schema layer.
//!
//! When the schema is built, relationships to models and commands are
//! annotated with everything execution needs later.  The one piece of
//! logic here is [`CommandTargetSource::new`]: deciding whether a
//! command relationship has an executable target, and rejecting targets
//! that are backed by a procedure or that lack capabilities.

use vstd::prelude::*;
use crate::command_permissions::CommandWithPermissions;
use crate::commands::{
    CommandSource, DataConnectorCommand, DataConnectorLink, Qualified, QualifiedTypeReference,
    TypeMapping,
};
use crate::config::string_pairs_view;

verus! {

/// Object or array cardinality of a relationship.
#[derive(Debug, Clone, Copy, PartialEq, Eq, Structural)]
pub enum RelationshipType {
    Object,
    Array,
}

/// Whether a relationship target's base type is an object or a scalar.
#[derive(Debug, Clone, Copy, PartialEq, Eq, Structural)]
pub enum TypeKind {
    Scalar,
    Object,
}

/// What the target data connector can do for a relationship.
#[derive(Debug, Clone, Copy, PartialEq, Eq, Structural)]
pub struct RelationshipCapabilities {
    pub supports_relationships: bool,
}

/// The resolved model a relationship targets.
#[derive(Debug, PartialEq)]
pub struct ModelTargetSource {
    pub model: Qualified,
}

/// One field-to-field mapping of a model relationship.
#[derive(Debug, PartialEq)]
pub struct RelationshipModelMapping {
    pub source_field: String,
    pub target_field: String,
}

/// One field-to-argument mapping of a command relationship.
#[derive(Debug, PartialEq)]
pub struct RelationshipCommandMapping {
    pub source_field: String,
    pub argument_name: String,
}

/// A resolved relationship, as the schema layer reads it.
#[derive(Debug, PartialEq)]
pub struct Relationship {
    pub name: String,
    pub source: Qualified,
    pub target_capabilities: Option<RelationshipCapabilities>,
}

/// The annotation of a relationship to a model.
#[derive(Debug, PartialEq)]
pub struct ModelRelationshipAnnotation {
    pub source_type: Qualified,
    pub relationship_name: String,
    pub model_name: Qualified,
    pub target_source: Option<ModelTargetSource>,
    pub target_type: Qualified,
    pub relationship_type: RelationshipType,
    pub mappings: Vec<RelationshipModelMapping>,
}

/// The annotation of a relationship used in a boolean filter.
#[derive(Debug, PartialEq)]
pub struct FilterRelationshipAnnotation {
    pub relationship_name: String,
    pub relationship_type: RelationshipType,
    pub source_type: Qualified,
    pub source_data_connector: DataConnectorLink,
    pub source_type_mappings: Vec<(Qualified, TypeMapping)>,
    pub target_source: ModelTargetSource,
    pub target_type: Qualified,
    pub target_model_name: Qualified,
    pub mappings: Vec<RelationshipModelMapping>,
}

/// The annotation of a relationship used in an order-by expression.
#[derive(Debug, PartialEq)]
pub struct OrderByRelationshipAnnotation {
    pub relationship_name: String,
    pub relationship_type: RelationshipType,
    pub source_type: Qualified,
    pub source_data_connector: DataConnectorLink,
    pub source_type_mappings: Vec<(Qualified, TypeMapping)>,
    pub target_source: ModelTargetSource,
    pub target_type: Qualified,
    pub target_model_name: Qualified,
    pub mappings: Vec<RelationshipModelMapping>,
}

/// The annotation of a relationship to a command.
#[derive(Debug, PartialEq)]
pub struct CommandRelationshipAnnotation {
    pub source_type: Qualified,
    pub relationship_name: String,
    pub command_name: Qualified,
    pub target_source: Option<CommandTargetSource>,
    pub target_type: QualifiedTypeReference,
    pub target_base_type_kind: TypeKind,
    pub mappings: Vec<RelationshipCommandMapping>,
}

/// Where a command relationship executes: the command's connector
/// details, the function backing it, and the target's capabilities.
#[derive(Debug, PartialEq)]
pub struct CommandTargetSource {
    pub details: CommandSourceDetail,
    pub function_name: String,
    pub capabilities: RelationshipCapabilities,
}

/// The connector details carried into a command relationship.
#[derive(Debug, PartialEq)]
pub struct CommandSourceDetail {
    pub data_connector: DataConnectorLink,
    pub type_mappings: Vec<(Qualified, TypeMapping)>,
    pub argument_mappings: Vec<(String, String)>,
}

/// Why a command relationship cannot be annotated.
#[derive(Debug, PartialEq)]
pub enum Error {
    RelationshipsToProcedureBasedCommandsAreNotSupported,
    InternalMissingRelationshipCapabilities { source_type_name: Qualified, relationship: String },
}

/// Type mappings, read by name and field content.
pub open spec fn type_mappings_view(v: Seq<(Qualified, TypeMapping)>) -> Seq<((
    Seq<char>,
    Seq<char>,
), Seq<(Seq<char>, Seq<char>)>)> {
    v.map_values(
        |p: (Qualified, TypeMapping)| (p.0@, string_pairs_view(p.1.field_mappings@)),
    )
}

/// A copy of a (name, value) list, pair for pair.
#[verifier::loop_isolation(false)]
fn clone_string_pairs(v: &Vec<(String, String)>) -> (r: Vec<(String, String)>)
    ensures
        r@ == v@,
{
    let n = v.len();
    let mut out: Vec<(String, String)> = Vec::new();
    let mut i: usize = 0;
    while i < n
        invariant
            0 <= i <= n,
            n == v@.len(),
            out@ =~= v@.subrange(0, i as int),
        decreases n - i,
    {
        out.push((v[i].0.clone(), v[i].1.clone()));
        proof {
            assert(out@ =~= v@.subrange(0, i as int + 1));
        }
        i += 1;
    }
    proof {
        assert(v@.subrange(0, n as int) =~= v@);
    }
    out
}

/// A copy of a type-mapping list, read-equal to the original.
#[verifier::loop_isolation(false)]
fn clone_type_mappings(v: &Vec<(Qualified, TypeMapping)>) -> (r: Vec<(Qualified, TypeMapping)>)
    ensures
        type_mappings_view(r@) == type_mappings_view(v@),
{
    let n = v.len();
    let mut out: Vec<(Qualified, TypeMapping)> = Vec::new();
    let mut i: usize = 0;
    while i < n
        invariant
            0 <= i <= n,
            n == v@.len(),
            type_mappings_view(out@) =~~= type_mappings_view(v@.subrange(0, i as int)),
        decreases n - i,
    {
        let ghost pre = out@;
        let entry = &v[i];
        let mapping = TypeMapping { field_mappings: clone_string_pairs(&entry.1.field_mappings) };
        out.push((entry.0.clone(), mapping));
        proof {
            let next = v@.subrange(0, i as int + 1);
            assert forall|k: int|
                0 <= k < next.len() implies type_mappings_view(out@)[k] =~~= type_mappings_view(
                next,
            )[k] by {
                if k < i as int {
                    assert(out@[k] == pre[k]);
                    assert(next[k] == v@.subrange(0, i as int)[k]);
                    assert(type_mappings_view(pre)[k] =~~= type_mappings_view(
                        v@.subrange(0, i as int),
                    )[k]);
                } else {
                    assert(out@[k].0 == v@[i as int].0);
                    assert(out@[k].1.field_mappings@ == v@[i as int].1.field_mappings@);
                    assert(next[k] == v@[i as int]);
                }
            }
            assert(type_mappings_view(out@) =~~= type_mappings_view(next));
        }
        i += 1;
    }
    proof {
        assert(v@.subrange(0, n as int) =~= v@);
        assert(type_mappings_view(out@) =~~= type_mappings_view(v@));
    }
    out
}

impl CommandTargetSource {
    /// The target source of a command relationship, if the command has
    /// a source at all.
    ///
    /// A command backed by a procedure cannot be a relationship target;
    /// a target whose relationship carries no capabilities is an
    /// internal fault naming the source type and the relationship.
    pub fn new(command: &CommandWithPermissions, relationship: &Relationship) -> (r: Result<
        Option<CommandTargetSource>,
        Error,
    >)
        ensures
            command.command.source is None ==> (r matches Ok(o) && o is None),
            command.command.source matches Some(src) ==> match src.source {
                DataConnectorCommand::Procedure(_) => r == Err::<Option<CommandTargetSource>, Error>(
                    Error::RelationshipsToProcedureBasedCommandsAreNotSupported,
                ),
                DataConnectorCommand::Function(f) => match relationship.target_capabilities {
                    None => r matches Err(e)
                        && e matches Error::InternalMissingRelationshipCapabilities {
                        source_type_name: tn,
                        relationship: rel,
                    } && tn@ == relationship.source@ && rel@ == relationship.name@,
                    Some(capabilities) => r matches Ok(o) && o matches Some(ts)
                        && ts.function_name@ == f@ && ts.capabilities == capabilities
                        && ts.details.data_connector == src.data_connector
                        && type_mappings_view(ts.details.type_mappings@) == type_mappings_view(
                        src.type_mappings@,
                    ) && ts.details.argument_mappings@ == src.argument_mappings@,
                },
            },
    {
        match &command.command.source {
            None => Ok(None),
            Some(command_source) => {
                match &command_source.source {
                    DataConnectorCommand::Procedure(_) => Err(
                        Error::RelationshipsToProcedureBasedCommandsAreNotSupported,
                    ),
                    DataConnectorCommand::Function(function_name) => {
                        match &relationship.target_capabilities {
                            None => Err(
                                Error::InternalMissingRelationshipCapabilities {
                                    source_type_name: relationship.source.clone(),
                                    relationship: relationship.name.clone(),
                                },
                            ),
                            Some(capabilities) => Ok(
                                Some(
                                    CommandTargetSource {
                                        details: CommandSourceDetail {
                                            data_connector: command_source.data_connector.clone(),
                                            type_mappings: clone_type_mappings(
                                                &command_source.type_mappings,
                                            ),
                                            argument_mappings: clone_string_pairs(
                                                &command_source.argument_mappings,
                                            ),
                                        },
                                        function_name: function_name.clone(),
                                        capabilities: *capabilities,
                                    },
                                ),
                            ),
                        }
                    },
                }
            },
        }
    }
}

} // verus!
