//! Permission resolution and preset typechecking.

use auth_boundary::command_permissions::{
    resolve, resolve_command_permissions, typecheck_value_expression, ArgumentPreset,
    CommandPermissionRule, CommandPermissionsV1, Error, MetadataAccessor, QualifiedObject,
    TypecheckError, ValueExpression,
};
use auth_boundary::commands::{
    ArgumentInfo, Command, InbuiltType, Qualified, QualifiedBaseType, QualifiedTypeName,
    QualifiedTypeReference,
};
use auth_boundary::json::JsonValue;
use auth_boundary::session::{Role, SessionVariableName};
use auth_boundary::command_permissions::CommandWithPermissions;
use auth_boundary::commands::{CommandSource, DataConnectorCommand, DataConnectorLink, TypeMapping};
use auth_boundary::relationship::{
    CommandTargetSource, Error as RelationshipError, Relationship, RelationshipCapabilities,
};

fn qualified(subgraph: &str, name: &str) -> Qualified {
    Qualified { subgraph: subgraph.to_string(), name: name.to_string() }
}

fn inbuilt(t: InbuiltType, nullable: bool) -> QualifiedTypeReference {
    QualifiedTypeReference {
        underlying_type: QualifiedBaseType::Named(QualifiedTypeName::Inbuilt(t)),
        nullable,
    }
}

fn list_of(inner: QualifiedTypeReference, nullable: bool) -> QualifiedTypeReference {
    QualifiedTypeReference {
        underlying_type: QualifiedBaseType::List(Box::new(inner)),
        nullable,
    }
}

fn command(subgraph: &str, name: &str, arguments: Vec<(&str, QualifiedTypeReference)>) -> Command {
    Command {
        name: qualified(subgraph, name),
        arguments: arguments
            .into_iter()
            .map(|(n, t)| (n.to_string(), ArgumentInfo { argument_type: t }))
            .collect(),
        source: None,
    }
}

fn block(subgraph: &str, command_name: &str, rules: Vec<CommandPermissionRule>) -> QualifiedObject {
    QualifiedObject {
        subgraph: subgraph.to_string(),
        object: CommandPermissionsV1 { command_name: command_name.to_string(), permissions: rules },
    }
}

fn rule(role: &str, allow: bool, presets: Vec<(&str, ValueExpression)>) -> CommandPermissionRule {
    CommandPermissionRule {
        role: Role::new(role),
        allow_execution: allow,
        argument_presets: presets
            .into_iter()
            .map(|(a, v)| ArgumentPreset { argument: a.to_string(), value: v })
            .collect(),
    }
}

fn str_literal(s: &str) -> ValueExpression {
    ValueExpression::Literal(JsonValue::Str(s.to_string()))
}

#[test]
fn test_resolve_seeds_every_command_and_compiles_rules() {
    let commands = vec![
        (qualified("default", "get_user"), command(
            "default",
            "get_user",
            vec![("user_id", inbuilt(InbuiltType::Int, false))],
        )),
        (qualified("default", "noop"), command("default", "noop", vec![])),
    ];
    let metadata = MetadataAccessor {
        command_permissions: vec![block(
            "default",
            "get_user",
            vec![rule(
                "admin",
                true,
                vec![("user_id", ValueExpression::Literal(JsonValue::Number("1".to_string())))],
            )],
        )],
    };
    let table = resolve(metadata, commands).unwrap();
    assert_eq!(table.len(), 2);
    assert_eq!(table[0].0, qualified("default", "get_user"));
    assert_eq!(table[1].0, qualified("default", "noop"));
    assert!(table[1].1.permissions.is_empty());
    let permissions = &table[0].1.permissions;
    assert_eq!(permissions.len(), 1);
    assert_eq!(permissions[0].0, Role::new("admin"));
    assert!(permissions[0].1.allow_execution);
    let presets = &permissions[0].1.argument_presets;
    assert_eq!(presets.len(), 1);
    assert_eq!(presets[0].0, "user_id");
    assert_eq!((presets[0].1).0, inbuilt(InbuiltType::Int, false));
    assert_eq!(
        (presets[0].1).1,
        ValueExpression::Literal(JsonValue::Number("1".to_string()))
    );
}

#[test]
fn test_two_blocks_for_same_command_fail_with_duplicate_permission() {
    let commands = vec![
        (qualified("default", "get_user"), command("default", "get_user", vec![])),
    ];
    let metadata = MetadataAccessor {
        command_permissions: vec![
            block("default", "get_user", vec![rule("admin", true, vec![])]),
            block("default", "get_user", vec![rule("user", false, vec![])]),
        ],
    };
    let r = resolve(metadata, commands);
    assert_eq!(
        r,
        Err(Error::DuplicateCommandPermission { command_name: qualified("default", "get_user") })
    );
}

#[test]
fn test_second_block_fails_even_when_first_names_no_role() {
    let commands = vec![
        (qualified("default", "get_user"), command("default", "get_user", vec![])),
    ];
    let metadata = MetadataAccessor {
        command_permissions: vec![
            block("default", "get_user", vec![]),
            block("default", "get_user", vec![rule("user", false, vec![])]),
        ],
    };
    let r = resolve(metadata, commands);
    assert_eq!(
        r,
        Err(Error::DuplicateCommandPermission { command_name: qualified("default", "get_user") })
    );
}

#[test]
fn test_block_for_undeclared_command_fails_with_unknown_command() {
    let commands = vec![
        (qualified("default", "get_user"), command("default", "get_user", vec![])),
    ];
    let metadata = MetadataAccessor {
        command_permissions: vec![block("default", "get_account", vec![])],
    };
    let r = resolve(metadata, commands);
    assert_eq!(
        r,
        Err(Error::UnknownCommandInCommandPermissions {
            command_name: qualified("default", "get_account"),
        })
    );
}

#[test]
fn test_same_command_name_in_other_subgraph_is_unknown() {
    let commands = vec![
        (qualified("default", "get_user"), command("default", "get_user", vec![])),
    ];
    let metadata = MetadataAccessor {
        command_permissions: vec![block("other", "get_user", vec![])],
    };
    let r = resolve(metadata, commands);
    assert_eq!(
        r,
        Err(Error::UnknownCommandInCommandPermissions {
            command_name: qualified("other", "get_user"),
        })
    );
}

#[test]
fn test_duplicate_argument_preset_fails() {
    let c = command(
        "default",
        "get_user",
        vec![("user_id", inbuilt(InbuiltType::Int, false))],
    );
    let rules = CommandPermissionsV1 {
        command_name: "get_user".to_string(),
        permissions: vec![rule(
            "admin",
            true,
            vec![
                ("user_id", ValueExpression::Literal(JsonValue::Number("1".to_string()))),
                ("user_id", ValueExpression::Literal(JsonValue::Number("2".to_string()))),
            ],
        )],
    };
    let r = resolve_command_permissions(&c, rules);
    assert_eq!(
        r,
        Err(Error::DuplicateCommandArgumentPreset {
            command_name: qualified("default", "get_user"),
            argument_name: "user_id".to_string(),
        })
    );
}

#[test]
fn test_preset_for_undeclared_argument_fails_with_mismatch() {
    let c = command(
        "default",
        "get_user",
        vec![("user_id", inbuilt(InbuiltType::Int, false))],
    );
    let rules = CommandPermissionsV1 {
        command_name: "get_user".to_string(),
        permissions: vec![rule("admin", true, vec![("no_such_argument", str_literal("x"))])],
    };
    let r = resolve_command_permissions(&c, rules);
    assert_eq!(
        r,
        Err(Error::CommandArgumentPresetMismatch {
            command_name: qualified("default", "get_user"),
            argument_name: "no_such_argument".to_string(),
        })
    );
}

#[test]
fn test_ill_typed_preset_fails_with_type_error_naming_command_and_argument() {
    let c = command(
        "default",
        "get_user",
        vec![("user_id", inbuilt(InbuiltType::Int, false))],
    );
    let rules = CommandPermissionsV1 {
        command_name: "get_user".to_string(),
        permissions: vec![rule("admin", true, vec![("user_id", str_literal("one"))])],
    };
    let r = resolve_command_permissions(&c, rules);
    assert_eq!(
        r,
        Err(Error::CommandArgumentPresetTypeError {
            command_name: qualified("default", "get_user"),
            argument_name: "user_id".to_string(),
            type_error: TypecheckError::ScalarTypeMismatch(InbuiltType::Int),
        })
    );
}

#[test]
fn test_session_variable_presets_always_typecheck() {
    let c = command(
        "default",
        "get_user",
        vec![("user_id", inbuilt(InbuiltType::Int, false))],
    );
    let rules = CommandPermissionsV1 {
        command_name: "get_user".to_string(),
        permissions: vec![rule(
            "admin",
            true,
            vec![(
                "user_id",
                ValueExpression::SessionVariable(
                    SessionVariableName::parse("x-hasura-user-id").unwrap(),
                ),
            )],
        )],
    };
    let r = resolve_command_permissions(&c, rules);
    assert!(r.is_ok());
}

#[test]
fn test_typecheck_nullability() {
    let ty = inbuilt(InbuiltType::Int, true);
    assert_eq!(
        typecheck_value_expression(&ty, &ValueExpression::Literal(JsonValue::Null)),
        Ok(())
    );
    let ty = inbuilt(InbuiltType::Int, false);
    assert_eq!(
        typecheck_value_expression(&ty, &ValueExpression::Literal(JsonValue::Null)),
        Err(TypecheckError::NullInNonNullableType)
    );
}

#[test]
fn test_typecheck_scalars() {
    let cases = [
        (InbuiltType::Boolean, JsonValue::Bool(true), true),
        (InbuiltType::Boolean, JsonValue::Str("true".to_string()), false),
        (InbuiltType::Int, JsonValue::Number("3".to_string()), true),
        (InbuiltType::Float, JsonValue::Number("3.5".to_string()), true),
        (InbuiltType::ID, JsonValue::Str("abc".to_string()), true),
        (InbuiltType::Str, JsonValue::Str("abc".to_string()), true),
        (InbuiltType::Str, JsonValue::Number("3".to_string()), false),
    ];
    for (t, v, ok) in cases {
        let r = typecheck_value_expression(&inbuilt(t, false), &ValueExpression::Literal(v));
        assert_eq!(r.is_ok(), ok, "{t:?}");
    }
}

#[test]
fn test_typecheck_lists_elementwise() {
    let ty = list_of(inbuilt(InbuiltType::Int, false), false);
    let good = JsonValue::Array(vec![
        JsonValue::Number("1".to_string()),
        JsonValue::Number("2".to_string()),
    ]);
    assert_eq!(typecheck_value_expression(&ty, &ValueExpression::Literal(good)), Ok(()));
    let bad = JsonValue::Array(vec![
        JsonValue::Number("1".to_string()),
        JsonValue::Str("2".to_string()),
    ]);
    assert_eq!(
        typecheck_value_expression(&ty, &ValueExpression::Literal(bad)),
        Err(TypecheckError::ScalarTypeMismatch(InbuiltType::Int))
    );
    let not_array = JsonValue::Number("1".to_string());
    assert_eq!(
        typecheck_value_expression(&ty, &ValueExpression::Literal(not_array)),
        Err(TypecheckError::NonArrayValueInListType)
    );
}

#[test]
fn test_typecheck_custom_types_are_not_checked() {
    let ty = QualifiedTypeReference {
        underlying_type: QualifiedBaseType::Named(QualifiedTypeName::Custom(qualified(
            "default", "address",
        ))),
        nullable: false,
    };
    let v = JsonValue::Object(vec![("street".to_string(), JsonValue::Str("x".to_string()))]);
    assert_eq!(typecheck_value_expression(&ty, &ValueExpression::Literal(v)), Ok(()));
}

#[test]
fn test_command_target_source() {
    let relationship = Relationship {
        name: "user_details".to_string(),
        source: qualified("default", "user"),
        target_capabilities: Some(RelationshipCapabilities { supports_relationships: true }),
    };

    // A command without a source has no target source.
    let bare = CommandWithPermissions {
        command: command("default", "get_user", vec![]),
        permissions: vec![],
    };
    assert_eq!(CommandTargetSource::new(&bare, &relationship), Ok(None));

    // A function-backed command with capabilities yields a target source.
    let mut with_source = CommandWithPermissions {
        command: command("default", "get_user", vec![]),
        permissions: vec![],
    };
    with_source.command.source = Some(CommandSource {
        data_connector: DataConnectorLink { name: qualified("default", "db") },
        type_mappings: vec![(
            qualified("default", "user"),
            TypeMapping { field_mappings: vec![("id".to_string(), "user_id".to_string())] },
        )],
        argument_mappings: vec![("user_id".to_string(), "id".to_string())],
        source: DataConnectorCommand::Function("get_user_fn".to_string()),
    });
    let ts = CommandTargetSource::new(&with_source, &relationship).unwrap().unwrap();
    assert_eq!(ts.function_name, "get_user_fn");
    assert!(ts.capabilities.supports_relationships);
    assert_eq!(ts.details.data_connector.name, qualified("default", "db"));
    assert_eq!(ts.details.argument_mappings, vec![("user_id".to_string(), "id".to_string())]);

    // A procedure-backed command is rejected.
    let mut procedure = CommandWithPermissions {
        command: command("default", "delete_user", vec![]),
        permissions: vec![],
    };
    procedure.command.source = Some(CommandSource {
        data_connector: DataConnectorLink { name: qualified("default", "db") },
        type_mappings: vec![],
        argument_mappings: vec![],
        source: DataConnectorCommand::Procedure("delete_user_proc".to_string()),
    });
    assert_eq!(
        CommandTargetSource::new(&procedure, &relationship),
        Err(RelationshipError::RelationshipsToProcedureBasedCommandsAreNotSupported)
    );

    // Missing capabilities are an internal fault naming the place.
    let no_caps = Relationship {
        name: "user_details".to_string(),
        source: qualified("default", "user"),
        target_capabilities: None,
    };
    assert_eq!(
        CommandTargetSource::new(&with_source, &no_caps),
        Err(RelationshipError::InternalMissingRelationshipCapabilities {
            source_type_name: qualified("default", "user"),
            relationship: "user_details".to_string(),
        })
    );
}
