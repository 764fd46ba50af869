//! Permission resolution: the authorization compiler.
//!
//! At metadata-load time, declarative per-role permission blocks are
//! compiled into a validated table: for every declared command, which
//! roles may execute it and with which type-checked argument presets.
//! The transform is total over its declared inputs and fail-fast: it
//! yields either a fully validated table or the first error, never a
//! partial one.

use vstd::prelude::*;
use crate::commands::{
    arguments_view, ArgumentInfo, Command, InbuiltType, Qualified, QualifiedBaseType,
    QualifiedTypeName, QualifiedTypeReference,
};
use crate::json::JsonValue;
use crate::session::{Role, SessionVariableName};
use crate::table::{distinct_keys, entries_contain, index_of_key, value_of_key};

verus! {

/// A preset's value: a literal, or a session-variable reference
/// evaluated per request against the authenticated caller's variables.
#[derive(Debug, PartialEq)]
pub enum ValueExpression {
    Literal(JsonValue),
    SessionVariable(SessionVariableName),
}

/// Why a literal does not fit a declared type.
#[derive(Debug, Clone, Copy, PartialEq, Eq, Structural)]
pub enum TypecheckError {
    /// `null` against a non-nullable type.
    NullInNonNullableType,
    /// A non-array literal against a list type.
    NonArrayValueInListType,
    /// A literal whose shape does not match the built-in scalar.
    ScalarTypeMismatch(InbuiltType),
}

/// Whether a literal of a built-in scalar type has the right JSON shape.
pub open spec fn spec_typecheck_inbuilt(t: InbuiltType, v: JsonValue) -> Result<
    (),
    TypecheckError,
> {
    match v {
        JsonValue::Str(_) => if t == InbuiltType::ID || t == InbuiltType::Str {
            Ok(())
        } else {
            Err(TypecheckError::ScalarTypeMismatch(t))
        },
        JsonValue::Number(_) => if t == InbuiltType::Int || t == InbuiltType::Float {
            Ok(())
        } else {
            Err(TypecheckError::ScalarTypeMismatch(t))
        },
        JsonValue::Bool(_) => if t == InbuiltType::Boolean {
            Ok(())
        } else {
            Err(TypecheckError::ScalarTypeMismatch(t))
        },
        _ => Err(TypecheckError::ScalarTypeMismatch(t)),
    }
}

/// Whether a literal fits a declared type: `null` needs nullability, a
/// list type needs an array of fitting elements, a built-in scalar
/// needs its shape, and a custom type is not checked here.
pub open spec fn spec_typecheck_value(ty: QualifiedTypeReference, v: JsonValue) -> Result<
    (),
    TypecheckError,
>
    decreases ty, 0nat,
{
    if v is Null {
        if ty.nullable {
            Ok(())
        } else {
            Err(TypecheckError::NullInNonNullableType)
        }
    } else {
        match ty.underlying_type {
            QualifiedBaseType::Named(QualifiedTypeName::Inbuilt(t)) => spec_typecheck_inbuilt(t, v),
            QualifiedBaseType::Named(QualifiedTypeName::Custom(_)) => Ok(()),
            QualifiedBaseType::List(inner) => match v {
                JsonValue::Array(items) => spec_typecheck_elems(*inner, items@),
                _ => Err(TypecheckError::NonArrayValueInListType),
            },
        }
    }
}

/// The first element, in order, that does not fit the element type.
pub open spec fn spec_typecheck_elems(ty: QualifiedTypeReference, items: Seq<JsonValue>) -> Result<
    (),
    TypecheckError,
>
    decreases ty, items.len() + 1,
{
    if items.len() == 0 {
        Ok(())
    } else {
        match spec_typecheck_value(ty, items[0]) {
            Ok(_) => spec_typecheck_elems(ty, items.drop_first()),
            Err(e) => Err(e),
        }
    }
}

/// What the typecheck says of a whole value expression: a literal is
/// checked against the declared type; a session-variable reference is
/// always accepted, since its value is only known per request.
pub open spec fn spec_typecheck_value_expression(
    ty: QualifiedTypeReference,
    ve: ValueExpression,
) -> Result<(), TypecheckError> {
    match ve {
        ValueExpression::Literal(j) => spec_typecheck_value(ty, j),
        ValueExpression::SessionVariable(_) => Ok(()),
    }
}

/// Checks a literal against a declared type.
#[verifier::loop_isolation(false)]
pub fn typecheck_qualified_type_reference(ty: &QualifiedTypeReference, value: &JsonValue) -> (r:
    Result<(), TypecheckError>)
    ensures
        r == spec_typecheck_value(*ty, *value),
    decreases *ty,
{
    if matches!(value, JsonValue::Null) {
        return if ty.nullable {
            Ok(())
        } else {
            Err(TypecheckError::NullInNonNullableType)
        };
    }
    match &ty.underlying_type {
        QualifiedBaseType::Named(QualifiedTypeName::Inbuilt(t)) => {
            match value {
                JsonValue::Str(_) => if matches!(t, InbuiltType::ID) || matches!(
                    t,
                    InbuiltType::Str,
                ) {
                    Ok(())
                } else {
                    Err(TypecheckError::ScalarTypeMismatch(*t))
                },
                JsonValue::Number(_) => if matches!(t, InbuiltType::Int) || matches!(
                    t,
                    InbuiltType::Float,
                ) {
                    Ok(())
                } else {
                    Err(TypecheckError::ScalarTypeMismatch(*t))
                },
                JsonValue::Bool(_) => if matches!(t, InbuiltType::Boolean) {
                    Ok(())
                } else {
                    Err(TypecheckError::ScalarTypeMismatch(*t))
                },
                _ => Err(TypecheckError::ScalarTypeMismatch(*t)),
            }
        },
        QualifiedBaseType::Named(QualifiedTypeName::Custom(_)) => Ok(()),
        QualifiedBaseType::List(inner) => {
            match value {
                JsonValue::Array(items) => {
                    let n = items.len();
                    proof {
                        assert(items@.subrange(0, n as int) =~= items@);
                    }
                    let mut i: usize = 0;
                    while i < n
                        invariant
                            0 <= i <= n,
                            n == items@.len(),
                            spec_typecheck_elems(**inner, items@.subrange(i as int, n as int))
                                == spec_typecheck_elems(**inner, items@),
                        decreases n - i,
                    {
                        let ghost tail = items@.subrange(i as int, n as int);
                        proof {
                            assert(tail[0] == items@[i as int]);
                            assert(tail.drop_first() =~= items@.subrange(i as int + 1, n as int));
                        }
                        match typecheck_qualified_type_reference(&**inner, &items[i]) {
                            Ok(_) => {},
                            Err(e) => {
                                return Err(e);
                            },
                        }
                        i += 1;
                    }
                    proof {
                        assert(items@.subrange(n as int, n as int) =~= Seq::<JsonValue>::empty());
                    }
                    Ok(())
                },
                _ => Err(TypecheckError::NonArrayValueInListType),
            }
        },
    }
}

/// Checks a value expression against a declared type.
pub fn typecheck_value_expression(ty: &QualifiedTypeReference, value: &ValueExpression) -> (r:
    Result<(), TypecheckError>)
    ensures
        r == spec_typecheck_value_expression(*ty, *value),
{
    match value {
        ValueExpression::Literal(j) => typecheck_qualified_type_reference(ty, j),
        ValueExpression::SessionVariable(_) => Ok(()),
    }
}

/// Resolves a preset's value expression against the argument's declared
/// type.  The richer resolution of the surrounding metadata pipeline
/// (predicates against models and data connectors) belongs to a
/// collaborator outside this crate, so resolution here hands the
/// expression through unchanged; the typecheck is applied separately so
/// that its failure can carry the offending command and argument.
pub fn resolve_value_expression_for_argument(
    value: ValueExpression,
    argument_type: &QualifiedTypeReference,
) -> (r: ValueExpression)
    ensures
        r == value,
{
    let _ = argument_type;
    value
}

/// The compiled rule for one (command, role) pair: whether the role may
/// execute the command, and the validated presets for its arguments.
#[derive(Debug, PartialEq)]
pub struct CommandPermission {
    pub allow_execution: bool,
    pub argument_presets: Vec<(String, (QualifiedTypeReference, ValueExpression))>,
}

/// The value of a [`CommandPermission`]: presets keyed by argument name.
#[verifier::ext_equal]
pub struct CommandPermissionView {
    pub allow_execution: bool,
    pub argument_presets: Seq<(Seq<char>, (QualifiedTypeReference, ValueExpression))>,
}

/// Preset entries, keyed by the argument name's character content.
pub open spec fn presets_view(v: Seq<(String, (QualifiedTypeReference, ValueExpression))>) -> Seq<
    (Seq<char>, (QualifiedTypeReference, ValueExpression)),
> {
    v.map_values(|p: (String, (QualifiedTypeReference, ValueExpression))| (p.0@, p.1))
}

impl View for CommandPermission {
    type V = CommandPermissionView;

    open spec fn view(&self) -> CommandPermissionView {
        CommandPermissionView {
            allow_execution: self.allow_execution,
            argument_presets: presets_view(self.argument_presets@),
        }
    }
}

/// A declared command together with its compiled access rules, one
/// entry per role that a permission block names.
#[derive(Debug, PartialEq)]
pub struct CommandWithPermissions {
    pub command: Command,
    pub permissions: Vec<(Role, CommandPermission)>,
}

/// The value of a [`CommandWithPermissions`]: rules keyed by role.
#[verifier::ext_equal]
pub struct CommandWithPermissionsView {
    pub command: Command,
    pub permissions: Seq<(Seq<char>, CommandPermissionView)>,
}

/// Compiled rules, keyed by the role's character content.
pub open spec fn permissions_view(v: Seq<(Role, CommandPermission)>) -> Seq<(Seq<char>,
    CommandPermissionView,
)> {
    v.map_values(|p: (Role, CommandPermission)| (p.0@, p.1@))
}

impl View for CommandWithPermissions {
    type V = CommandWithPermissionsView;

    open spec fn view(&self) -> CommandWithPermissionsView {
        CommandWithPermissionsView {
            command: self.command,
            permissions: permissions_view(self.permissions@),
        }
    }
}

/// One declarative argument preset: an argument name and the value
/// expression that presets it.
#[derive(Debug, PartialEq)]
pub struct ArgumentPreset {
    pub argument: String,
    pub value: ValueExpression,
}

/// One role's declarative rule within a permission block.
#[derive(Debug, PartialEq)]
pub struct CommandPermissionRule {
    pub role: Role,
    pub allow_execution: bool,
    pub argument_presets: Vec<ArgumentPreset>,
}

/// A declarative permission block: the command it concerns and one rule
/// per role.
#[derive(Debug, PartialEq)]
pub struct CommandPermissionsV1 {
    pub command_name: String,
    pub permissions: Vec<CommandPermissionRule>,
}

/// A metadata object together with the subgraph that declares it.
#[derive(Debug, PartialEq)]
pub struct QualifiedObject {
    pub subgraph: String,
    pub object: CommandPermissionsV1,
}

/// The slice of loaded metadata that permission resolution reads.
#[derive(Debug, PartialEq)]
pub struct MetadataAccessor {
    pub command_permissions: Vec<QualifiedObject>,
}

/// Why permission resolution aborts the metadata load.
#[derive(Debug, PartialEq)]
pub enum Error {
    /// A block names a command that is not declared.
    UnknownCommandInCommandPermissions { command_name: Qualified },
    /// A command is the subject of more than one block.
    DuplicateCommandPermission { command_name: Qualified },
    /// An argument is preset twice within one role's rule.
    DuplicateCommandArgumentPreset { command_name: Qualified, argument_name: String },
    /// A preset names an argument the command does not declare.
    CommandArgumentPresetMismatch { command_name: Qualified, argument_name: String },
    /// A preset's literal does not fit the argument's declared type.
    CommandArgumentPresetTypeError {
        command_name: Qualified,
        argument_name: String,
        type_error: TypecheckError,
    },
}

/// The value of an [`Error`], naming places by their character content.
pub enum ErrorView {
    UnknownCommandInCommandPermissions { command_name: (Seq<char>, Seq<char>) },
    DuplicateCommandPermission { command_name: (Seq<char>, Seq<char>) },
    DuplicateCommandArgumentPreset {
        command_name: (Seq<char>, Seq<char>),
        argument_name: Seq<char>,
    },
    CommandArgumentPresetMismatch {
        command_name: (Seq<char>, Seq<char>),
        argument_name: Seq<char>,
    },
    CommandArgumentPresetTypeError {
        command_name: (Seq<char>, Seq<char>),
        argument_name: Seq<char>,
        type_error: TypecheckError,
    },
}

impl View for Error {
    type V = ErrorView;

    open spec fn view(&self) -> ErrorView {
        match *self {
            Error::UnknownCommandInCommandPermissions { ref command_name } =>
                ErrorView::UnknownCommandInCommandPermissions { command_name: command_name@ },
            Error::DuplicateCommandPermission { ref command_name } =>
                ErrorView::DuplicateCommandPermission { command_name: command_name@ },
            Error::DuplicateCommandArgumentPreset { ref command_name, ref argument_name } =>
                ErrorView::DuplicateCommandArgumentPreset {
                command_name: command_name@,
                argument_name: argument_name@,
            },
            Error::CommandArgumentPresetMismatch { ref command_name, ref argument_name } =>
                ErrorView::CommandArgumentPresetMismatch {
                command_name: command_name@,
                argument_name: argument_name@,
            },
            Error::CommandArgumentPresetTypeError {
                ref command_name,
                ref argument_name,
                type_error,
            } => ErrorView::CommandArgumentPresetTypeError {
                command_name: command_name@,
                argument_name: argument_name@,
                type_error,
            },
        }
    }
}

/// What validating one rule's presets, in order and fail-fast, yields:
/// the validated preset table, or the first error.
pub open spec fn spec_resolve_presets(command: Command, presets: Seq<ArgumentPreset>) -> Result<
    Seq<(Seq<char>, (QualifiedTypeReference, ValueExpression))>,
    ErrorView,
>
    decreases presets.len(),
{
    if presets.len() == 0 {
        Ok(Seq::empty())
    } else {
        match spec_resolve_presets(command, presets.drop_last()) {
            Err(e) => Err(e),
            Ok(acc) => {
                let p = presets.last();
                if entries_contain(acc, p.argument@) {
                    Err(ErrorView::DuplicateCommandArgumentPreset {
                        command_name: command.name@,
                        argument_name: p.argument@,
                    })
                } else if !entries_contain(arguments_view(command), p.argument@) {
                    Err(ErrorView::CommandArgumentPresetMismatch {
                        command_name: command.name@,
                        argument_name: p.argument@,
                    })
                } else {
                    let info = value_of_key(arguments_view(command), p.argument@);
                    match spec_typecheck_value_expression(info.argument_type, p.value) {
                        Err(te) => Err(ErrorView::CommandArgumentPresetTypeError {
                            command_name: command.name@,
                            argument_name: p.argument@,
                            type_error: te,
                        }),
                        Ok(_) => Ok(acc.push((p.argument@, (info.argument_type, p.value)))),
                    }
                }
            },
        }
    }
}

/// What validating a block's role rules, in order and fail-fast, yields.
pub open spec fn spec_resolve_rules(command: Command, rules: Seq<CommandPermissionRule>) -> Result<
    Seq<(Seq<char>, CommandPermissionView)>,
    ErrorView,
>
    decreases rules.len(),
{
    if rules.len() == 0 {
        Ok(Seq::empty())
    } else {
        match spec_resolve_rules(command, rules.drop_last()) {
            Err(e) => Err(e),
            Ok(acc) => {
                let rule = rules.last();
                match spec_resolve_presets(command, rule.argument_presets@) {
                    Err(e) => Err(e),
                    Ok(presets) => Ok(
                        acc.push(
                            (
                                rule.role@,
                                CommandPermissionView {
                                    allow_execution: rule.allow_execution,
                                    argument_presets: presets,
                                },
                            ),
                        ),
                    ),
                }
            },
        }
    }
}

/// The key under which a permission block addresses a command.
pub open spec fn block_key(b: QualifiedObject) -> (Seq<char>, Seq<char>) {
    (b.subgraph@, b.object.command_name@)
}

/// The permission table seeded from the declared commands: every
/// command present, no permissions yet.
pub open spec fn spec_seed(commands: Seq<(Qualified, Command)>) -> Seq<((Seq<char>, Seq<char>),
    CommandWithPermissionsView,
)> {
    commands.map_values(
        |p: (Qualified, Command)|
            (p.0@, CommandWithPermissionsView { command: p.1, permissions: Seq::empty() }),
    )
}

/// What applying the permission blocks to the seeded table, in order
/// and fail-fast, yields.  A block must address a declared command that
/// no earlier block addressed.
pub open spec fn spec_apply_blocks(
    seed: Seq<((Seq<char>, Seq<char>), CommandWithPermissionsView)>,
    blocks: Seq<QualifiedObject>,
) -> Result<Seq<((Seq<char>, Seq<char>), CommandWithPermissionsView)>, ErrorView>
    decreases blocks.len(),
{
    if blocks.len() == 0 {
        Ok(seed)
    } else {
        match spec_apply_blocks(seed, blocks.drop_last()) {
            Err(e) => Err(e),
            Ok(t) => {
                let b = blocks.last();
                let key = block_key(b);
                if !entries_contain(t, key) {
                    Err(ErrorView::UnknownCommandInCommandPermissions { command_name: key })
                } else if exists|j: int|
                    0 <= j < blocks.len() - 1 && block_key(#[trigger] blocks[j]) == key {
                    Err(ErrorView::DuplicateCommandPermission { command_name: key })
                } else {
                    let idx = index_of_key(t, key);
                    let cwp = t[idx].1;
                    match spec_resolve_rules(cwp.command, b.object.permissions@) {
                        Err(e) => Err(e),
                        Ok(perms) => Ok(
                            t.update(
                                idx,
                                (
                                    key,
                                    CommandWithPermissionsView {
                                        command: cwp.command,
                                        permissions: perms,
                                    },
                                ),
                            ),
                        ),
                    }
                }
            },
        }
    }
}

/// A preset error stays the first error however many presets follow.
proof fn lemma_presets_error_persists(command: Command, presets: Seq<ArgumentPreset>, k: int)
    requires
        0 <= k <= presets.len(),
        spec_resolve_presets(command, presets.subrange(0, k)) is Err,
    ensures
        spec_resolve_presets(command, presets) == spec_resolve_presets(
            command,
            presets.subrange(0, k),
        ),
    decreases presets.len() - k,
{
    if k == presets.len() {
        assert(presets.subrange(0, k) =~= presets);
    } else {
        let cur = presets.subrange(0, k);
        let next = presets.subrange(0, k + 1);
        assert(next.drop_last() =~= cur);
        assert(spec_resolve_presets(command, next) == spec_resolve_presets(command, cur));
        lemma_presets_error_persists(command, presets, k + 1);
    }
}

/// A rule error stays the first error however many rules follow.
proof fn lemma_rules_error_persists(command: Command, rules: Seq<CommandPermissionRule>, k: int)
    requires
        0 <= k <= rules.len(),
        spec_resolve_rules(command, rules.subrange(0, k)) is Err,
    ensures
        spec_resolve_rules(command, rules) == spec_resolve_rules(command, rules.subrange(0, k)),
    decreases rules.len() - k,
{
    if k == rules.len() {
        assert(rules.subrange(0, k) =~= rules);
    } else {
        let cur = rules.subrange(0, k);
        let next = rules.subrange(0, k + 1);
        assert(next.drop_last() =~= cur);
        assert(spec_resolve_rules(command, next) == spec_resolve_rules(command, cur));
        lemma_rules_error_persists(command, rules, k + 1);
    }
}

/// Whether an argument name is already preset.
#[verifier::loop_isolation(false)]
fn preset_args_contain(
    v: &Vec<(String, (QualifiedTypeReference, ValueExpression))>,
    name: &str,
) -> (r: bool)
    ensures
        r == entries_contain(presets_view(v@), name@),
{
    let n = v.len();
    let mut i: usize = 0;
    while i < n
        invariant
            0 <= i <= n,
            n == v@.len(),
            forall|j: int| 0 <= j < i ==> (#[trigger] presets_view(v@)[j]).0 != name@,
        decreases n - i,
    {
        if crate::headers::str_eq(v[i].0.as_str(), name) {
            proof {
                assert((presets_view(v@)[i as int]).0 == name@);
            }
            return true;
        }
        i += 1;
    }
    proof {
        if entries_contain(presets_view(v@), name@) {
            let j = choose|j: int|
                0 <= j < presets_view(v@).len() && (#[trigger] presets_view(v@)[j]).0 == name@;
            assert(false);
        }
    }
    false
}

/// The declared argument of this name, if the command has one.
#[verifier::loop_isolation(false)]
fn find_argument<'a>(command: &'a Command, name: &str) -> (r: Option<&'a ArgumentInfo>)
    ensures
        r is Some <==> entries_contain(arguments_view(*command), name@),
        command.wf() ==> (r matches Some(info) ==> *info == value_of_key(
            arguments_view(*command),
            name@,
        )),
{
    let n = command.arguments.len();
    let mut i: usize = 0;
    while i < n
        invariant
            0 <= i <= n,
            n == command.arguments@.len(),
            forall|j: int| 0 <= j < i ==> (#[trigger] arguments_view(*command)[j]).0 != name@,
        decreases n - i,
    {
        if crate::headers::str_eq(command.arguments[i].0.as_str(), name) {
            proof {
                assert((arguments_view(*command)[i as int]).0 == name@);
                if command.wf() {
                    let k = index_of_key(arguments_view(*command), name@);
                    assert(0 <= k < arguments_view(*command).len() && (arguments_view(*command)[k]).0
                        == name@);
                    if k < i as int {
                        assert((arguments_view(*command)[k]).0 != (arguments_view(*command)[i
                            as int]).0);
                    } else if k > i as int {
                        assert((arguments_view(*command)[i as int]).0 != (arguments_view(
                            *command,
                        )[k]).0);
                    }
                    assert(k == i as int);
                }
            }
            return Some(&command.arguments[i].1);
        }
        i += 1;
    }
    proof {
        if entries_contain(arguments_view(*command), name@) {
            let j = choose|j: int|
                0 <= j < arguments_view(*command).len() && (#[trigger] arguments_view(
                    *command,
                )[j]).0 == name@;
            assert(false);
        }
    }
    None
}

/// Compiles one block's role rules for a command: validates every
/// argument preset (no duplicates, declared on the command, literal
/// shape fitting the declared type) and keys the result by role,
/// failing on the first offence.
///
/// The collaborator that parses a block keeps its rules role-unique;
/// that assumption is taken as given here.
#[verifier::loop_isolation(false)]
pub fn resolve_command_permissions(command: &Command, permissions: CommandPermissionsV1) -> (r:
    Result<Vec<(Role, CommandPermission)>, Error>)
    requires
        command.wf(),
        distinct_roles(permissions.permissions@),
    ensures
        r matches Ok(v) ==> (spec_resolve_rules(*command, permissions.permissions@) matches Ok(p)
            && permissions_view(v@) == p && distinct_keys(p)),
        r matches Err(e) ==> (spec_resolve_rules(*command, permissions.permissions@) matches Err(
        ev,
        ) && e@ == ev),
{
    let ghost all_rules = permissions.permissions@;
    let mut rules = permissions.permissions;
    let mut validated_permissions: Vec<(Role, CommandPermission)> = Vec::new();
    let ghost mut i: int = 0;
    proof {
        assert(all_rules.subrange(0, 0) =~= Seq::<CommandPermissionRule>::empty());
        assert(rules@ =~= all_rules.subrange(0, all_rules.len() as int));
    }
    while rules.len() > 0
        invariant
            0 <= i <= all_rules.len(),
            rules@ == all_rules.subrange(i, all_rules.len() as int),
            spec_resolve_rules(*command, all_rules.subrange(0, i)) matches Ok(p)
                && permissions_view(validated_permissions@) == p,
        decreases rules@.len(),
    {
        let ghost prefix_rules = all_rules.subrange(0, i);
        let ghost next_rules = all_rules.subrange(0, i + 1);
        proof {
            assert(next_rules.drop_last() =~= prefix_rules);
            assert(next_rules.last() == all_rules[i]);
            assert(rules@[0] == all_rules[i]);
        }
        let rule = rules.remove(0);
        let CommandPermissionRule { role, allow_execution, argument_presets: rule_presets } = rule;
        let ghost all_presets = rule_presets@;
        let mut presets = rule_presets;
        let mut argument_presets: Vec<(String, (QualifiedTypeReference, ValueExpression))> =
            Vec::new();
        let ghost mut j: int = 0;
        proof {
            assert(all_presets.subrange(0, 0) =~= Seq::<ArgumentPreset>::empty());
            assert(presets@ =~= all_presets.subrange(0, all_presets.len() as int));
        }
        while presets.len() > 0
            invariant
                0 <= j <= all_presets.len(),
                presets@ == all_presets.subrange(j, all_presets.len() as int),
                spec_resolve_presets(*command, all_presets.subrange(0, j)) matches Ok(acc)
                    && presets_view(argument_presets@) == acc,
            decreases presets@.len(),
        {
            let ghost prefix_p = all_presets.subrange(0, j);
            let ghost next_p = all_presets.subrange(0, j + 1);
            proof {
                assert(next_p.drop_last() =~= prefix_p);
                assert(next_p.last() == all_presets[j]);
                assert(presets@[0] == all_presets[j]);
            }
            let preset = presets.remove(0);
            if preset_args_contain(&argument_presets, preset.argument.as_str()) {
                let e = Error::DuplicateCommandArgumentPreset {
                    command_name: command.name.clone(),
                    argument_name: preset.argument,
                };
                proof {
                    assert(spec_resolve_presets(*command, next_p) is Err);
                    lemma_presets_error_persists(*command, all_presets, j + 1);
                    assert(spec_resolve_rules(*command, next_rules) is Err);
                    lemma_rules_error_persists(*command, all_rules, i + 1);
                    assert(spec_resolve_rules(*command, all_rules) matches Err(ev) && e@ == ev);
                }
                return Err(e);
            }
            match find_argument(command, preset.argument.as_str()) {
                None => {
                    let e = Error::CommandArgumentPresetMismatch {
                        command_name: command.name.clone(),
                        argument_name: preset.argument,
                    };
                    proof {
                        assert(spec_resolve_presets(*command, next_p) is Err);
                        lemma_presets_error_persists(*command, all_presets, j + 1);
                        assert(spec_resolve_rules(*command, next_rules) is Err);
                        lemma_rules_error_persists(*command, all_rules, i + 1);
                        assert(spec_resolve_rules(*command, all_rules) matches Err(ev) && e@ == ev);
                    }
                    return Err(e);
                },
                Some(argument) => {
                    let value_expression = resolve_value_expression_for_argument(
                        preset.value,
                        &argument.argument_type,
                    );
                    match typecheck_value_expression(&argument.argument_type, &value_expression) {
                        Err(type_error) => {
                            let e = Error::CommandArgumentPresetTypeError {
                                command_name: command.name.clone(),
                                argument_name: preset.argument,
                                type_error,
                            };
                            proof {
                                assert(spec_resolve_presets(*command, next_p) is Err);
                                lemma_presets_error_persists(*command, all_presets, j + 1);
                                assert(spec_resolve_rules(*command, next_rules) is Err);
                                lemma_rules_error_persists(*command, all_rules, i + 1);
                                assert(spec_resolve_rules(*command, all_rules) matches Err(ev) && e@
                                    == ev);
                            }
                            return Err(e);
                        },
                        Ok(_) => {
                            argument_presets.push(
                                (preset.argument, (argument.argument_type.clone(), value_expression)),
                            );
                            proof {
                                let acc = spec_resolve_presets(*command, prefix_p)->Ok_0;
                                let entry = (
                                    all_presets[j].argument@,
                                    (
                                        value_of_key(
                                            arguments_view(*command),
                                            all_presets[j].argument@,
                                        ).argument_type,
                                        all_presets[j].value,
                                    ),
                                );
                                assert(spec_resolve_presets(*command, next_p) == Ok::<
                                    Seq<(Seq<char>, (QualifiedTypeReference, ValueExpression))>,
                                    ErrorView,
                                >(acc.push(entry)));
                                assert(presets_view(argument_presets@) =~= acc.push(entry));
                            }
                        },
                    }
                },
            }
            proof {
                j = j + 1;
                assert(presets@ =~= all_presets.subrange(j, all_presets.len() as int));
            }
        }
        proof {
            assert(all_presets.subrange(0, all_presets.len() as int) =~= all_presets);
        }
        let resolved_permission = CommandPermission { allow_execution, argument_presets };
        validated_permissions.push((role, resolved_permission));
        proof {
            let p = spec_resolve_rules(*command, prefix_rules)->Ok_0;
            let entry = (
                all_rules[i].role@,
                CommandPermissionView {
                    allow_execution: all_rules[i].allow_execution,
                    argument_presets: spec_resolve_presets(
                        *command,
                        all_rules[i].argument_presets@,
                    )->Ok_0,
                },
            );
            assert(spec_resolve_rules(*command, next_rules) == Ok::<
                Seq<(Seq<char>, CommandPermissionView)>,
                ErrorView,
            >(p.push(entry)));
            assert(permissions_view(validated_permissions@) =~= p.push(entry));
            i = i + 1;
            assert(rules@ =~= all_rules.subrange(i, all_rules.len() as int));
        }
    }
    proof {
        assert(all_rules.subrange(0, all_rules.len() as int) =~= all_rules);
        lemma_rules_ok_keys(*command, all_rules);
        let p = spec_resolve_rules(*command, all_rules)->Ok_0;
        assert forall|a: int, b: int| 0 <= a < b < p.len() implies (#[trigger] p[a]).0 != (
        #[trigger] p[b]).0 by {
            assert((p[a]).0 == all_rules[a].role@);
            assert((p[b]).0 == all_rules[b].role@);
        }
    }
    Ok(validated_permissions)
}

/// The permission table, keyed by the qualified command name's
/// character content.
pub open spec fn table_view(v: Seq<(Qualified, CommandWithPermissions)>) -> Seq<((
    Seq<char>,
    Seq<char>,
), CommandWithPermissionsView)> {
    v.map_values(|p: (Qualified, CommandWithPermissions)| (p.0@, p.1@))
}

/// The collaborator that parses a block keeps its rules role-unique.
pub open spec fn distinct_roles(rules: Seq<CommandPermissionRule>) -> bool {
    forall|i: int, j: int|
        0 <= i < j < rules.len() ==> (#[trigger] rules[i]).role@ != (#[trigger] rules[j]).role@
}

/// A block error stays the first error however many blocks follow.
proof fn lemma_blocks_error_persists(
    seed: Seq<((Seq<char>, Seq<char>), CommandWithPermissionsView)>,
    blocks: Seq<QualifiedObject>,
    k: int,
)
    requires
        0 <= k <= blocks.len(),
        spec_apply_blocks(seed, blocks.subrange(0, k)) is Err,
    ensures
        spec_apply_blocks(seed, blocks) == spec_apply_blocks(seed, blocks.subrange(0, k)),
    decreases blocks.len() - k,
{
    if k == blocks.len() {
        assert(blocks.subrange(0, k) =~= blocks);
    } else {
        let cur = blocks.subrange(0, k);
        let next = blocks.subrange(0, k + 1);
        assert(next.drop_last() =~= cur);
        assert(spec_apply_blocks(seed, next) == spec_apply_blocks(seed, cur));
        lemma_blocks_error_persists(seed, blocks, k + 1);
    }
}

/// Applying blocks never adds, removes or renames table entries: the
/// table keeps one entry per declared command, in declaration order.
pub proof fn lemma_apply_blocks_preserves_keys(
    seed: Seq<((Seq<char>, Seq<char>), CommandWithPermissionsView)>,
    blocks: Seq<QualifiedObject>,
)
    requires
        spec_apply_blocks(seed, blocks) is Ok,
    ensures
        spec_apply_blocks(seed, blocks)->Ok_0.len() == seed.len(),
        forall|k: int|
            0 <= k < seed.len() ==> (#[trigger] spec_apply_blocks(seed, blocks)->Ok_0[k]).0
                == seed[k].0,
    decreases blocks.len(),
{
    if blocks.len() == 0 {
    } else {
        lemma_apply_blocks_preserves_keys(seed, blocks.drop_last());
    }
}

/// No two permission blocks address the same command, and every block
/// addresses a declared command, whenever resolution succeeds: a
/// duplicate block or an unknown command name always aborts the load.
pub proof fn lemma_resolve_ok_blocks_valid(
    seed: Seq<((Seq<char>, Seq<char>), CommandWithPermissionsView)>,
    blocks: Seq<QualifiedObject>,
)
    requires
        spec_apply_blocks(seed, blocks) is Ok,
    ensures
        forall|i: int, j: int|
            0 <= i < j < blocks.len() ==> block_key(#[trigger] blocks[i]) != block_key(
                #[trigger] blocks[j],
            ),
        forall|i: int|
            0 <= i < blocks.len() ==> entries_contain(seed, block_key(#[trigger] blocks[i])),
    decreases blocks.len(),
{
    if blocks.len() == 0 {
    } else {
        let prefix = blocks.drop_last();
        lemma_resolve_ok_blocks_valid(seed, prefix);
        lemma_apply_blocks_preserves_keys(seed, prefix);
        let t = spec_apply_blocks(seed, prefix)->Ok_0;
        let key = block_key(blocks.last());
        assert(entries_contain(t, key));
        assert forall|i: int|
            0 <= i < blocks.len() implies entries_contain(seed, block_key(
            #[trigger] blocks[i])) by {
            if i < blocks.len() - 1 {
                assert(prefix[i] == blocks[i]);
            } else {
                let m = choose|m: int| 0 <= m < t.len() && (#[trigger] t[m]).0 == key;
                assert(seed[m].0 == key);
            }
        }
        assert forall|i: int, j: int|
            0 <= i < j < blocks.len() implies block_key(#[trigger] blocks[i]) != block_key(
            #[trigger] blocks[j]) by {
            if j < blocks.len() - 1 {
                assert(prefix[i] == blocks[i]);
                assert(prefix[j] == blocks[j]);
            } else {
                assert(!(exists|m: int|
                    0 <= m < blocks.len() - 1 && block_key(#[trigger] blocks[m]) == key));
            }
        }
    }
}

/// What a successful preset validation keeps: one entry per preset, in
/// order, keyed by its argument name.
proof fn lemma_presets_ok_keys(command: Command, presets: Seq<ArgumentPreset>)
    requires
        spec_resolve_presets(command, presets) is Ok,
    ensures
        spec_resolve_presets(command, presets)->Ok_0.len() == presets.len(),
        forall|k: int|
            0 <= k < presets.len() ==> (#[trigger] spec_resolve_presets(command, presets)->Ok_0[k]).0
                == presets[k].argument@,
    decreases presets.len(),
{
    if presets.len() == 0 {
    } else {
        lemma_presets_ok_keys(command, presets.drop_last());
    }
}

/// Within one role rule that validates, no argument is preset twice,
/// every preset argument is declared on the command, and every preset
/// value typechecks against the argument's declared type: each offence
/// always aborts the load instead.
pub proof fn lemma_presets_ok_valid(command: Command, presets: Seq<ArgumentPreset>)
    requires
        spec_resolve_presets(command, presets) is Ok,
    ensures
        forall|i: int, j: int|
            0 <= i < j < presets.len() ==> (#[trigger] presets[i]).argument@ != (
            #[trigger] presets[j]).argument@,
        forall|i: int|
            0 <= i < presets.len() ==> entries_contain(
                arguments_view(command),
                (#[trigger] presets[i]).argument@,
            ),
        forall|i: int|
            0 <= i < presets.len() ==> spec_typecheck_value_expression(
                value_of_key(arguments_view(command), (#[trigger] presets[i]).argument@).argument_type,
                presets[i].value,
            ) is Ok,
    decreases presets.len(),
{
    if presets.len() == 0 {
    } else {
        let prefix = presets.drop_last();
        lemma_presets_ok_valid(command, prefix);
        lemma_presets_ok_keys(command, prefix);
        let acc = spec_resolve_presets(command, prefix)->Ok_0;
        let p = presets.last();
        assert(!entries_contain(acc, p.argument@));
        assert forall|i: int, j: int|
            0 <= i < j < presets.len() implies (#[trigger] presets[i]).argument@ != (
        #[trigger] presets[j]).argument@ by {
            if j < presets.len() - 1 {
                assert(prefix[i] == presets[i]);
                assert(prefix[j] == presets[j]);
            } else {
                assert(prefix[i] == presets[i]);
                if (presets[i]).argument@ == p.argument@ {
                    assert((acc[i]).0 == p.argument@);
                    assert(entries_contain(acc, p.argument@));
                }
            }
        }
        assert forall|i: int|
            0 <= i < presets.len() implies entries_contain(
            arguments_view(command),
            (#[trigger] presets[i]).argument@,
        ) by {
            if i < presets.len() - 1 {
                assert(prefix[i] == presets[i]);
            }
        }
        assert forall|i: int|
            0 <= i < presets.len() implies spec_typecheck_value_expression(
            value_of_key(arguments_view(command), (#[trigger] presets[i]).argument@).argument_type,
            presets[i].value,
        ) is Ok by {
            if i < presets.len() - 1 {
                assert(prefix[i] == presets[i]);
            }
        }
    }
}

/// Every role rule of a block that validates has validating presets.
pub proof fn lemma_rules_ok_valid(command: Command, rules: Seq<CommandPermissionRule>)
    requires
        spec_resolve_rules(command, rules) is Ok,
    ensures
        forall|i: int|
            0 <= i < rules.len() ==> spec_resolve_presets(
                command,
                (#[trigger] rules[i]).argument_presets@,
            ) is Ok,
    decreases rules.len(),
{
    if rules.len() == 0 {
    } else {
        let prefix = rules.drop_last();
        lemma_rules_ok_valid(command, prefix);
        assert forall|i: int|
            0 <= i < rules.len() implies spec_resolve_presets(
            command,
            (#[trigger] rules[i]).argument_presets@,
        ) is Ok by {
            if i < rules.len() - 1 {
                assert(prefix[i] == rules[i]);
            }
        }
    }
}

/// What a successful rule validation keeps: one entry per rule, in
/// order, keyed by its role.
pub proof fn lemma_rules_ok_keys(command: Command, rules: Seq<CommandPermissionRule>)
    requires
        spec_resolve_rules(command, rules) is Ok,
    ensures
        spec_resolve_rules(command, rules)->Ok_0.len() == rules.len(),
        forall|k: int|
            0 <= k < rules.len() ==> (#[trigger] spec_resolve_rules(command, rules)->Ok_0[k]).0
                == rules[k].role@,
    decreases rules.len(),
{
    if rules.len() == 0 {
    } else {
        lemma_rules_ok_keys(command, rules.drop_last());
    }
}

/// The entry of this qualified name, if the table has one.
#[verifier::loop_isolation(false)]
fn find_table_index(table: &Vec<(Qualified, CommandWithPermissions)>, name: &Qualified) -> (r:
    Option<usize>)
    ensures
        r is Some <==> entries_contain(table_view(table@), name@),
        r matches Some(idx) ==> idx < table@.len() && (table_view(table@)[idx as int]).0 == name@
            && (distinct_keys(table_view(table@)) ==> idx as int == index_of_key(
            table_view(table@),
            name@,
        )),
{
    let n = table.len();
    let mut i: usize = 0;
    while i < n
        invariant
            0 <= i <= n,
            n == table@.len(),
            forall|j: int| 0 <= j < i ==> (#[trigger] table_view(table@)[j]).0 != name@,
        decreases n - i,
    {
        if table[i].0.same_as(name) {
            proof {
                assert((table_view(table@)[i as int]).0 == name@);
                if distinct_keys(table_view(table@)) {
                    let k = index_of_key(table_view(table@), name@);
                    assert(0 <= k < table_view(table@).len() && (table_view(table@)[k]).0 == name@);
                    if k < i as int {
                        assert((table_view(table@)[k]).0 != (table_view(table@)[i as int]).0);
                    } else if k > i as int {
                        assert((table_view(table@)[i as int]).0 != (table_view(table@)[k]).0);
                    }
                    assert(k == i as int);
                }
            }
            return Some(i);
        }
        i += 1;
    }
    proof {
        if entries_contain(table_view(table@), name@) {
            let j = choose|j: int|
                0 <= j < table_view(table@).len() && (#[trigger] table_view(table@)[j]).0 == name@;
            assert(false);
        }
    }
    None
}

/// Whether a block for this command name was already processed.
#[verifier::loop_isolation(false)]
fn seen_contains(seen: &Vec<Qualified>, name: &Qualified) -> (r: bool)
    ensures
        r == exists|j: int| 0 <= j < seen@.len() && (#[trigger] seen@[j])@ == name@,
{
    let n = seen.len();
    let mut i: usize = 0;
    while i < n
        invariant
            0 <= i <= n,
            n == seen@.len(),
            forall|j: int| 0 <= j < i ==> (#[trigger] seen@[j])@ != name@,
        decreases n - i,
    {
        if seen[i].same_as(name) {
            return true;
        }
        i += 1;
    }
    false
}

/// Resolves command permissions: seeds the table with every declared
/// command (no permissions), then applies each permission block, in
/// order and fail-fast, to the command it addresses.
///
/// An unknown command name and a second block for the same command each
/// abort the load; within a block, every role rule is compiled by
/// [`resolve_command_permissions`].  The declared command names are
/// distinct (the declaration table they come from keys them), and each
/// block's rules are role-unique, as the parsing collaborator keeps
/// them.
#[verifier::loop_isolation(false)]
pub fn resolve(metadata_accessor: MetadataAccessor, commands: Vec<(Qualified, Command)>) -> (r:
    Result<Vec<(Qualified, CommandWithPermissions)>, Error>)
    requires
        distinct_keys(spec_seed(commands@)),
        forall|i: int| 0 <= i < commands@.len() ==> (#[trigger] commands@[i]).1.wf(),
        forall|i: int|
            0 <= i < metadata_accessor.command_permissions@.len() ==> distinct_roles(
                (#[trigger] metadata_accessor.command_permissions@[i]).object.permissions@,
            ),
    ensures
        r matches Ok(t) ==> (spec_apply_blocks(
            spec_seed(commands@),
            metadata_accessor.command_permissions@,
        ) matches Ok(tv) && table_view(t@) == tv && distinct_keys(tv)),
        r matches Err(e) ==> (spec_apply_blocks(
            spec_seed(commands@),
            metadata_accessor.command_permissions@,
        ) matches Err(ev) && e@ == ev),
{
    let ghost all_commands = commands@;
    let ghost seed = spec_seed(all_commands);
    let mut remaining_commands = commands;
    let mut commands_with_permissions: Vec<(Qualified, CommandWithPermissions)> = Vec::new();
    let ghost mut c: int = 0;
    proof {
        assert(remaining_commands@ =~= all_commands.subrange(0, all_commands.len() as int));
        assert(table_view(commands_with_permissions@) =~~= spec_seed(all_commands.subrange(0, 0)));
    }
    while remaining_commands.len() > 0
        invariant
            0 <= c <= all_commands.len(),
            remaining_commands@ == all_commands.subrange(c, all_commands.len() as int),
            table_view(commands_with_permissions@) == spec_seed(all_commands.subrange(0, c)),
        decreases remaining_commands@.len(),
    {
        proof {
            assert(remaining_commands@[0] == all_commands[c]);
        }
        let ghost pre = commands_with_permissions@;
        let (command_name, command) = remaining_commands.remove(0);
        commands_with_permissions.push(
            (command_name, CommandWithPermissions { command, permissions: Vec::new() }),
        );
        proof {
            let prev = all_commands.subrange(0, c);
            let cur = all_commands.subrange(0, c + 1);
            let tv = table_view(commands_with_permissions@);
            assert(commands_with_permissions@.len() == pre.len() + 1);
            assert(tv.len() == cur.len());
            assert forall|k: int| 0 <= k < cur.len() implies tv[k] =~~= spec_seed(cur)[k] by {
                if k < c {
                    assert(commands_with_permissions@[k] == pre[k]);
                    assert(tv[k] == table_view(pre)[k]);
                    assert(spec_seed(cur)[k] == spec_seed(prev)[k]);
                } else {
                    let pushed = commands_with_permissions@.last();
                    assert(pushed.0 == all_commands[c].0);
                    assert(pushed.1.command == all_commands[c].1);
                    assert(pushed.1.permissions@ =~= Seq::<(Role, CommandPermission)>::empty());
                    assert(tv[k].1.permissions =~~= spec_seed(cur)[k].1.permissions);
                }
            }
            assert(tv =~~= spec_seed(cur));
            c = c + 1;
            assert(remaining_commands@ =~= all_commands.subrange(c, all_commands.len() as int));
        }
    }
    proof {
        assert(all_commands.subrange(0, all_commands.len() as int) =~= all_commands);
        assert(table_view(commands_with_permissions@) == seed);
    }
    let ghost all_blocks = metadata_accessor.command_permissions@;
    let mut blocks = metadata_accessor.command_permissions;
    let mut seen: Vec<Qualified> = Vec::new();
    let ghost mut i: int = 0;
    proof {
        assert(blocks@ =~= all_blocks.subrange(0, all_blocks.len() as int));
    }
    while blocks.len() > 0
        invariant
            0 <= i <= all_blocks.len(),
            blocks@ == all_blocks.subrange(i, all_blocks.len() as int),
            spec_apply_blocks(seed, all_blocks.subrange(0, i)) matches Ok(t) && table_view(
                commands_with_permissions@,
            ) == t,
            seen@.len() == i,
            forall|j: int| 0 <= j < i ==> (#[trigger] seen@[j])@ == block_key(all_blocks[j]),
            table_view(commands_with_permissions@).len() == seed.len(),
            forall|k: int|
                0 <= k < seed.len() ==> (#[trigger] table_view(commands_with_permissions@)[k]).0
                    == seed[k].0,
            forall|k: int|
                0 <= k < seed.len() ==> (#[trigger] table_view(
                    commands_with_permissions@,
                )[k]).1.command.wf(),
        decreases blocks@.len(),
    {
        let ghost prefix_blocks = all_blocks.subrange(0, i);
        let ghost next_blocks = all_blocks.subrange(0, i + 1);
        let ghost t = spec_apply_blocks(seed, prefix_blocks)->Ok_0;
        proof {
            assert(next_blocks.drop_last() =~= prefix_blocks);
            assert(next_blocks.last() == all_blocks[i]);
            assert(blocks@[0] == all_blocks[i]);
            assert(distinct_keys(seed));
            assert(distinct_keys(table_view(commands_with_permissions@))) by {
                assert forall|a: int, b: int|
                    0 <= a < b < table_view(commands_with_permissions@).len() implies (
                #[trigger] table_view(commands_with_permissions@)[a]).0 != (#[trigger] table_view(
                    commands_with_permissions@,
                )[b]).0 by {
                    assert(seed[a].0 != seed[b].0);
                }
            }
        }
        let b = blocks.remove(0);
        let block_name = Qualified::new(b.subgraph.clone(), b.object.command_name.clone());
        let ghost key = block_key(all_blocks[i]);
        proof {
            assert(block_name@ == key);
        }
        match find_table_index(&commands_with_permissions, &block_name) {
            None => {
                let e = Error::UnknownCommandInCommandPermissions { command_name: block_name };
                proof {
                    assert(!entries_contain(t, key));
                    assert(spec_apply_blocks(seed, next_blocks) is Err);
                    lemma_blocks_error_persists(seed, all_blocks, i + 1);
                    assert(spec_apply_blocks(seed, all_blocks) matches Err(ev) && e@ == ev);
                }
                return Err(e);
            },
            Some(idx) => {
                proof {
                    assert(entries_contain(t, key));
                    assert(idx as int == index_of_key(t, key));
                }
                if seen_contains(&seen, &block_name) {
                    let e = Error::DuplicateCommandPermission { command_name: block_name };
                    proof {
                        let j = choose|j: int|
                            0 <= j < seen@.len() && (#[trigger] seen@[j])@ == block_name@;
                        assert(block_key(next_blocks[j]) == key);
                        assert(exists|j: int|
                            0 <= j < next_blocks.len() - 1 && block_key(#[trigger] next_blocks[j])
                                == key);
                        assert(spec_apply_blocks(seed, next_blocks) is Err);
                        lemma_blocks_error_persists(seed, all_blocks, i + 1);
                        assert(spec_apply_blocks(seed, all_blocks) matches Err(ev) && e@ == ev);
                    }
                    return Err(e);
                }
                proof {
                    if exists|j: int|
                        0 <= j < next_blocks.len() - 1 && block_key(#[trigger] next_blocks[j])
                            == key {
                        let j = choose|j: int|
                            0 <= j < next_blocks.len() - 1 && block_key(#[trigger] next_blocks[j])
                                == key;
                        assert(next_blocks[j] == all_blocks[j]);
                        assert((seen@[j])@ == key);
                        assert(false);
                    }
                }
                let (declared_name, cwp) = commands_with_permissions.remove(idx);
                proof {
                    assert(cwp@ == t[idx as int].1);
                    assert(cwp.command.wf());
                    assert(distinct_roles(all_blocks[i].object.permissions@));
                }
                match resolve_command_permissions(&cwp.command, b.object) {
                    Err(e) => {
                        proof {
                            assert(spec_resolve_rules(
                                t[idx as int].1.command,
                                all_blocks[i].object.permissions@,
                            ) is Err);
                            assert(spec_apply_blocks(seed, next_blocks) is Err);
                            lemma_blocks_error_persists(seed, all_blocks, i + 1);
                            assert(spec_apply_blocks(seed, all_blocks) matches Err(ev) && e@ == ev);
                        }
                        return Err(e);
                    },
                    Ok(perms) => {
                        let ghost before = commands_with_permissions@;
                        commands_with_permissions.insert(
                            idx,
                            (
                                declared_name,
                                CommandWithPermissions { command: cwp.command, permissions: perms },
                            ),
                        );
                        seen.push(block_name);
                        proof {
                            let updated = t.update(
                                idx as int,
                                (
                                    key,
                                    CommandWithPermissionsView {
                                        command: t[idx as int].1.command,
                                        permissions: spec_resolve_rules(
                                            t[idx as int].1.command,
                                            all_blocks[i].object.permissions@,
                                        )->Ok_0,
                                    },
                                ),
                            );
                            assert(spec_apply_blocks(seed, next_blocks) == Ok::<
                                Seq<((Seq<char>, Seq<char>), CommandWithPermissionsView)>,
                                ErrorView,
                            >(updated));
                            assert(table_view(commands_with_permissions@) =~~= updated);
                            i = i + 1;
                            assert(blocks@ =~= all_blocks.subrange(i, all_blocks.len() as int));
                        }
                    },
                }
            },
        }
    }
    proof {
        assert(all_blocks.subrange(0, all_blocks.len() as int) =~= all_blocks);
        lemma_apply_blocks_preserves_keys(seed, all_blocks);
        let tv = spec_apply_blocks(seed, all_blocks)->Ok_0;
        assert forall|a: int, b: int| 0 <= a < b < tv.len() implies (#[trigger] tv[a]).0 != (
        #[trigger] tv[b]).0 by {
            assert((tv[a]).0 == seed[a].0);
            assert((tv[b]).0 == seed[b].0);
        }
    }
    Ok(commands_with_permissions)
}

} // verus!
