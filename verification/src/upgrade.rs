//! Schema edits and upgrades: adding a field, changing a field's type,
//! adding a variant, and applying an ordered list of edits under a new
//! identity, with a receipt for each edit.
use vstd::prelude::*;

use crate::error::SchemaError;
use crate::lookup::{first_match, lemma_first_match_at, lemma_first_match_none};
use crate::name::{Name, SchemaIdentity};
use crate::reference::{TypeRefView, TypeReference, copy_reference};
use crate::schema::{
    Declaration, EnumDeclaration, EnumVariant, FieldDeclaration, StructDeclaration,
    TypeDeclaration, VariantView, Visibility, payload_view,
};
use crate::true_schema::TrueSchema;
use crate::views::{DeclarationView, SchemaView, TypeDeclView, declaration_view, identity_view, schema_view};

verus! {

// ---------------------------------------------------------------- values
/// The value a new field takes in existing records.
#[derive(Debug, PartialEq, Eq)]
pub enum DefaultValue {
    String(String),
    Integer(u64),
    Boolean(bool),
    Unit,
}

pub enum DefaultView {
    String(Seq<char>),
    Integer(u64),
    Boolean(bool),
    Unit,
}

impl View for DefaultValue {
    type V = DefaultView;

    open spec fn view(&self) -> DefaultView {
        match self {
            DefaultValue::String(s) => DefaultView::String(s@),
            DefaultValue::Integer(n) => DefaultView::Integer(*n),
            DefaultValue::Boolean(b) => DefaultView::Boolean(*b),
            DefaultValue::Unit => DefaultView::Unit,
        }
    }
}

impl Clone for DefaultValue {
    fn clone(&self) -> (r: Self)
        ensures
            r == *self,
    {
        match self {
            DefaultValue::String(s) => DefaultValue::String(s.clone()),
            DefaultValue::Integer(n) => DefaultValue::Integer(*n),
            DefaultValue::Boolean(b) => DefaultValue::Boolean(*b),
            DefaultValue::Unit => DefaultValue::Unit,
        }
    }
}

/// How existing values of a changed field migrate.
#[derive(Debug, PartialEq, Eq)]
pub enum FieldMigration {
    WrapSingleton,
    SetDefault(DefaultValue),
}

pub enum MigrationKind {
    WrapSingleton,
    SetDefault(DefaultView),
}

impl View for FieldMigration {
    type V = MigrationKind;

    open spec fn view(&self) -> MigrationKind {
        match self {
            FieldMigration::WrapSingleton => MigrationKind::WrapSingleton,
            FieldMigration::SetDefault(d) => MigrationKind::SetDefault(d@),
        }
    }
}

impl Clone for FieldMigration {
    fn clone(&self) -> (r: Self)
        ensures
            r == *self,
    {
        match self {
            FieldMigration::WrapSingleton => FieldMigration::WrapSingleton,
            FieldMigration::SetDefault(d) => FieldMigration::SetDefault(d.clone()),
        }
    }
}

// ---------------------------------------------------------------- edits
/// Add a field to a struct.
#[derive(Debug)]
pub struct AddField {
    pub target_type: Name,
    pub field_name: Name,
    pub field_type: TypeReference,
    pub default_value: DefaultValue,
}

/// Change the type of a struct field.
#[derive(Debug)]
pub struct ChangeFieldType {
    pub target_type: Name,
    pub field_name: Name,
    pub new_type: TypeReference,
    pub migration: FieldMigration,
}

/// Add a variant to an enum.
#[derive(Debug)]
pub struct AddVariant {
    pub target_type: Name,
    pub variant_name: Name,
    pub payload: Option<TypeReference>,
}

/// One schema edit.
#[derive(Debug)]
pub enum SchemaEdit {
    AddField(AddField),
    ChangeFieldType(ChangeFieldType),
    AddVariant(AddVariant),
}

pub enum EditView {
    AddField { target: Seq<char>, field: Seq<char>, field_type: TypeRefView, default_value: DefaultView },
    ChangeFieldType {
        target: Seq<char>,
        field: Seq<char>,
        new_type: TypeRefView,
        migration: MigrationKind,
    },
    AddVariant { target: Seq<char>, variant: Seq<char>, payload: Option<TypeRefView> },
}

impl View for SchemaEdit {
    type V = EditView;

    open spec fn view(&self) -> EditView {
        match self {
            SchemaEdit::AddField(e) => EditView::AddField {
                target: e.target_type@,
                field: e.field_name@,
                field_type: e.field_type@,
                default_value: e.default_value@,
            },
            SchemaEdit::ChangeFieldType(e) => EditView::ChangeFieldType {
                target: e.target_type@,
                field: e.field_name@,
                new_type: e.new_type@,
                migration: e.migration@,
            },
            SchemaEdit::AddVariant(e) => EditView::AddVariant {
                target: e.target_type@,
                variant: e.variant_name@,
                payload: payload_view(e.payload),
            },
        }
    }
}

impl Clone for SchemaEdit {
    fn clone(&self) -> (r: Self)
        ensures
            r@ == self@,
    {
        match self {
            SchemaEdit::AddField(e) => SchemaEdit::AddField(
                AddField {
                    target_type: e.target_type.clone(),
                    field_name: e.field_name.clone(),
                    field_type: copy_reference(&e.field_type),
                    default_value: e.default_value.clone(),
                },
            ),
            SchemaEdit::ChangeFieldType(e) => SchemaEdit::ChangeFieldType(
                ChangeFieldType {
                    target_type: e.target_type.clone(),
                    field_name: e.field_name.clone(),
                    new_type: copy_reference(&e.new_type),
                    migration: e.migration.clone(),
                },
            ),
            SchemaEdit::AddVariant(e) => SchemaEdit::AddVariant(
                AddVariant {
                    target_type: e.target_type.clone(),
                    variant_name: e.variant_name.clone(),
                    payload: match &e.payload {
                        Some(p) => Some(copy_reference(p)),
                        None => None,
                    },
                },
            ),
        }
    }
}

impl SchemaEdit {
    pub fn add_field(target_type: &str, field_name: &str, field_type: TypeReference, default_value: DefaultValue) -> (r: Self)
        ensures
            r == SchemaEdit::AddField(
                AddField {
                    target_type: r->AddField_0.target_type,
                    field_name: r->AddField_0.field_name,
                    field_type,
                    default_value,
                },
            ),
            r@ == (EditView::AddField {
                target: target_type@,
                field: field_name@,
                field_type: field_type@,
                default_value: default_value@,
            }),
    {
        SchemaEdit::AddField(
            AddField {
                target_type: Name::new(target_type),
                field_name: Name::new(field_name),
                field_type,
                default_value,
            },
        )
    }

    pub fn change_field_type(target_type: &str, field_name: &str, new_type: TypeReference, migration: FieldMigration) -> (r: Self)
        ensures
            r@ == (EditView::ChangeFieldType {
                target: target_type@,
                field: field_name@,
                new_type: new_type@,
                migration: migration@,
            }),
    {
        SchemaEdit::ChangeFieldType(
            ChangeFieldType {
                target_type: Name::new(target_type),
                field_name: Name::new(field_name),
                new_type,
                migration,
            },
        )
    }

    pub fn add_variant(target_type: &str, variant_name: &str, payload: Option<TypeReference>) -> (r: Self)
        ensures
            r@ == (EditView::AddVariant {
                target: target_type@,
                variant: variant_name@,
                payload: payload_view(payload),
            }),
    {
        SchemaEdit::AddVariant(
            AddVariant { target_type: Name::new(target_type), variant_name: Name::new(variant_name), payload },
        )
    }

    /// Apply this edit to a schema.
    pub fn apply_to(self, schema: TrueSchema) -> (r: Result<(TrueSchema, SchemaEditReceipt), SchemaError>)
        ensures
            edit_matches(r, edit_outcome(schema_view(schema), self@)),
    {
        SchemaEditApplication::new(schema, self).apply()
    }
}

// ---------------------------------------------------------------- receipts
/// The migration an edit asks of existing data.
#[derive(Debug)]
pub struct MigrationSpec {
    pub target_type: Name,
    pub field_name: Name,
    pub previous_type: Option<TypeReference>,
    pub next_type: TypeReference,
    pub migration: FieldMigration,
}

pub struct MigrationView {
    pub target: Seq<char>,
    pub field: Seq<char>,
    pub previous_type: Option<TypeRefView>,
    pub next_type: TypeRefView,
    pub migration: MigrationKind,
}

/// The record of one applied edit: the schema's identity and the migration
/// the edit asks for.
#[derive(Debug)]
pub struct SchemaEditReceipt {
    pub schema_identity: SchemaIdentity,
    pub migration_spec: Option<MigrationSpec>,
}

pub struct ReceiptView {
    pub identity: (Seq<char>, Seq<char>),
    pub migration: Option<MigrationView>,
}

pub open spec fn migration_view(m: MigrationSpec) -> MigrationView {
    MigrationView {
        target: m.target_type@,
        field: m.field_name@,
        previous_type: payload_view(m.previous_type),
        next_type: m.next_type@,
        migration: m.migration@,
    }
}

pub open spec fn receipt_view(r: SchemaEditReceipt) -> ReceiptView {
    ReceiptView {
        identity: identity_view(r.schema_identity),
        migration: match r.migration_spec {
            Some(m) => Some(migration_view(m)),
            None => None,
        },
    }
}

// ---------------------------------------------------------------- the model
/// Why an edit was refused.
pub enum EditFailure {
    TargetNotFound(Seq<char>),
    ExpectedStruct(Seq<char>),
    ExpectedEnum(Seq<char>),
    DuplicateField(Seq<char>, Seq<char>),
    DuplicateVariant(Seq<char>, Seq<char>),
    FieldNotFound(Seq<char>, Seq<char>),
}

pub open spec fn reports_failure(e: SchemaError, f: EditFailure) -> bool {
    match f {
        EditFailure::TargetNotFound(t) => e matches SchemaError::SchemaEditTargetNotFound { type_ident } && type_ident@ == t,
        EditFailure::ExpectedStruct(t) => e matches SchemaError::SchemaEditExpectedStruct { type_ident } && type_ident@ == t,
        EditFailure::ExpectedEnum(t) => e matches SchemaError::SchemaEditExpectedEnum { type_ident } && type_ident@ == t,
        EditFailure::DuplicateField(t, n) => e matches SchemaError::SchemaEditDuplicateField { type_ident, field_name } && type_ident@
            == t && field_name@ == n,
        EditFailure::DuplicateVariant(t, n) => e matches SchemaError::SchemaEditDuplicateVariant { type_ident, variant_name } && type_ident@
            == t && variant_name@ == n,
        EditFailure::FieldNotFound(t, n) => e matches SchemaError::SchemaEditFieldNotFound { type_ident, field_name } && type_ident@
            == t && field_name@ == n,
    }
}

/// The predicate "is the declaration spelled `n`".
pub open spec fn declaration_spelled(n: Seq<char>) -> spec_fn(DeclarationView) -> bool {
    |d: DeclarationView| d.name == n
}

/// The predicate "is the field spelled `n`".
pub open spec fn entry_spelled(n: Seq<char>) -> spec_fn((Seq<char>, TypeRefView)) -> bool {
    |f: (Seq<char>, TypeRefView)| f.0 == n
}

/// The schema after its `k`-th declaration is replaced: the edit rebuilds
/// the schema without relations or standalone impl blocks.
pub open spec fn edited(s: SchemaView, k: int, d: DeclarationView) -> SchemaView {
    SchemaView {
        identity: s.identity,
        imports: s.imports,
        resolved_imports: s.resolved_imports,
        generics: s.generics,
        input: s.input,
        output: s.output,
        namespace: s.namespace.update(k, d),
        streams: s.streams,
        families: s.families,
        relations: Seq::empty(),
        impl_blocks: Seq::empty(),
    }
}

/// A rebuilt declaration: the given visibility and body, no type
/// parameters, no impl catalog.
pub open spec fn rebuilt(visibility: Visibility, name: Seq<char>, value: TypeDeclView) -> DeclarationView {
    DeclarationView { visibility, name, parameters: Seq::empty(), value, impls: Seq::empty() }
}

/// What one edit does to a schema: the edited schema and its receipt, or
/// why it was refused.
pub open spec fn edit_outcome(s: SchemaView, e: EditView) -> Result<(SchemaView, ReceiptView), EditFailure> {
    match e {
        EditView::AddField { target, field, field_type, default_value } => match first_match(
            s.namespace,
            declaration_spelled(target),
        ) {
            None => Err(EditFailure::TargetNotFound(target)),
            Some(k) => match s.namespace[k].value {
                TypeDeclView::Struct(name, fields) => if exists|j: int|
                    0 <= j < fields.len() && #[trigger] fields[j].0 == field {
                    Err(EditFailure::DuplicateField(target, field))
                } else {
                    let t = edited(
                        s,
                        k,
                        rebuilt(
                            s.namespace[k].visibility,
                            name,
                            TypeDeclView::Struct(name, fields.push((field, field_type))),
                        ),
                    );
                    Ok(
                        (
                            t,
                            ReceiptView {
                                identity: t.identity,
                                migration: Some(
                                    MigrationView {
                                        target,
                                        field,
                                        previous_type: None,
                                        next_type: field_type,
                                        migration: MigrationKind::SetDefault(default_value),
                                    },
                                ),
                            },
                        ),
                    )
                },
                _ => Err(EditFailure::ExpectedStruct(target)),
            },
        },
        EditView::ChangeFieldType { target, field, new_type, migration } => match first_match(
            s.namespace,
            declaration_spelled(target),
        ) {
            None => Err(EditFailure::TargetNotFound(target)),
            Some(k) => match s.namespace[k].value {
                TypeDeclView::Struct(name, fields) => match first_match(fields, entry_spelled(field)) {
                    None => Err(EditFailure::FieldNotFound(target, field)),
                    Some(j) => {
                        let t = edited(
                            s,
                            k,
                            rebuilt(
                                s.namespace[k].visibility,
                                name,
                                TypeDeclView::Struct(name, fields.update(j, (fields[j].0, new_type))),
                            ),
                        );
                        Ok(
                            (
                                t,
                                ReceiptView {
                                    identity: t.identity,
                                    migration: Some(
                                        MigrationView {
                                            target,
                                            field,
                                            previous_type: Some(fields[j].1),
                                            next_type: new_type,
                                            migration,
                                        },
                                    ),
                                },
                            ),
                        )
                    },
                },
                _ => Err(EditFailure::ExpectedStruct(target)),
            },
        },
        EditView::AddVariant { target, variant, payload } => match first_match(
            s.namespace,
            declaration_spelled(target),
        ) {
            None => Err(EditFailure::TargetNotFound(target)),
            Some(k) => match s.namespace[k].value {
                TypeDeclView::Enum(body) => if exists|j: int|
                    0 <= j < body.variants.len() && #[trigger] body.variants[j].name == variant {
                    Err(EditFailure::DuplicateVariant(target, variant))
                } else {
                    let t = edited(
                        s,
                        k,
                        rebuilt(
                            s.namespace[k].visibility,
                            body.name,
                            TypeDeclView::Enum(
                                crate::schema::EnumView {
                                    name: body.name,
                                    variants: body.variants.push(
                                        VariantView { name: variant, payload, stream_relation: None },
                                    ),
                                },
                            ),
                        ),
                    );
                    Ok((t, ReceiptView { identity: t.identity, migration: None }))
                },
                _ => Err(EditFailure::ExpectedEnum(target)),
            },
        },
    }
}

/// An edit's result agrees with its model.
pub open spec fn edit_matches(
    r: Result<(TrueSchema, SchemaEditReceipt), SchemaError>,
    o: Result<(SchemaView, ReceiptView), EditFailure>,
) -> bool {
    match o {
        Ok((s, rc)) => r is Ok && schema_view(r->Ok_0.0) == s && receipt_view(r->Ok_0.1) == rc,
        Err(f) => r is Err && reports_failure(r->Err_0, f),
    }
}

// ---------------------------------------------------------------- applying
/// One edit about to be applied to a schema.
#[derive(Debug)]
pub struct SchemaEditApplication {
    schema: TrueSchema,
    edit: SchemaEdit,
}

/// The first declaration spelled `target`, by index.
fn find_declaration(namespace: &Vec<Declaration>, target: &Name) -> (r: Option<usize>)
    ensures
        r is None <==> first_match(
            namespace@.map_values(|d: Declaration| declaration_view(d)),
            declaration_spelled(target@),
        ) is None,
        r matches Some(i) ==> i < namespace@.len() && first_match(
            namespace@.map_values(|d: Declaration| declaration_view(d)),
            declaration_spelled(target@),
        ) == Some(i as int),
{
    let ghost view = namespace@.map_values(|d: Declaration| declaration_view(d));
    let ghost p = declaration_spelled(target@);
    let mut i: usize = 0;
    while i < namespace.len()
        invariant
            i <= namespace@.len(),
            view == namespace@.map_values(|d: Declaration| declaration_view(d)),
            p == declaration_spelled(target@),
            forall|k: int| 0 <= k < i ==> !#[trigger] p(view[k]),
        decreases namespace@.len() - i,
    {
        if *namespace[i].name() == *target {
            proof {
                lemma_first_match_at(view, p, i as int);
            }
            return Some(i);
        }
        i = i + 1;
    }
    proof {
        lemma_first_match_none(view, p);
    }
    None
}

/// The first field spelled `name`, by index.
fn find_field(entries: &Vec<FieldDeclaration>, name: &Name) -> (r: Option<usize>)
    ensures
        r is None <==> first_match(crate::schema::fields_view(entries@), entry_spelled(name@)) is None,
        r matches Some(i) ==> i < entries@.len() && first_match(
            crate::schema::fields_view(entries@),
            entry_spelled(name@),
        ) == Some(i as int),
{
    let ghost view = crate::schema::fields_view(entries@);
    let ghost p = entry_spelled(name@);
    let mut i: usize = 0;
    while i < entries.len()
        invariant
            i <= entries@.len(),
            view == crate::schema::fields_view(entries@),
            p == entry_spelled(name@),
            forall|k: int| 0 <= k < i ==> !#[trigger] p(view[k]),
        decreases entries@.len() - i,
    {
        if entries[i].name == *name {
            proof {
                lemma_first_match_at(view, p, i as int);
            }
            return Some(i);
        }
        i = i + 1;
    }
    proof {
        lemma_first_match_none(view, p);
    }
    None
}

fn receipt_for(schema: &TrueSchema, migration_spec: Option<MigrationSpec>) -> (r: SchemaEditReceipt)
    ensures
        r.schema_identity == schema.spec_identity(),
        r.migration_spec == migration_spec,
{
    SchemaEditReceipt { schema_identity: schema.identity().clone(), migration_spec }
}

fn declaration_with(visibility: Visibility, value: TypeDeclaration) -> (r: Declaration)
    ensures
        declaration_view(r) == rebuilt(
            visibility,
            value.spec_name()@,
            crate::views::type_view(value),
        ),
{
    let r = match visibility {
        Visibility::Public => Declaration::public(value),
        Visibility::Private => Declaration::private(value),
    };
    proof {
        assert(crate::schema::names_view(r.spec_parameters()) =~= Seq::<Seq<char>>::empty());
        r.spec_impls().lemma_view();
        assert(r.spec_impls()@ =~= Seq::<crate::impls::ImplRefView>::empty());
    }
    r
}

/// The schema with the declaration at `index` replaced, relations and
/// standalone impl blocks dropped.
fn replace_declaration(
    rest: TrueSchema,
    namespace: Vec<Declaration>,
    index: usize,
    declaration: Declaration,
    Ghost(given): Ghost<TrueSchema>,
) -> (r: TrueSchema)
    requires
        index < namespace@.len() + 1,
        namespace@.len() + 1 == given.spec_namespace().len(),
        namespace@ == given.spec_namespace().remove(index as int),
        schema_view(rest).identity == schema_view(given).identity,
        rest.spec_identity() == given.spec_identity(),
        rest.spec_imports() == given.spec_imports(),
        rest.spec_resolved_imports() == given.spec_resolved_imports(),
        rest.spec_generics() == given.spec_generics(),
        rest.spec_input() == given.spec_input(),
        rest.spec_output() == given.spec_output(),
        rest.spec_streams() == given.spec_streams(),
        rest.spec_families() == given.spec_families(),
    ensures
        schema_view(r) == edited(schema_view(given), index as int, declaration_view(declaration)),
        r.spec_identity() == given.spec_identity(),
{
    let mut namespace = namespace;
    let ghost d = declaration;
    namespace.insert(index, declaration);
    let r = rest.with_namespace(namespace).with_relations(Vec::new()).with_impl_blocks(Vec::new());
    proof {
        let a = schema_view(r);
        let b = edited(schema_view(given), index as int, declaration_view(d));
        assert(r.spec_namespace() =~= given.spec_namespace().update(index as int, d));
        assert(a.namespace =~= b.namespace);
        assert(a.relations =~= b.relations);
        assert(a.impl_blocks =~= b.impl_blocks);
    }
    r
}

impl SchemaEditApplication {
    pub closed spec fn spec_schema(&self) -> TrueSchema {
        self.schema
    }

    pub closed spec fn spec_edit(&self) -> SchemaEdit {
        self.edit
    }

    pub fn new(schema: TrueSchema, edit: SchemaEdit) -> (r: Self)
        ensures
            r.spec_schema() == schema,
            r.spec_edit() == edit,
    {
        SchemaEditApplication { schema, edit }
    }

    /// Apply the edit, producing the edited schema and the edit's receipt.
    pub fn apply(self) -> (r: Result<(TrueSchema, SchemaEditReceipt), SchemaError>)
        ensures
            edit_matches(r, edit_outcome(schema_view(self.spec_schema()), self.spec_edit()@)),
    {
        let SchemaEditApplication { schema, edit } = self;
        match edit {
            SchemaEdit::AddField(operation) => Self::apply_add_field(schema, operation),
            SchemaEdit::ChangeFieldType(operation) => Self::apply_change_field_type(schema, operation),
            SchemaEdit::AddVariant(operation) => Self::apply_add_variant(schema, operation),
        }
    }

    fn apply_add_field(schema: TrueSchema, edit: AddField) -> (r: Result<(TrueSchema, SchemaEditReceipt), SchemaError>)
        ensures
            edit_matches(r, edit_outcome(schema_view(schema), SchemaEdit::AddField(edit)@)),
    {
        let ghost given = schema;
        let (mut namespace, rest) = schema.into_namespace();
        let index = match find_declaration(&namespace, &edit.target_type) {
            Some(index) => index,
            None => {
                return Err(
                    SchemaError::SchemaEditTargetNotFound { type_ident: edit.target_type.as_str().to_owned() },
                );
            },
        };
        proof {
            assert(schema_view(given).namespace =~= namespace@.map_values(
                |d: Declaration| declaration_view(d),
            ));
        }
        let visibility = namespace[index].visibility();
        let declaration = namespace.remove(index);
        proof {
            assert(declaration == given.spec_namespace()[index as int]);
            assert(schema_view(given).namespace[index as int] == declaration_view(declaration));
        }
        let body = match declaration.into_value() {
            TypeDeclaration::Struct(body) => body,
            _ => {
                return Err(
                    SchemaError::SchemaEditExpectedStruct { type_ident: edit.target_type.as_str().to_owned() },
                );
            },
        };
        proof {
            body.fields.lemma_view();
        }
        if body.fields.has_field(&edit.field_name) {
            proof {
                let k = choose|k: int|
                    0 <= k < body.fields.spec_entries().len() && #[trigger] body.fields.spec_entries()[k].name@
                        == edit.field_name@;
                assert(body.fields@[k].0 == edit.field_name@);
            }
            return Err(
                SchemaError::SchemaEditDuplicateField {
                    type_ident: edit.target_type.as_str().to_owned(),
                    field_name: edit.field_name.as_str().to_owned(),
                },
            );
        }
        let ghost old_fields = body.fields@;
        proof {
            body.fields.lemma_view();
        }
        let StructDeclaration { name, fields } = body;
        let mut entries = fields.into_entries();
        let next_type = copy_reference(&edit.field_type);
        let AddField { target_type, field_name, field_type, default_value } = edit;
        entries.push(FieldDeclaration { name: field_name.clone(), reference: field_type });
        let rebuilt_body = StructDeclaration::new(name, entries);
        proof {
            rebuilt_body.fields.lemma_view();
            assert(rebuilt_body.fields@ =~= old_fields.push((field_name@, next_type@)));
        }
        let replacement = declaration_with(visibility, TypeDeclaration::Struct(rebuilt_body));
        let schema = replace_declaration(rest, namespace, index, replacement, Ghost(given));
        let receipt = receipt_for(
            &schema,
            Some(
                MigrationSpec {
                    target_type,
                    field_name,
                    previous_type: None,
                    next_type,
                    migration: FieldMigration::SetDefault(default_value),
                },
            ),
        );
        Ok((schema, receipt))
    }

    fn apply_change_field_type(schema: TrueSchema, edit: ChangeFieldType) -> (r: Result<(TrueSchema, SchemaEditReceipt), SchemaError>)
        ensures
            edit_matches(r, edit_outcome(schema_view(schema), SchemaEdit::ChangeFieldType(edit)@)),
    {
        let ghost given = schema;
        let (mut namespace, rest) = schema.into_namespace();
        let index = match find_declaration(&namespace, &edit.target_type) {
            Some(index) => index,
            None => {
                return Err(
                    SchemaError::SchemaEditTargetNotFound { type_ident: edit.target_type.as_str().to_owned() },
                );
            },
        };
        proof {
            assert(schema_view(given).namespace =~= namespace@.map_values(
                |d: Declaration| declaration_view(d),
            ));
        }
        let visibility = namespace[index].visibility();
        let declaration = namespace.remove(index);
        proof {
            assert(declaration == given.spec_namespace()[index as int]);
            assert(schema_view(given).namespace[index as int] == declaration_view(declaration));
        }
        let body = match declaration.into_value() {
            TypeDeclaration::Struct(body) => body,
            _ => {
                return Err(
                    SchemaError::SchemaEditExpectedStruct { type_ident: edit.target_type.as_str().to_owned() },
                );
            },
        };
        let ghost old_fields = body.fields@;
        proof {
            body.fields.lemma_view();
        }
        let StructDeclaration { name, fields } = body;
        let mut entries = fields.into_entries();
        let j = match find_field(&entries, &edit.field_name) {
            Some(j) => j,
            None => {
                return Err(
                    SchemaError::SchemaEditFieldNotFound {
                        type_ident: edit.target_type.as_str().to_owned(),
                        field_name: edit.field_name.as_str().to_owned(),
                    },
                );
            },
        };
        let next_type = copy_reference(&edit.new_type);
        let ChangeFieldType { target_type, field_name, new_type, migration } = edit;
        let previous = entries.remove(j);
        let FieldDeclaration { name: kept_name, reference: previous_type } = previous;
        entries.insert(j, FieldDeclaration { name: kept_name, reference: new_type });
        let rebuilt_body = StructDeclaration::new(name, entries);
        proof {
            rebuilt_body.fields.lemma_view();
            assert(rebuilt_body.fields@ =~= old_fields.update(j as int, (old_fields[j as int].0, next_type@)));
        }
        let replacement = declaration_with(visibility, TypeDeclaration::Struct(rebuilt_body));
        let schema = replace_declaration(rest, namespace, index, replacement, Ghost(given));
        let receipt = receipt_for(
            &schema,
            Some(
                MigrationSpec {
                    target_type,
                    field_name,
                    previous_type: Some(previous_type),
                    next_type,
                    migration,
                },
            ),
        );
        Ok((schema, receipt))
    }

    fn apply_add_variant(schema: TrueSchema, edit: AddVariant) -> (r: Result<(TrueSchema, SchemaEditReceipt), SchemaError>)
        ensures
            edit_matches(r, edit_outcome(schema_view(schema), SchemaEdit::AddVariant(edit)@)),
    {
        let ghost given = schema;
        let (mut namespace, rest) = schema.into_namespace();
        let index = match find_declaration(&namespace, &edit.target_type) {
            Some(index) => index,
            None => {
                return Err(
                    SchemaError::SchemaEditTargetNotFound { type_ident: edit.target_type.as_str().to_owned() },
                );
            },
        };
        proof {
            assert(schema_view(given).namespace =~= namespace@.map_values(
                |d: Declaration| declaration_view(d),
            ));
        }
        let visibility = namespace[index].visibility();
        let declaration = namespace.remove(index);
        proof {
            assert(declaration == given.spec_namespace()[index as int]);
            assert(schema_view(given).namespace[index as int] == declaration_view(declaration));
        }
        let body = match declaration.into_value() {
            TypeDeclaration::Enum(body) => body,
            _ => {
                return Err(
                    SchemaError::SchemaEditExpectedEnum { type_ident: edit.target_type.as_str().to_owned() },
                );
            },
        };
        if body.has_variant(&edit.variant_name) {
            proof {
                let k = choose|k: int|
                    0 <= k < body.variants@.len() && #[trigger] body.variants@[k].name@ == edit.variant_name@;
                assert(body@.variants[k].name == edit.variant_name@);
            }
            return Err(
                SchemaError::SchemaEditDuplicateVariant {
                    type_ident: edit.target_type.as_str().to_owned(),
                    variant_name: edit.variant_name.as_str().to_owned(),
                },
            );
        }
        let ghost old_body = body@;
        let EnumDeclaration { name, variants } = body;
        let mut variants = variants;
        let AddVariant { target_type: _, variant_name, payload } = edit;
        variants.push(EnumVariant::new(variant_name, payload));
        let rebuilt_body = EnumDeclaration::new(name, variants);
        proof {
            assert(rebuilt_body@.variants =~= old_body.variants.push(
                VariantView { name: edit.variant_name@, payload: payload_view(edit.payload), stream_relation: None },
            ));
        }
        let replacement = declaration_with(visibility, TypeDeclaration::Enum(rebuilt_body));
        let schema = replace_declaration(rest, namespace, index, replacement, Ghost(given));
        let receipt = receipt_for(&schema, None);
        Ok((schema, receipt))
    }
}

// ---------------------------------------------------------------- upgrades
/// The outcome of applying edits in order: each edit sees the schema the
/// edits before it produced; the first refusal stops the upgrade.
pub open spec fn edits_outcome(s: SchemaView, es: Seq<EditView>) -> Result<(SchemaView, Seq<ReceiptView>), EditFailure>
    decreases es.len(),
{
    if es.len() == 0 {
        Ok((s, Seq::empty()))
    } else {
        match edits_outcome(s, es.drop_last()) {
            Err(f) => Err(f),
            Ok((t, rs)) => match edit_outcome(t, es.last()) {
                Err(f) => Err(f),
                Ok((u, rc)) => Ok((u, rs.push(rc))),
            },
        }
    }
}

pub open spec fn edits_view(es: Seq<SchemaEdit>) -> Seq<EditView> {
    es.map_values(|e: SchemaEdit| e@)
}

pub open spec fn receipts_view(rs: Seq<SchemaEditReceipt>) -> Seq<ReceiptView> {
    rs.map_values(|r: SchemaEditReceipt| receipt_view(r))
}

/// `component@version`.
pub open spec fn identity_text(i: SchemaIdentity) -> Seq<char> {
    i.spec_component()@ + seq!['@'] + i.spec_version()
}

/// A schema view under another identity.
pub open spec fn restamped(s: SchemaView, identity: (Seq<char>, Seq<char>)) -> SchemaView {
    SchemaView {
        identity,
        imports: s.imports,
        resolved_imports: s.resolved_imports,
        generics: s.generics,
        input: s.input,
        output: s.output,
        namespace: s.namespace,
        streams: s.streams,
        families: s.families,
        relations: s.relations,
        impl_blocks: s.impl_blocks,
    }
}

/// A complete upgrade: the identity it was authored against, the identity
/// it produces, and its ordered edits.
#[derive(Debug)]
pub struct UpgradeObject {
    pub previous_identity: SchemaIdentity,
    pub next_identity: SchemaIdentity,
    pub edits: Vec<SchemaEdit>,
}

/// The record of an applied upgrade.
#[derive(Debug)]
pub struct UpgradeReceipt {
    pub previous_identity: SchemaIdentity,
    pub next_identity: SchemaIdentity,
    pub edit_receipts: Vec<SchemaEditReceipt>,
}

impl UpgradeReceipt {
    pub fn previous_identity(&self) -> (r: &SchemaIdentity)
        ensures
            *r == self.previous_identity,
    {
        &self.previous_identity
    }

    pub fn next_identity(&self) -> (r: &SchemaIdentity)
        ensures
            *r == self.next_identity,
    {
        &self.next_identity
    }

    pub fn edit_receipts(&self) -> (r: &[SchemaEditReceipt])
        ensures
            r@ == self.edit_receipts@,
    {
        self.edit_receipts.as_slice()
    }
}

fn identity_string(identity: &SchemaIdentity) -> (r: String)
    ensures
        r@ == identity_text(*identity),
{
    proof {
        reveal_strlit("@");
    }
    let mut out = String::new();
    out.append(identity.component().as_str());
    out.append("@");
    out.append(identity.version());
    out
}

impl UpgradeObject {
    pub fn new(previous_identity: SchemaIdentity, next_identity: SchemaIdentity, edits: Vec<SchemaEdit>) -> (r: Self)
        ensures
            r.previous_identity == previous_identity,
            r.next_identity == next_identity,
            r.edits == edits,
    {
        UpgradeObject { previous_identity, next_identity, edits }
    }

    pub fn previous_identity(&self) -> (r: &SchemaIdentity)
        ensures
            *r == self.previous_identity,
    {
        &self.previous_identity
    }

    pub fn next_identity(&self) -> (r: &SchemaIdentity)
        ensures
            *r == self.next_identity,
    {
        &self.next_identity
    }

    pub fn edits(&self) -> (r: &[SchemaEdit])
        ensures
            r@ == self.edits@,
    {
        self.edits.as_slice()
    }

    /// Apply every edit in order against `previous`, returning the new
    /// schema stamped with the next identity and every edit's receipt. A
    /// schema whose identity is not the one the upgrade was authored
    /// against is refused.
    pub fn apply(&self, previous: &TrueSchema) -> (r: Result<(TrueSchema, UpgradeReceipt), SchemaError>)
        ensures
            identity_view(previous.spec_identity()) != identity_view(self.previous_identity) ==> (r matches Err(
                SchemaError::SchemaEditIdentityMismatch { expected, found },
            ) && expected@ == identity_text(self.previous_identity) && found@ == identity_text(
                previous.spec_identity(),
            )),
            identity_view(previous.spec_identity()) == identity_view(self.previous_identity) ==> match edits_outcome(
                schema_view(*previous),
                edits_view(self.edits@),
            ) {
                Err(f) => r is Err && reports_failure(r->Err_0, f),
                Ok((s, rs)) => r is Ok && schema_view(r->Ok_0.0) == restamped(
                    s,
                    identity_view(self.next_identity),
                ) && r->Ok_0.1.previous_identity == self.previous_identity
                    && r->Ok_0.1.next_identity == self.next_identity && receipts_view(
                    r->Ok_0.1.edit_receipts@,
                ) == rs,
            },
    {
        if !(*previous.identity() == self.previous_identity) {
            return Err(
                SchemaError::SchemaEditIdentityMismatch {
                    expected: identity_string(&self.previous_identity),
                    found: identity_string(previous.identity()),
                },
            );
        }
        let ghost start = schema_view(*previous);
        let mut schema = previous.copy();
        let mut edit_receipts: Vec<SchemaEditReceipt> = Vec::new();
        proof {
            assert(edits_view(self.edits@).take(0) =~= Seq::<EditView>::empty());
            assert(receipts_view(edit_receipts@) =~= Seq::<ReceiptView>::empty());
        }
        let mut i: usize = 0;
        while i < self.edits.len()
            invariant
                i <= self.edits@.len(),
                start == schema_view(*previous),
                identity_view(previous.spec_identity()) == identity_view(self.previous_identity),
                edits_outcome(start, edits_view(self.edits@).take(i as int)) == Ok::<
                    (SchemaView, Seq<ReceiptView>),
                    EditFailure,
                >((schema_view(schema), receipts_view(edit_receipts@))),
            decreases self.edits@.len() - i,
        {
            let edit = self.edits[i].clone();
            proof {
                let es = edits_view(self.edits@);
                assert(es.take(i + 1).drop_last() =~= es.take(i as int));
                assert(es.take(i + 1).last() == self.edits@[i as int]@);
            }
            match SchemaEditApplication::new(schema, edit).apply() {
                Ok((next, receipt)) => {
                    schema = next;
                    let ghost before = edit_receipts@;
                    edit_receipts.push(receipt);
                    proof {
                        assert(receipts_view(edit_receipts@) =~= receipts_view(before).push(
                            receipt_view(receipt),
                        ));
                    }
                },
                Err(error) => {
                    proof {
                        lemma_edits_failure_prefix(start, edits_view(self.edits@), i as int + 1);
                    }
                    return Err(error);
                },
            }
            i = i + 1;
        }
        proof {
            assert(edits_view(self.edits@).take(i as int) =~= edits_view(self.edits@));
        }
        let schema = schema.with_identity(self.next_identity.clone());
        let receipt = UpgradeReceipt {
            previous_identity: self.previous_identity.clone(),
            next_identity: self.next_identity.clone(),
            edit_receipts,
        };
        Ok((schema, receipt))
    }
}

/// A refusal in a prefix of the edits is the refusal of the whole upgrade.
proof fn lemma_edits_failure_prefix(s: SchemaView, es: Seq<EditView>, n: int)
    requires
        0 <= n <= es.len(),
        edits_outcome(s, es.take(n)) is Err,
    ensures
        edits_outcome(s, es) == edits_outcome(s, es.take(n)),
    decreases es.len() - n,
{
    if n < es.len() {
        assert(es.take(n + 1).drop_last() =~= es.take(n));
        lemma_edits_failure_prefix(s, es, n + 1);
    } else {
        assert(es.take(n) =~= es);
    }
}


/// An edit never changes a schema's identity, and the receipt it produces
/// records that identity.
pub proof fn lemma_edit_keeps_identity(s: SchemaView, e: EditView)
    ensures
        edit_outcome(s, e) matches Ok((t, rc)) ==> t.identity == s.identity && rc.identity
            == s.identity,
{
}

/// Applying edits in order yields one receipt per edit, each recording the
/// identity the upgrade was authored against, and the schema keeps that
/// identity until the upgrade restamps it.
pub proof fn lemma_edits_receipts(s: SchemaView, es: Seq<EditView>)
    ensures
        edits_outcome(s, es) matches Ok((t, rs)) ==> t.identity == s.identity && rs.len() == es.len()
            && forall|i: int| 0 <= i < rs.len() ==> (#[trigger] rs[i]).identity == s.identity,
    decreases es.len(),
{
    if es.len() > 0 {
        lemma_edits_receipts(s, es.drop_last());
        match edits_outcome(s, es.drop_last()) {
            Ok((t, rs)) => {
                lemma_edit_keeps_identity(t, es.last());
            },
            Err(_) => {},
        }
    }
}

/// An upgrade with no edits gives back the schema it was applied to.
pub proof fn lemma_empty_upgrade(s: SchemaView)
    ensures
        edits_outcome(s, Seq::empty()) == Ok::<(SchemaView, Seq<ReceiptView>), EditFailure>(
            (s, Seq::empty()),
        ),
{
}

/// After a successful field addition, the declaration the edit targeted
/// is a struct whose last component is the new field with its type.
pub proof fn lemma_added_field_present(s: SchemaView, target: Seq<char>, field: Seq<char>, field_type: TypeRefView, default_value: DefaultView)
    ensures
        edit_outcome(s, EditView::AddField { target, field, field_type, default_value }) is Ok
            ==> (first_match(s.namespace, declaration_spelled(target)) matches Some(k) && (edit_outcome(
            s,
            EditView::AddField { target, field, field_type, default_value },
        )->Ok_0.0.namespace[k].value matches TypeDeclView::Struct(_, fs) && fs.len() > 0 && fs.last()
            == (field, field_type))),
{
    crate::lookup::lemma_first_match(s.namespace, declaration_spelled(target));
}

} // verus!
