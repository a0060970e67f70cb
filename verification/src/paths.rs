//! Symbol paths into a schema: building the path of a type, field, or
//! variant, and finding where a path points.
use vstd::prelude::*;

use crate::lookup::{first_match, lemma_first_match};
use crate::name::{Name, SymbolPath};
use crate::schema::{
    EnumDeclaration, TypeDeclaration, declares_field, declares_variant, field_spelled,
    variant_spelled,
};
use crate::true_schema::{PositionView, SymbolPathPosition, TrueSchema};

verus! {

impl TrueSchema {
    /// The path of a namespace type.
    pub fn type_path(&self, type_ident: &str) -> (r: Option<SymbolPath>)
        ensures
            self.spec_type_named(type_ident@) is None ==> r is None,
            self.spec_type_named(type_ident@) matches Some(t) ==> r is Some
                && r.unwrap().spec_segments() == seq![
                self.spec_identity().spec_component(),
                t.spec_name(),
            ],
    {
        match self.type_named(type_ident) {
            Some(declaration) => Some(SymbolPath::type_path(self.identity(), declaration.name())),
            None => None,
        }
    }

    /// The path of a variant of a root enum: the first variant carrying
    /// the name.
    pub fn root_variant_path(&self, root_name: &str, variant_name: &str) -> (r: Option<SymbolPath>)
        ensures
            match self.spec_root_enum_named(root_name@) {
                Some(e) => match first_match(e.variants@, variant_spelled(variant_name@)) {
                    Some(k) => r is Some && r.unwrap().spec_segments() == seq![
                        self.spec_identity().spec_component(),
                        e.name,
                        e.variants@[k].name,
                    ],
                    None => r is None,
                },
                None => r is None,
            },
    {
        match self.root_enum_named(root_name) {
            Some(root) => match root.variant_named(variant_name) {
                Some(variant) => Some(
                    SymbolPath::root_variant_path(self.identity(), &root.name, &variant.name),
                ),
                None => None,
            },
            None => None,
        }
    }

    /// The path of a field of a namespace struct: the first field carrying
    /// the name.
    pub fn field_path(&self, type_ident: &str, field_name: &str) -> (r: Option<SymbolPath>)
        ensures
            match self.spec_type_named(type_ident@) {
                Some(TypeDeclaration::Struct(d)) => match first_match(
                    d.fields.spec_entries(),
                    field_spelled(field_name@),
                ) {
                    Some(k) => r is Some && r.unwrap().spec_segments() == seq![
                        self.spec_identity().spec_component(),
                        d.name,
                        d.fields.spec_entries()[k].name,
                    ],
                    None => r is None,
                },
                _ => r is None,
            },
    {
        match self.type_named(type_ident) {
            Some(TypeDeclaration::Struct(declaration)) => match declaration.fields.field_named(
                field_name,
            ) {
                Some(field) => Some(
                    SymbolPath::field_path(self.identity(), &declaration.name, &field.name),
                ),
                None => None,
            },
            _ => None,
        }
    }

    /// The path of a variant of a namespace enum: the first variant
    /// carrying the name.
    pub fn enum_variant_path(&self, enum_name: &str, variant_name: &str) -> (r: Option<SymbolPath>)
        ensures
            match self.spec_type_named(enum_name@) {
                Some(TypeDeclaration::Enum(e)) => match first_match(
                    e.variants@,
                    variant_spelled(variant_name@),
                ) {
                    Some(k) => r is Some && r.unwrap().spec_segments() == seq![
                        self.spec_identity().spec_component(),
                        e.name,
                        e.variants@[k].name,
                    ],
                    None => r is None,
                },
                _ => r is None,
            },
    {
        match self.type_named(enum_name) {
            Some(TypeDeclaration::Enum(declaration)) => match declaration.variant_named(variant_name) {
                Some(variant) => Some(
                    SymbolPath::enum_variant_path(self.identity(), &declaration.name, &variant.name),
                ),
                None => None,
            },
            _ => None,
        }
    }

    /// Where a path's local segments point: a type, a root variant, a
    /// struct field, or an enum variant, asked in that order.
    pub open spec fn spec_position(&self, segments: Seq<Name>) -> Option<PositionView> {
        if !(segments.len() > 0 && segments[0]@ == self.spec_identity().spec_component()@) {
            None
        } else {
            let local = segments.skip(1);
            if local.len() == 1 && self.spec_type_named(local[0]@) is Some {
                Some(PositionView::Type(local[0]@))
            } else if local.len() == 2 && (self.spec_root_enum_named(local[0]@) matches Some(e)
                && exists|k: int| 0 <= k < e.variants@.len() && #[trigger] e.variants@[k].name@ == local[1]@) {
                Some(PositionView::RootVariant(local[0]@, local[1]@))
            } else if local.len() == 2 && (self.spec_type_named(local[0]@) matches Some(t)
                && declares_field(t, local[1]@)) {
                Some(PositionView::Field(local[0]@, local[1]@))
            } else if local.len() == 2 && (self.spec_type_named(local[0]@) matches Some(t)
                && declares_variant(t, local[1]@)) {
                Some(PositionView::EnumVariant(local[0]@, local[1]@))
            } else {
                None
            }
        }
    }

    /// The position a symbol path points to in this schema.
    pub fn symbol_path_position<'path>(&self, path: &'path SymbolPath) -> (r: Option<SymbolPathPosition<'path>>)
        ensures
            r is None <==> self.spec_position(path.spec_segments()) is None,
            r matches Some(p) ==> self.spec_position(path.spec_segments()) == Some(p@),
    {
        if !path.belongs_to(self.identity()) {
            return None;
        }
        let local = path.local_segments();
        if local.len() == 1 {
            if self.type_named(local[0].as_str()).is_some() {
                return Some(SymbolPathPosition::Type { type_ident: &local[0] });
            }
            return None;
        }
        if local.len() != 2 {
            return None;
        }
        let first = &local[0];
        let second = &local[1];
        if let Some(root) = self.root_enum_named(first.as_str()) {
            if root.has_variant(second) {
                return Some(SymbolPathPosition::RootVariant { root_name: first, variant_name: second });
            }
        }
        if let Some(declaration) = self.type_named(first.as_str()) {
            if declaration.has_field_named(second) {
                return Some(SymbolPathPosition::Field { type_ident: first, field_name: second });
            }
            if declaration.has_variant_named(second) {
                return Some(SymbolPathPosition::EnumVariant { enum_name: first, variant_name: second });
            }
        }
        None
    }
}

/// Each path the schema builds leads back to what it was built for: a
/// type's path to the type, a root variant's path to that root variant,
/// and, where no root enum carries the declaration's name, a field's path
/// to the field and an enum variant's path to the variant. A path whose
/// first segment is not the schema's component leads nowhere.
pub proof fn lemma_paths_lead_back(s: TrueSchema, x: Seq<char>, m: Seq<char>)
    ensures
        s.spec_type_named(x) matches Some(t) ==> s.spec_position(seq![s.spec_identity().spec_component(), t.spec_name()])
            == Some(PositionView::Type(x)),
        match s.spec_root_enum_named(x) {
            Some(e) => match first_match(e.variants@, variant_spelled(m)) {
                Some(k) => s.spec_position(seq![s.spec_identity().spec_component(), e.name, e.variants@[k].name])
                    == Some(PositionView::RootVariant(x, m)),
                None => true,
            },
            None => match s.spec_type_named(x) {
                Some(TypeDeclaration::Struct(d)) => match first_match(d.fields.spec_entries(), field_spelled(m)) {
                    Some(k) => s.spec_position(
                        seq![s.spec_identity().spec_component(), d.name, d.fields.spec_entries()[k].name],
                    ) == Some(PositionView::Field(x, m)),
                    None => true,
                },
                Some(TypeDeclaration::Enum(e)) => match first_match(e.variants@, variant_spelled(m)) {
                    Some(k) => s.spec_position(seq![s.spec_identity().spec_component(), e.name, e.variants@[k].name])
                        == Some(PositionView::EnumVariant(x, m)),
                    None => true,
                },
                _ => true,
            },
        },
        forall|segments: Seq<Name>|
            (segments.len() == 0 || segments[0]@ != s.spec_identity().spec_component()@) ==> #[trigger] s.spec_position(
                segments,
            ) is None,
{
    let comp = s.spec_identity().spec_component();
    if s.spec_type_named(x) is Some {
        lemma_first_match(s.spec_namespace(), crate::true_schema::declaration_spelled(x));
        let t = s.spec_type_named(x).unwrap();
        let segments = seq![comp, t.spec_name()];
        assert(segments.skip(1) =~= seq![t.spec_name()]);
        assert(t.spec_name()@ == x);
        match t {
            TypeDeclaration::Struct(d) => {
                if let Some(k) = first_match(d.fields.spec_entries(), field_spelled(m)) {
                    lemma_first_match(d.fields.spec_entries(), field_spelled(m));
                    let segs = seq![comp, d.name, d.fields.spec_entries()[k].name];
                    assert(segs.skip(1) =~= seq![d.name, d.fields.spec_entries()[k].name]);
                    assert(declares_field(t, m));
                }
            },
            TypeDeclaration::Enum(e) => {
                if let Some(k) = first_match(e.variants@, variant_spelled(m)) {
                    lemma_first_match(e.variants@, variant_spelled(m));
                    let segs = seq![comp, e.name, e.variants@[k].name];
                    assert(segs.skip(1) =~= seq![e.name, e.variants@[k].name]);
                    assert(declares_variant(t, m));
                    assert(!declares_field(t, m));
                }
            },
            _ => {},
        }
    }
    if let Some(e) = s.spec_root_enum_named(x) {
        if let Some(k) = first_match(e.variants@, variant_spelled(m)) {
            lemma_first_match(e.variants@, variant_spelled(m));
            let segs = seq![comp, e.name, e.variants@[k].name];
            assert(segs.skip(1) =~= seq![e.name, e.variants@[k].name]);
            assert(e.name@ == x);
        }
    }
}

} // verus!
