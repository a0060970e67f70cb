//! Arity checking at lowering: every generic application whose head names a
//! declared parameterized type supplies exactly that type's arity, and no
//! enum variant carries an optional or same-named payload.
use vstd::prelude::*;

use crate::error::SchemaError;
use crate::reference::{
    ApplicationHead, HeadView, TypeRefView, TypeReference, head_spelling, lemma_references_view,
    reference_view, references_view,
};
use crate::schema::{
    Declaration, EnumDeclaration, EnumView, TypeDeclaration, VariantView, fields_view,
    same_named_payload, variants_view,
};
use crate::true_schema::{Root, TrueSchema};

verus! {

/// What the arity check reports.
pub enum ArityDefect {
    /// An enum variant's payload is optional.
    OptionalPayload { enum_name: Seq<char>, variant_name: Seq<char> },
    /// An enum variant's payload is a declared name repeating the variant's.
    SameNamedPayload { enum_name: Seq<char>, variant_name: Seq<char>, payload_type: Seq<char> },
    /// An application supplies the wrong number of arguments.
    Mismatch { head: Seq<char>, expected: nat, found: nat },
}

/// Whether an error reports the given arity defect.
pub open spec fn reports_arity(e: SchemaError, d: ArityDefect) -> bool {
    match d {
        ArityDefect::OptionalPayload { enum_name, variant_name } => e matches SchemaError::OptionalVariantPayload { enum_name: a, variant_name: b } && a@
            == enum_name && b@ == variant_name,
        ArityDefect::SameNamedPayload { enum_name, variant_name, payload_type } => e matches SchemaError::SameNamedVariantPayload { enum_name: a, variant_name: b, payload_type: c } && a@
            == enum_name && b@ == variant_name && c@ == payload_type,
        ArityDefect::Mismatch { head, expected, found } => e matches SchemaError::GenericArityMismatch { head: h, expected: x, found: y } && h@
            == head && x as nat == expected && y as nat == found,
    }
}

pub open spec fn first_of(a: Option<ArityDefect>, b: Option<ArityDefect>) -> Option<ArityDefect> {
    match a {
        Some(d) => Some(d),
        None => b,
    }
}

impl TrueSchema {
    /// The arity a head must supply when it names a declared parameterized
    /// type: a generic definition, a namespace declaration, or a resolved
    /// import for a local head; the carried count for an imported head.
    pub open spec fn spec_head_arity(&self, head: HeadView) -> Option<nat> {
        match head {
            HeadView::Local(n) => match self.spec_generic_named(n) {
                Some(g) => Some(g.spec_builtin().spec_parameter_count()),
                None => match self.spec_declaration_named(n) {
                    Some(d) => Some(d.spec_parameters().len()),
                    None => match self.spec_import_named(n) {
                        Some(i) => match i.spec_parameter_count() {
                            Some(c) => Some(c as nat),
                            None => None,
                        },
                        None => None,
                    },
                },
            },
            HeadView::Imported(v) => match v.parameter_count {
                Some(c) => Some(c as nat),
                None => None,
            },
        }
    }

    /// The first arity defect inside a reference, outermost first.
    pub open spec fn spec_reference_defect(&self, r: TypeRefView) -> Option<ArityDefect>
        decreases r,
    {
        match r {
            TypeRefView::Vector(inner) => self.spec_reference_defect(*inner),
            TypeRefView::Optional(inner) => self.spec_reference_defect(*inner),
            TypeRefView::ScopeOf(inner) => self.spec_reference_defect(*inner),
            TypeRefView::MapOf(key, value) => first_of(
                self.spec_reference_defect(*key),
                self.spec_reference_defect(*value),
            ),
            TypeRefView::Application { head, arguments } => match self.spec_head_arity(head) {
                Some(e) if e != arguments.len() => Some(
                    ArityDefect::Mismatch { head: head_spelling(head), expected: e, found: arguments.len() },
                ),
                _ => self.spec_references_defect(arguments),
            },
            _ => None,
        }
    }

    /// The first arity defect among several references, in order.
    pub open spec fn spec_references_defect(&self, args: Seq<TypeRefView>) -> Option<ArityDefect>
        decreases args,
    {
        if args.len() == 0 {
            None
        } else {
            first_of(
                self.spec_references_defect(args.drop_last()),
                self.spec_reference_defect(args.last()),
            )
        }
    }

    /// The defect of one enum variant: an optional payload, a same-named
    /// payload, or an arity defect inside the payload.
    pub open spec fn spec_variant_defect(&self, enum_name: Seq<char>, v: VariantView) -> Option<ArityDefect> {
        match v.payload {
            None => None,
            Some(p) => if p is Optional {
                Some(ArityDefect::OptionalPayload { enum_name, variant_name: v.name })
            } else if same_named_payload(v) is Some {
                Some(
                    ArityDefect::SameNamedPayload {
                        enum_name,
                        variant_name: v.name,
                        payload_type: same_named_payload(v).unwrap(),
                    },
                )
            } else {
                self.spec_reference_defect(p)
            },
        }
    }

    pub open spec fn spec_variants_defect(&self, enum_name: Seq<char>, vs: Seq<VariantView>) -> Option<ArityDefect>
        decreases vs.len(),
    {
        if vs.len() == 0 {
            None
        } else {
            first_of(
                self.spec_variants_defect(enum_name, vs.drop_last()),
                self.spec_variant_defect(enum_name, vs.last()),
            )
        }
    }

    pub open spec fn spec_fields_defect(&self, fs: Seq<(Seq<char>, TypeRefView)>) -> Option<ArityDefect>
        decreases fs.len(),
    {
        if fs.len() == 0 {
            None
        } else {
            first_of(self.spec_fields_defect(fs.drop_last()), self.spec_reference_defect(fs.last().1))
        }
    }

    pub open spec fn spec_type_defect(&self, t: TypeDeclaration) -> Option<ArityDefect> {
        match t {
            TypeDeclaration::Struct(s) => self.spec_fields_defect(s.fields@),
            TypeDeclaration::Newtype(n) => self.spec_reference_defect(n.reference@),
            TypeDeclaration::Enum(e) => self.spec_variants_defect(e@.name, e@.variants),
        }
    }

    pub open spec fn spec_root_defect(&self, root: Root) -> Option<ArityDefect> {
        match root {
            Root::Enum(d) => self.spec_variants_defect(d@.name, d@.variants),
            Root::Application(a) => self.spec_reference_defect(a.spec_reference()),
        }
    }

    pub open spec fn spec_namespace_defect(&self, ds: Seq<Declaration>) -> Option<ArityDefect>
        decreases ds.len(),
    {
        if ds.len() == 0 {
            None
        } else {
            first_of(
                self.spec_namespace_defect(ds.drop_last()),
                self.spec_type_defect(ds.last().spec_value()),
            )
        }
    }

    /// The first arity defect of the schema: namespace declarations in
    /// order, then the input root, then the output root.
    pub open spec fn spec_arity_defect(&self) -> Option<ArityDefect> {
        first_of(
            self.spec_namespace_defect(self.spec_namespace()),
            first_of(
                self.spec_root_defect(self.spec_input()),
                self.spec_root_defect(self.spec_output()),
            ),
        )
    }

    fn declared_head_arity(&self, head: &ApplicationHead) -> (r: Option<usize>)
        ensures
            r is Some <==> self.spec_head_arity(head@) is Some,
            r matches Some(n) ==> n as nat == self.spec_head_arity(head@).unwrap(),
    {
        match head {
            ApplicationHead::Local(name) => match self.generic_named(name.as_str()) {
                Some(definition) => Some(definition.parameter_count()),
                None => match self.declared_parameter_count(name.as_str()) {
                    Some(count) => Some(count),
                    None => match self.resolved_import_named(name) {
                        Some(import) => import.parameter_count(),
                        None => None,
                    },
                },
            },
            ApplicationHead::Imported(import) => import.parameter_count,
        }
    }

    fn verify_reference_arities(&self, reference: &TypeReference) -> (r: Result<(), SchemaError>)
        ensures
            r is Ok <==> self.spec_reference_defect(reference@) is None,
            r is Err ==> reports_arity(r->Err_0, self.spec_reference_defect(reference@).unwrap()),
        decreases reference,
    {
        match reference {
            TypeReference::Vector(inner) => self.verify_reference_arities(inner),
            TypeReference::Optional(inner) => self.verify_reference_arities(inner),
            TypeReference::ScopeOf(inner) => self.verify_reference_arities(inner),
            TypeReference::MapOf(key, value) => {
                let outcome = self.verify_reference_arities(key);
                if outcome.is_err() {
                    return outcome;
                }
                self.verify_reference_arities(value)
            },
            TypeReference::Application { head, arguments } => {
                proof {
                    lemma_references_view(arguments@);
                }
                if let Some(expected) = self.declared_head_arity(head) {
                    if expected != arguments.len() {
                        return Err(
                            SchemaError::GenericArityMismatch {
                                head: head.name().as_str().to_owned(),
                                expected,
                                found: arguments.len(),
                            },
                        );
                    }
                }
                let mut i: usize = 0;
                while i < arguments.len()
                    invariant
                        i <= arguments@.len(),
                        *reference == (TypeReference::Application { head: *head, arguments: *arguments }),
                        references_view(arguments@).len() == arguments@.len(),
                        self.spec_head_arity(head@) matches Some(e) ==> e == arguments@.len(),
                        self.spec_references_defect(references_view(arguments@.take(i as int)))
                            is None,
                    decreases arguments@.len() - i,
                {
                    proof {
                        vstd::std_specs::vec::axiom_vec_index_decreases(*arguments, i as int);
                        assert(decreases_to!(*reference => reference->arguments));
                        lemma_view_step(arguments@, i as int);
                    }
                    let outcome = self.verify_reference_arities(&arguments[i]);
                    if outcome.is_err() {
                        proof {
                            self.lemma_references_defect_prefix(references_view(arguments@), i as int + 1);
                            assert(references_view(arguments@).take(i + 1) =~= references_view(
                                arguments@.take(i + 1),
                            ));
                        }
                        return outcome;
                    }
                    i = i + 1;
                }
                proof {
                    assert(arguments@.take(arguments@.len() as int) =~= arguments@);
                }
                Ok(())
            },
            _ => Ok(()),
        }
    }

    /// A defect in a prefix is the defect of the whole list.
    proof fn lemma_references_defect_prefix(&self, args: Seq<TypeRefView>, n: int)
        requires
            0 <= n <= args.len(),
            self.spec_references_defect(args.take(n)) is Some,
        ensures
            self.spec_references_defect(args) == self.spec_references_defect(args.take(n)),
        decreases args.len() - n,
    {
        if n < args.len() {
            assert(args.take(n + 1).drop_last() =~= args.take(n));
            self.lemma_references_defect_prefix(args, n + 1);
        } else {
            assert(args.take(n) =~= args);
        }
    }

    proof fn lemma_variants_defect_prefix(&self, enum_name: Seq<char>, vs: Seq<VariantView>, n: int)
        requires
            0 <= n <= vs.len(),
            self.spec_variants_defect(enum_name, vs.take(n)) is Some,
        ensures
            self.spec_variants_defect(enum_name, vs) == self.spec_variants_defect(enum_name, vs.take(n)),
        decreases vs.len() - n,
    {
        if n < vs.len() {
            assert(vs.take(n + 1).drop_last() =~= vs.take(n));
            self.lemma_variants_defect_prefix(enum_name, vs, n + 1);
        } else {
            assert(vs.take(n) =~= vs);
        }
    }

    proof fn lemma_fields_defect_prefix(&self, fs: Seq<(Seq<char>, TypeRefView)>, n: int)
        requires
            0 <= n <= fs.len(),
            self.spec_fields_defect(fs.take(n)) is Some,
        ensures
            self.spec_fields_defect(fs) == self.spec_fields_defect(fs.take(n)),
        decreases fs.len() - n,
    {
        if n < fs.len() {
            assert(fs.take(n + 1).drop_last() =~= fs.take(n));
            self.lemma_fields_defect_prefix(fs, n + 1);
        } else {
            assert(fs.take(n) =~= fs);
        }
    }

    proof fn lemma_namespace_defect_prefix(&self, ds: Seq<Declaration>, n: int)
        requires
            0 <= n <= ds.len(),
            self.spec_namespace_defect(ds.take(n)) is Some,
        ensures
            self.spec_namespace_defect(ds) == self.spec_namespace_defect(ds.take(n)),
        decreases ds.len() - n,
    {
        if n < ds.len() {
            assert(ds.take(n + 1).drop_last() =~= ds.take(n));
            self.lemma_namespace_defect_prefix(ds, n + 1);
        } else {
            assert(ds.take(n) =~= ds);
        }
    }

    fn verify_enum_arities(&self, declaration: &EnumDeclaration) -> (r: Result<(), SchemaError>)
        ensures
            r is Ok <==> self.spec_variants_defect(declaration@.name, declaration@.variants) is None,
            r is Err ==> reports_arity(
                r->Err_0,
                self.spec_variants_defect(declaration@.name, declaration@.variants).unwrap(),
            ),
    {
        let ghost name = declaration@.name;
        let ghost vs = declaration@.variants;
        let mut i: usize = 0;
        while i < declaration.variants.len()
            invariant
                i <= declaration.variants@.len(),
                name == declaration@.name,
                vs == variants_view(declaration.variants@),
                vs.len() == declaration.variants@.len(),
                self.spec_variants_defect(name, vs.take(i as int)) is None,
            decreases declaration.variants@.len() - i,
        {
            let variant = &declaration.variants[i];
            proof {
                assert(vs.take(i + 1).drop_last() =~= vs.take(i as int));
                assert(vs.take(i + 1).last() == variant@);
            }
            if let Some(payload) = &variant.payload {
                if let TypeReference::Optional(_) = payload {
                    proof {
                        self.lemma_variants_defect_prefix(name, vs, i as int + 1);
                    }
                    return Err(
                        SchemaError::OptionalVariantPayload {
                            enum_name: declaration.name.as_str().to_owned(),
                            variant_name: variant.name.as_str().to_owned(),
                        },
                    );
                }
                if let Some(payload_type) = variant.same_named_direct_payload_type() {
                    proof {
                        self.lemma_variants_defect_prefix(name, vs, i as int + 1);
                    }
                    return Err(
                        SchemaError::SameNamedVariantPayload {
                            enum_name: declaration.name.as_str().to_owned(),
                            variant_name: variant.name.as_str().to_owned(),
                            payload_type: payload_type.to_owned(),
                        },
                    );
                }
                let outcome = self.verify_reference_arities(payload);
                if outcome.is_err() {
                    proof {
                        self.lemma_variants_defect_prefix(name, vs, i as int + 1);
                    }
                    return outcome;
                }
            }
            i = i + 1;
        }
        proof {
            assert(vs.take(i as int) =~= vs);
        }
        Ok(())
    }

    fn verify_declaration_arities(&self, declaration: &TypeDeclaration) -> (r: Result<(), SchemaError>)
        ensures
            r is Ok <==> self.spec_type_defect(*declaration) is None,
            r is Err ==> reports_arity(r->Err_0, self.spec_type_defect(*declaration).unwrap()),
    {
        match declaration {
            TypeDeclaration::Struct(body) => {
                let fields = body.fields.entries();
                let ghost fs = body.fields@;
                proof {
                    body.fields.lemma_view();
                }
                let mut i: usize = 0;
                while i < fields.len()
                    invariant
                        i <= fields@.len(),
                        fields@ == body.fields.spec_entries(),
                        fs == fields_view(fields@),
                        fs == body.fields@,
                        *declaration == TypeDeclaration::Struct(*body),
                        fs.len() == fields@.len(),
                        self.spec_fields_defect(fs.take(i as int)) is None,
                    decreases fields@.len() - i,
                {
                    proof {
                        assert(fs.take(i + 1).drop_last() =~= fs.take(i as int));
                        assert(fs.take(i + 1).last() == fields@[i as int]@);
                    }
                    let outcome = self.verify_reference_arities(&fields[i].reference);
                    if outcome.is_err() {
                        proof {
                            self.lemma_fields_defect_prefix(fs, i as int + 1);
                        }
                        return outcome;
                    }
                    i = i + 1;
                }
                proof {
                    assert(fs.take(i as int) =~= fs);
                }
                Ok(())
            },
            TypeDeclaration::Newtype(body) => self.verify_reference_arities(&body.reference),
            TypeDeclaration::Enum(body) => self.verify_enum_arities(body),
        }
    }

    fn verify_root_arities(&self, root: &Root) -> (r: Result<(), SchemaError>)
        ensures
            r is Ok <==> self.spec_root_defect(*root) is None,
            r is Err ==> reports_arity(r->Err_0, self.spec_root_defect(*root).unwrap()),
    {
        match root {
            Root::Enum(declaration) => self.verify_enum_arities(declaration),
            Root::Application(application) => {
                let reference = application.to_reference();
                self.verify_reference_arities(&reference)
            },
        }
    }

    /// Confirm every application whose head names a declared parameterized
    /// type supplies that type's arity, and no enum variant carries an
    /// optional or same-named payload. The first defect is reported:
    /// namespace declarations in order, then the input and output roots.
    pub fn arities_verified(self) -> (r: Result<Self, SchemaError>)
        ensures
            self.spec_arity_defect() is None ==> r == Ok::<Self, SchemaError>(self),
            self.spec_arity_defect() is Some ==> r is Err && reports_arity(
                r->Err_0,
                self.spec_arity_defect().unwrap(),
            ),
    {
        let namespace = self.namespace();
        let mut i: usize = 0;
        while i < namespace.len()
            invariant
                i <= namespace@.len(),
                namespace@ == self.spec_namespace(),
                self.spec_namespace_defect(namespace@.take(i as int)) is None,
            decreases namespace@.len() - i,
        {
            proof {
                assert(namespace@.take(i + 1).drop_last() =~= namespace@.take(i as int));
            }
            let outcome = self.verify_declaration_arities(namespace[i].value());
            if let Err(error) = outcome {
                proof {
                    self.lemma_namespace_defect_prefix(namespace@, i as int + 1);
                }
                return Err(error);
            }
            i = i + 1;
        }
        proof {
            assert(namespace@.take(i as int) =~= namespace@);
        }
        if let Err(error) = self.verify_root_arities(self.input()) {
            return Err(error);
        }
        if let Err(error) = self.verify_root_arities(self.output()) {
            return Err(error);
        }
        Ok(self)
    }
}

/// One more argument's view extends the views before it.
proof fn lemma_view_step(args: Seq<TypeReference>, i: int)
    requires
        0 <= i < args.len(),
    ensures
        references_view(args.take(i + 1)).drop_last() == references_view(args.take(i)),
        references_view(args.take(i + 1)).last() == reference_view(args[i]),
        references_view(args.take(i + 1)) == references_view(args).take(i + 1),
        references_view(args.take(i)) == references_view(args).take(i),
{
    let t = args.take(i + 1);
    assert(t.drop_last() =~= args.take(i));
    lemma_references_view(t);
    lemma_references_view(args);
    lemma_references_view(args.take(i));
    assert(references_view(t).drop_last() =~= references_view(args.take(i)));
    assert(references_view(t) =~= references_view(args).take(i + 1));
    assert(references_view(args.take(i)) =~= references_view(args).take(i));
}

} // verus!
