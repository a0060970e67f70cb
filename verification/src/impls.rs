//! Impl catalogs: the references a schema makes to impls and methods that
//! exist on the Rust side, their composition identity, and the surface they
//! are checked against.
use vstd::prelude::*;

use crate::name::Name;
use crate::reference::{TypeRefView, TypeReference, canonical_text, copy_reference};

verus! {

// ---------------------------------------------------------------- parameters
/// One method parameter: a name and its type.
#[derive(Debug)]
pub struct MethodParameter {
    name: Name,
    reference: TypeReference,
}

impl View for MethodParameter {
    type V = (Seq<char>, TypeRefView);

    closed spec fn view(&self) -> (Seq<char>, TypeRefView) {
        (self.name@, self.reference@)
    }
}

impl Clone for MethodParameter {
    fn clone(&self) -> (r: Self)
        ensures
            r@ == self@,
    {
        MethodParameter { name: self.name.clone(), reference: copy_reference(&self.reference) }
    }
}

impl MethodParameter {
    pub closed spec fn spec_name(&self) -> Name {
        self.name
    }

    pub closed spec fn spec_reference(&self) -> TypeReference {
        self.reference
    }

    pub fn new(name: Name, reference: TypeReference) -> (r: Self)
        ensures
            r.spec_name() == name,
            r.spec_reference() == reference,
            r@ == (name@, reference@),
    {
        MethodParameter { name, reference }
    }

    pub fn name(&self) -> (r: &Name)
        ensures
            *r == self.spec_name(),
            r@ == self@.0,
    {
        &self.name
    }

    pub fn reference(&self) -> (r: &TypeReference)
        ensures
            *r == self.spec_reference(),
            r@ == self@.1,
    {
        &self.reference
    }
}

// ---------------------------------------------------------------- signatures
pub struct SignatureView {
    pub name: Seq<char>,
    pub parameters: Seq<(Seq<char>, TypeRefView)>,
    pub return_reference: TypeRefView,
}

pub open spec fn parameters_view(ps: Seq<MethodParameter>) -> Seq<(Seq<char>, TypeRefView)> {
    ps.map_values(|p: MethodParameter| p@)
}

/// A callable method signature `(name { params } Return)`.
#[derive(Debug)]
pub struct MethodSignature {
    name: Name,
    parameters: Vec<MethodParameter>,
    return_reference: TypeReference,
}

impl View for MethodSignature {
    type V = SignatureView;

    closed spec fn view(&self) -> SignatureView {
        SignatureView {
            name: self.name@,
            parameters: parameters_view(self.parameters@),
            return_reference: self.return_reference@,
        }
    }
}

impl Clone for MethodSignature {
    fn clone(&self) -> (r: Self)
        ensures
            r@ == self@,
    {
        let mut parameters: Vec<MethodParameter> = Vec::new();
        let mut i: usize = 0;
        while i < self.parameters.len()
            invariant
                i <= self.parameters@.len(),
                parameters@.len() == i,
                forall|k: int| 0 <= k < i ==> (#[trigger] parameters@[k])@ == self.parameters@[k]@,
            decreases self.parameters@.len() - i,
        {
            parameters.push(self.parameters[i].clone());
            i = i + 1;
        }
        let r = MethodSignature {
            name: self.name.clone(),
            parameters,
            return_reference: copy_reference(&self.return_reference),
        };
        assert(parameters_view(r.parameters@) =~= parameters_view(self.parameters@));
        r
    }
}

impl PartialEq for MethodSignature {
    fn eq(&self, other: &Self) -> (r: bool) {
        signatures_equal(self, other)
    }
}

impl vstd::std_specs::cmp::PartialEqSpecImpl for MethodSignature {
    open spec fn obeys_eq_spec() -> bool {
        true
    }

    open spec fn eq_spec(&self, other: &Self) -> bool {
        self@ == other@
    }
}

/// Whether two signatures agree in name, parameters, and return type.
pub fn signatures_equal(a: &MethodSignature, b: &MethodSignature) -> (r: bool)
    ensures
        r == (a@ == b@),
{
    if !(a.name == b.name) {
        return false;
    }
    if !crate::reference::references_equal(&a.return_reference, &b.return_reference) {
        return false;
    }
    if a.parameters.len() != b.parameters.len() {
        proof {
            assert(a@.parameters.len() != b@.parameters.len());
        }
        return false;
    }
    let mut i: usize = 0;
    while i < a.parameters.len()
        invariant
            a.parameters@.len() == b.parameters@.len(),
            i <= a.parameters@.len(),
            forall|k: int| 0 <= k < i ==> (#[trigger] a.parameters@[k])@ == b.parameters@[k]@,
        decreases a.parameters@.len() - i,
    {
        let pa = &a.parameters[i];
        let pb = &b.parameters[i];
        if !(pa.name == pb.name) || !crate::reference::references_equal(&pa.reference, &pb.reference) {
            proof {
                assert(parameters_view(a.parameters@)[i as int] != parameters_view(b.parameters@)[i as int]);
            }
            return false;
        }
        i = i + 1;
    }
    proof {
        assert(parameters_view(a.parameters@) =~= parameters_view(b.parameters@));
    }
    true
}

/// `name.Type` for one parameter, in canonical text.
pub open spec fn parameter_text(p: (Seq<char>, TypeRefView)) -> Seq<char> {
    p.0 + seq!['.'] + canonical_text(p.1)
}

/// The parameter texts separated by single spaces.
pub open spec fn parameters_text(ps: Seq<(Seq<char>, TypeRefView)>) -> Seq<char>
    decreases ps.len(),
{
    if ps.len() == 0 {
        Seq::empty()
    } else if ps.len() == 1 {
        parameter_text(ps[0])
    } else {
        parameters_text(ps.drop_last()) + seq![' '] + parameter_text(ps.last())
    }
}

/// The canonical full rendering of a signature:
/// `name { p.T q.U } Return`.
pub open spec fn signature_text(s: SignatureView) -> Seq<char> {
    s.name + seq![' ', '{', ' '] + parameters_text(s.parameters) + seq![' ', '}', ' ']
        + canonical_text(s.return_reference)
}

impl MethodSignature {
    pub closed spec fn spec_name(&self) -> Name {
        self.name
    }

    pub closed spec fn spec_parameters(&self) -> Seq<MethodParameter> {
        self.parameters@
    }

    pub closed spec fn spec_return_reference(&self) -> TypeReference {
        self.return_reference
    }

    /// The view spelled out over the parts.
    pub proof fn lemma_view(&self)
        ensures
            self@.name == self.spec_name()@,
            self@.parameters == parameters_view(self.spec_parameters()),
            self@.return_reference == self.spec_return_reference()@,
    {
    }

    pub fn new(name: Name, parameters: Vec<MethodParameter>, return_reference: TypeReference) -> (r: Self)
        ensures
            r.spec_name() == name,
            r.spec_parameters() == parameters@,
            r.spec_return_reference() == return_reference,
            r@ == (SignatureView {
                name: name@,
                parameters: parameters_view(parameters@),
                return_reference: return_reference@,
            }),
    {
        MethodSignature { name, parameters, return_reference }
    }

    pub fn name(&self) -> (r: &Name)
        ensures
            *r == self.spec_name(),
    {
        &self.name
    }

    pub fn parameters(&self) -> (r: &[MethodParameter])
        ensures
            r@ == self.spec_parameters(),
    {
        self.parameters.as_slice()
    }

    pub fn return_reference(&self) -> (r: &TypeReference)
        ensures
            *r == self.spec_return_reference(),
    {
        &self.return_reference
    }

    /// The canonical full rendering: name, parameter names and types, and
    /// the return type.
    pub fn render(&self) -> (r: String)
        ensures
            r@ == signature_text(self@),
    {
        proof {
            reveal_strlit(" { ");
            reveal_strlit(" } ");
            reveal_strlit(".");
            reveal_strlit(" ");
        }
        let mut out = String::new();
        out.append(self.name.as_str());
        out.append(" { ");
        let ghost start = out@;
        let mut i: usize = 0;
        while i < self.parameters.len()
            invariant
                i <= self.parameters@.len(),
                out@ == start + parameters_text(parameters_view(self.parameters@.take(i as int))),
            decreases self.parameters@.len() - i,
        {
            proof {
                reveal_strlit(".");
                reveal_strlit(" ");
            }
            if i > 0 {
                out.append(" ");
            }
            let parameter = &self.parameters[i];
            out.append(parameter.name.as_str());
            out.append(".");
            let text = parameter.reference.to_nota();
            out.append(text.as_str());
            proof {
                let t = self.parameters@.take(i + 1);
                let v = parameters_view(t);
                assert(t.drop_last() =~= self.parameters@.take(i as int));
                assert(v.drop_last() =~= parameters_view(self.parameters@.take(i as int)));
                assert(v.last() == self.parameters@[i as int]@);
                if i == 0 {
                    assert(parameters_view(self.parameters@.take(0)) =~= Seq::<
                        (Seq<char>, TypeRefView),
                    >::empty());
                    assert(parameters_text(v) == parameter_text(v[0]));
                } else {
                    assert(parameters_text(v) == parameters_text(v.drop_last()) + seq![' ']
                        + parameter_text(v.last()));
                }
                assert(out@ =~= start + parameters_text(v));
            }
            i = i + 1;
        }
        proof {
            assert(self.parameters@.take(self.parameters@.len() as int) =~= self.parameters@);
        }
        out.append(" } ");
        let text = self.return_reference.to_nota();
        out.append(text.as_str());
        assert(out@ =~= signature_text(self@));
        out
    }
}

// ---------------------------------------------------------------- entries
pub enum ImplRefView {
    Marker(Seq<char>),
    TraitImpl(Seq<char>, Seq<SignatureView>),
    InherentMethod(SignatureView),
}

pub open spec fn signatures_view(ms: Seq<MethodSignature>) -> Seq<SignatureView> {
    ms.map_values(|m: MethodSignature| m@)
}

/// One entry of an impl catalog: a marker trait, a trait impl with its
/// required methods, or a single inherent method.
#[derive(Debug)]
pub enum ImplReference {
    Marker(Name),
    TraitImpl(Name, Vec<MethodSignature>),
    InherentMethod(MethodSignature),
}

impl View for ImplReference {
    type V = ImplRefView;

    open spec fn view(&self) -> ImplRefView {
        match self {
            ImplReference::Marker(t) => ImplRefView::Marker(t@),
            ImplReference::TraitImpl(t, ms) => ImplRefView::TraitImpl(t@, signatures_view(ms@)),
            ImplReference::InherentMethod(m) => ImplRefView::InherentMethod(m@),
        }
    }
}

fn copy_signatures(ms: &Vec<MethodSignature>) -> (r: Vec<MethodSignature>)
    ensures
        signatures_view(r@) == signatures_view(ms@),
{
    let mut out: Vec<MethodSignature> = Vec::new();
    let mut i: usize = 0;
    while i < ms.len()
        invariant
            i <= ms@.len(),
            out@.len() == i,
            forall|k: int| 0 <= k < i ==> (#[trigger] out@[k])@ == ms@[k]@,
        decreases ms@.len() - i,
    {
        out.push(ms[i].clone());
        i = i + 1;
    }
    assert(signatures_view(out@) =~= signatures_view(ms@));
    out
}

impl Clone for ImplReference {
    fn clone(&self) -> (r: Self)
        ensures
            r@ == self@,
    {
        match self {
            ImplReference::Marker(t) => ImplReference::Marker(t.clone()),
            ImplReference::TraitImpl(t, ms) => ImplReference::TraitImpl(t.clone(), copy_signatures(ms)),
            ImplReference::InherentMethod(m) => ImplReference::InherentMethod(m.clone()),
        }
    }
}

/// The trait an entry names, if any.
pub open spec fn entry_trait(e: ImplRefView) -> Option<Seq<char>> {
    match e {
        ImplRefView::Marker(t) => Some(t),
        ImplRefView::TraitImpl(t, _) => Some(t),
        ImplRefView::InherentMethod(_) => None,
    }
}

/// The method signatures an entry references.
pub open spec fn entry_methods(e: ImplRefView) -> Seq<SignatureView> {
    match e {
        ImplRefView::Marker(_) => Seq::empty(),
        ImplRefView::TraitImpl(_, ms) => ms,
        ImplRefView::InherentMethod(m) => seq![m],
    }
}

pub enum KeyView {
    Trait(Seq<char>),
    Method(Seq<char>),
}

/// The composition identity of an entry: a trait entry keys on its trait
/// name, an inherent method on its full signature rendering.
pub open spec fn composition_key_of(e: ImplRefView) -> KeyView {
    match e {
        ImplRefView::Marker(t) => KeyView::Trait(t),
        ImplRefView::TraitImpl(t, _) => KeyView::Trait(t),
        ImplRefView::InherentMethod(m) => KeyView::Method(signature_text(m)),
    }
}

/// A marker and a trait impl of one trait compose as the same entry,
/// whatever methods the impl lists; an inherent method keys on its
/// rendering, and never collides with a trait entry.
pub proof fn lemma_composition_keys(t: Seq<char>, ms: Seq<SignatureView>, m: SignatureView, e: ImplRefView)
    ensures
        composition_key_of(ImplRefView::Marker(t)) == composition_key_of(ImplRefView::TraitImpl(t, ms)),
        composition_key_of(ImplRefView::Marker(t)) == KeyView::Trait(t),
        composition_key_of(ImplRefView::InherentMethod(m)) == KeyView::Method(signature_text(m)),
        composition_key_of(e) is Trait <==> !(e is InherentMethod),
{
}

/// The label of an entry in the duplicate-entry error.
pub open spec fn label_of(e: ImplRefView) -> Seq<char> {
    match e {
        ImplRefView::Marker(t) => t,
        ImplRefView::TraitImpl(t, _) => t,
        ImplRefView::InherentMethod(m) => signature_text(m),
    }
}

/// Returns the one-element slice holding `x` (`std::slice::from_ref`).
#[verifier::external_body]
fn slice_of_one<T>(x: &T) -> (r: &[T])
    ensures
        r@ == seq![*x],
{
    std::slice::from_ref(x)
}

impl ImplReference {
    /// The trait this entry names, if any.
    pub fn trait_name(&self) -> (r: Option<&Name>)
        ensures
            self is InherentMethod <==> r is None,
            r matches Some(t) ==> t@ == entry_trait(self@).unwrap(),
            entry_trait(self@) is None <==> r is None,
    {
        match self {
            ImplReference::Marker(trait_name) => Some(trait_name),
            ImplReference::TraitImpl(trait_name, _) => Some(trait_name),
            ImplReference::InherentMethod(_) => None,
        }
    }

    /// The method signatures this entry references.
    pub fn methods(&self) -> (r: &[MethodSignature])
        ensures
            signatures_view(r@) == entry_methods(self@),
    {
        match self {
            ImplReference::Marker(_) => {
                let r: &[MethodSignature] = &[];
                assert(signatures_view(r@) =~= entry_methods(self@));
                r
            },
            ImplReference::TraitImpl(_, methods) => methods.as_slice(),
            ImplReference::InherentMethod(signature) => {
                let r = slice_of_one(signature);
                assert(signatures_view(r@) =~= entry_methods(self@));
                r
            },
        }
    }

    /// The composition identity of this entry.
    pub fn composition_key(&self) -> (r: ImplCompositionKey)
        ensures
            r@ == composition_key_of(self@),
    {
        match self {
            ImplReference::Marker(trait_name) => ImplCompositionKey::Trait(
                trait_name.as_str().to_owned(),
            ),
            ImplReference::TraitImpl(trait_name, _) => ImplCompositionKey::Trait(
                trait_name.as_str().to_owned(),
            ),
            ImplReference::InherentMethod(signature) => ImplCompositionKey::Method(signature.render()),
        }
    }

    /// A short label naming this entry.
    pub fn label(&self) -> (r: String)
        ensures
            r@ == label_of(self@),
    {
        match self {
            ImplReference::Marker(trait_name) => trait_name.as_str().to_owned(),
            ImplReference::TraitImpl(trait_name, _) => trait_name.as_str().to_owned(),
            ImplReference::InherentMethod(signature) => signature.render(),
        }
    }
}

/// The composition identity of an impl entry under one target.
#[derive(Debug, Eq)]
pub enum ImplCompositionKey {
    Trait(String),
    Method(String),
}

impl View for ImplCompositionKey {
    type V = KeyView;

    open spec fn view(&self) -> KeyView {
        match self {
            ImplCompositionKey::Trait(s) => KeyView::Trait(s@),
            ImplCompositionKey::Method(s) => KeyView::Method(s@),
        }
    }
}

impl Clone for ImplCompositionKey {
    fn clone(&self) -> (r: Self)
        ensures
            r == *self,
    {
        match self {
            ImplCompositionKey::Trait(s) => ImplCompositionKey::Trait(s.clone()),
            ImplCompositionKey::Method(s) => ImplCompositionKey::Method(s.clone()),
        }
    }
}

impl PartialEq for ImplCompositionKey {
    fn eq(&self, other: &Self) -> (r: bool) {
        match (self, other) {
            (ImplCompositionKey::Trait(a), ImplCompositionKey::Trait(b)) => crate::text::str_equal(
                a.as_str(),
                b.as_str(),
            ),
            (ImplCompositionKey::Method(a), ImplCompositionKey::Method(b)) => crate::text::str_equal(
                a.as_str(),
                b.as_str(),
            ),
            _ => false,
        }
    }
}

impl vstd::std_specs::cmp::PartialEqSpecImpl for ImplCompositionKey {
    open spec fn obeys_eq_spec() -> bool {
        true
    }

    open spec fn eq_spec(&self, other: &Self) -> bool {
        self@ == other@
    }
}

// ---------------------------------------------------------------- catalogs
pub open spec fn entries_view(es: Seq<ImplReference>) -> Seq<ImplRefView> {
    es.map_values(|e: ImplReference| e@)
}

/// A lowered impl catalog: the entries one type references.
#[derive(Debug)]
pub struct ImplCatalog {
    entries: Vec<ImplReference>,
}

impl View for ImplCatalog {
    type V = Seq<ImplRefView>;

    closed spec fn view(&self) -> Seq<ImplRefView> {
        entries_view(self.entries@)
    }
}

impl ImplCatalog {
    pub closed spec fn spec_entries(&self) -> Seq<ImplReference> {
        self.entries@
    }

    /// The view spelled out over the parts.
    pub proof fn lemma_view(&self)
        ensures
            self@ == entries_view(self.spec_entries()),
            self@.len() == self.spec_entries().len(),
    {
    }

    pub fn empty() -> (r: Self)
        ensures
            r.spec_entries().len() == 0,
            r@.len() == 0,
    {
        ImplCatalog { entries: Vec::new() }
    }

    pub fn new(entries: Vec<ImplReference>) -> (r: Self)
        ensures
            r.spec_entries() == entries@,
            r@ == entries_view(entries@),
    {
        ImplCatalog { entries }
    }

    pub fn entries(&self) -> (r: &[ImplReference])
        ensures
            r@ == self.spec_entries(),
    {
        self.entries.as_slice()
    }

    pub fn is_empty(&self) -> (r: bool)
        ensures
            r == (self.spec_entries().len() == 0),
    {
        self.entries.len() == 0
    }
}

/// A standalone impl block for a type declared elsewhere.
#[derive(Debug)]
pub struct ImplBlock {
    target: Name,
    catalog: ImplCatalog,
}

impl ImplBlock {
    pub closed spec fn spec_target(&self) -> Name {
        self.target
    }

    pub closed spec fn spec_catalog(&self) -> ImplCatalog {
        self.catalog
    }

    pub fn new(target: Name, catalog: ImplCatalog) -> (r: Self)
        ensures
            r.spec_target() == target,
            r.spec_catalog() == catalog,
    {
        ImplBlock { target, catalog }
    }

    pub fn target(&self) -> (r: &Name)
        ensures
            *r == self.spec_target(),
    {
        &self.target
    }

    pub fn catalog(&self) -> (r: &ImplCatalog)
        ensures
            *r == self.spec_catalog(),
    {
        &self.catalog
    }
}

/// One entry of the schema-wide impl manifest with the type it targets.
#[derive(Clone, Copy, Debug)]
pub struct ReferencedImpl<'schema> {
    target: &'schema Name,
    entry: &'schema ImplReference,
}

impl<'schema> View for ReferencedImpl<'schema> {
    type V = (Seq<char>, ImplRefView);

    closed spec fn view(&self) -> (Seq<char>, ImplRefView) {
        (self.target@, self.entry@)
    }
}

impl<'schema> ReferencedImpl<'schema> {
    pub fn new(target: &'schema Name, entry: &'schema ImplReference) -> (r: Self)
        ensures
            r@ == (target@, entry@),
    {
        ReferencedImpl { target, entry }
    }

    pub fn target(&self) -> (r: &Name)
        ensures
            r@ == self@.0,
    {
        self.target
    }

    pub fn entry(&self) -> (r: &ImplReference)
        ensures
            r@ == self@.1,
    {
        self.entry
    }
}

// ---------------------------------------------------------------- surface
/// One fact about the impls present on the Rust side.
#[derive(Debug)]
pub enum ImplFact {
    Trait { type_ident: Name, trait_name: Name },
    Method { type_ident: Name, signature: MethodSignature },
}

impl Clone for ImplFact {
    fn clone(&self) -> (r: Self)
        ensures
            r@ == self@,
    {
        match self {
            ImplFact::Trait { type_ident, trait_name } => ImplFact::Trait {
                type_ident: type_ident.clone(),
                trait_name: trait_name.clone(),
            },
            ImplFact::Method { type_ident, signature } => ImplFact::Method {
                type_ident: type_ident.clone(),
                signature: signature.clone(),
            },
        }
    }
}

pub enum FactView {
    Trait(Seq<char>, Seq<char>),
    Method(Seq<char>, SignatureView),
}

impl View for ImplFact {
    type V = FactView;

    open spec fn view(&self) -> FactView {
        match self {
            ImplFact::Trait { type_ident, trait_name } => FactView::Trait(type_ident@, trait_name@),
            ImplFact::Method { type_ident, signature } => FactView::Method(type_ident@, signature@),
        }
    }
}

impl ImplFact {
    pub fn trait_impl(type_ident: Name, trait_name: Name) -> (r: Self)
        ensures
            r@ == FactView::Trait(type_ident@, trait_name@),
    {
        ImplFact::Trait { type_ident, trait_name }
    }

    pub fn method(type_ident: Name, signature: MethodSignature) -> (r: Self)
        ensures
            r@ == FactView::Method(type_ident@, signature@),
    {
        ImplFact::Method { type_ident, signature }
    }
}

pub open spec fn facts_view(fs: Seq<ImplFact>) -> Seq<FactView> {
    fs.map_values(|f: ImplFact| f@)
}

} // verus!
