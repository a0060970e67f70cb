//! Name resolution for source references: a name written inside a nested
//! namespace means the deepest enclosing declaration of that name, and an
//! application of a builtin generic becomes the builtin itself.
use vstd::prelude::*;

use crate::lookup::{first_match, lemma_first_match_at, lemma_first_match_none};
use crate::module::colon_joined;
use crate::name::{Name, has_colon, segments_of};
use crate::reference::{HeadView, TypeRefView, TypeReference, ApplicationHead, lemma_references_view, references_view};
use crate::schema::names_view;
use crate::source::{
    SourceGenericBuiltin, SourceRefView, SourceReference, lemma_source_views, source_view,
    source_views, type_of_name,
};
use crate::text::{parse_u64, push_char};

verus! {

/// What resolution needs of a generic definition: which builtin it is, or
/// how many parameters its frame takes.
#[derive(Clone, Copy, Debug, PartialEq, Eq, Structural)]
pub enum GenericShape {
    Vector,
    Optional,
    ScopeOf,
    MapOf,
    FixedBytes,
    Frame(usize),
}

pub open spec fn shape_count(s: GenericShape) -> nat {
    match s {
        GenericShape::MapOf => 2,
        GenericShape::Frame(n) => n as nat,
        _ => 1,
    }
}

pub open spec fn shape_of(b: SourceGenericBuiltin) -> GenericShape {
    match b {
        SourceGenericBuiltin::Vector => GenericShape::Vector,
        SourceGenericBuiltin::Optional => GenericShape::Optional,
        SourceGenericBuiltin::ScopeOf => GenericShape::ScopeOf,
        SourceGenericBuiltin::MapOf => GenericShape::MapOf,
        SourceGenericBuiltin::FixedBytes => GenericShape::FixedBytes,
        SourceGenericBuiltin::Frame { parameters, .. } => GenericShape::Frame(parameters@.len() as usize),
    }
}

impl GenericShape {
    pub fn of_builtin(builtin: &SourceGenericBuiltin) -> (r: Self)
        ensures
            r == shape_of(*builtin),
    {
        match builtin {
            SourceGenericBuiltin::Vector => GenericShape::Vector,
            SourceGenericBuiltin::Optional => GenericShape::Optional,
            SourceGenericBuiltin::ScopeOf => GenericShape::ScopeOf,
            SourceGenericBuiltin::MapOf => GenericShape::MapOf,
            SourceGenericBuiltin::FixedBytes => GenericShape::FixedBytes,
            SourceGenericBuiltin::Frame { parameters, .. } => GenericShape::Frame(parameters.len()),
        }
    }

    pub fn count(self) -> (r: usize)
        ensures
            r == shape_count(self),
    {
        match self {
            GenericShape::MapOf => 2,
            GenericShape::Frame(n) => n,
            _ => 1,
        }
    }
}

/// The names a scope resolves against and the generic definitions in scope.
pub struct ScopeView {
    pub names: Seq<Seq<char>>,
    pub generics: Seq<(Seq<char>, GenericShape)>,
}

/// A resolution scope.
#[derive(Debug)]
pub struct NameScope {
    pub names: Vec<Name>,
    pub generics: Vec<(Name, GenericShape)>,
}

pub open spec fn generics_view(gs: Seq<(Name, GenericShape)>) -> Seq<(Seq<char>, GenericShape)> {
    gs.map_values(|g: (Name, GenericShape)| (g.0@, g.1))
}

impl View for NameScope {
    type V = ScopeView;

    open spec fn view(&self) -> ScopeView {
        ScopeView {
            names: names_view(self.names@),
            generics: generics_view(self.generics@),
        }
    }
}

pub open spec fn namespace_view(ns: Option<&Name>) -> Option<Seq<char>> {
    match ns {
        Some(n) => Some(n@),
        None => None,
    }
}

pub open spec fn scope_has(sc: ScopeView, n: Seq<char>) -> bool {
    sc.names.contains(n)
}

/// `n` under the first `k` segments of a namespace.
pub open spec fn scoped_candidate(segs: Seq<Seq<char>>, k: int, n: Seq<char>) -> Seq<char> {
    colon_joined(segs.take(k)) + seq![':'] + n
}

/// The deepest of `n` under the first `k`, `k - 1`, …, `1` segments that the
/// scope declares.
pub open spec fn deepest_scoped(sc: ScopeView, segs: Seq<Seq<char>>, k: nat, n: Seq<char>) -> Option<Seq<char>>
    decreases k,
{
    if k == 0 {
        None
    } else if scope_has(sc, scoped_candidate(segs, k as int, n)) {
        Some(scoped_candidate(segs, k as int, n))
    } else {
        deepest_scoped(sc, segs, (k - 1) as nat, n)
    }
}

/// The name a reference inside a namespace means: a qualified name means
/// itself; an unqualified one means its deepest declared qualification
/// under the enclosing namespace, or itself when there is none.
pub open spec fn visible_name(sc: ScopeView, ns: Option<Seq<char>>, n: Seq<char>) -> Seq<char> {
    if has_colon(n) {
        n
    } else {
        match ns {
            Some(s) => match deepest_scoped(sc, segments_of(s), segments_of(s).len(), n) {
                Some(c) => c,
                None => n,
            },
            None => n,
        }
    }
}

pub open spec fn resolve_name_in(sc: ScopeView, ns: Option<Seq<char>>, n: Seq<char>) -> TypeRefView {
    type_of_name(visible_name(sc, ns, n))
}

/// The predicate "is the generic spelled `n`".
pub open spec fn generic_spelled(n: Seq<char>) -> spec_fn((Seq<char>, GenericShape)) -> bool {
    |g: (Seq<char>, GenericShape)| g.0 == n
}

pub open spec fn local_application(head: Seq<char>, args: Seq<TypeRefView>) -> TypeRefView {
    TypeRefView::Application { head: HeadView::Local(head), arguments: args }
}

/// An application of a generic of the given shape, with the right number of
/// arguments: a builtin becomes its own form; a frame stays an application;
/// a fixed width must be a number to become fixed bytes.
pub open spec fn apply_shape(head: Seq<char>, shape: GenericShape, args: Seq<TypeRefView>) -> TypeRefView {
    match shape {
        GenericShape::Vector => TypeRefView::Vector(Box::new(args[0])),
        GenericShape::Optional => TypeRefView::Optional(Box::new(args[0])),
        GenericShape::ScopeOf => TypeRefView::ScopeOf(Box::new(args[0])),
        GenericShape::MapOf => TypeRefView::MapOf(Box::new(args[0]), Box::new(args[1])),
        GenericShape::FixedBytes => match args[0] {
            TypeRefView::Plain(width) => match parse_u64(width) {
                Some(w) => TypeRefView::FixedBytes(w),
                None => local_application(head, args),
            },
            _ => local_application(head, args),
        },
        GenericShape::Frame(_) => local_application(head, args),
    }
}

/// An application whose head and arguments have been resolved.
pub open spec fn resolve_application(sc: ScopeView, head: Seq<char>, args: Seq<TypeRefView>) -> TypeRefView {
    match first_match(sc.generics, generic_spelled(head)) {
        Some(k) => if shape_count(sc.generics[k].1) == args.len() {
            apply_shape(head, sc.generics[k].1, args)
        } else {
            local_application(head, args)
        },
        None => local_application(head, args),
    }
}

/// The lowered reference a source reference means in a scope and namespace.
pub open spec fn resolve_in(sc: ScopeView, ns: Option<Seq<char>>, r: SourceRefView) -> TypeRefView
    decreases r, 1nat,
{
    match r {
        SourceRefView::Plain(name) => resolve_name_in(sc, ns, name),
        SourceRefView::FixedBytes(width) => TypeRefView::FixedBytes(width),
        SourceRefView::Vector(inner) => TypeRefView::Vector(Box::new(resolve_in(sc, ns, *inner))),
        SourceRefView::Optional(inner) => TypeRefView::Optional(Box::new(resolve_in(sc, ns, *inner))),
        SourceRefView::ScopeOf(inner) => TypeRefView::ScopeOf(Box::new(resolve_in(sc, ns, *inner))),
        SourceRefView::MapOf(key, value) => TypeRefView::MapOf(
            Box::new(resolve_in(sc, ns, *key)),
            Box::new(resolve_in(sc, ns, *value)),
        ),
        SourceRefView::Application { head, arguments } => resolve_application(
            sc,
            visible_name(sc, ns, head),
            resolve_all_in(sc, ns, arguments),
        ),
    }
}

pub open spec fn resolve_all_in(sc: ScopeView, ns: Option<Seq<char>>, rs: Seq<SourceRefView>) -> Seq<TypeRefView>
    decreases rs, 0nat,
{
    if rs.len() == 0 {
        Seq::empty()
    } else {
        resolve_all_in(sc, ns, rs.drop_last()).push(resolve_in(sc, ns, rs.last()))
    }
}

proof fn lemma_resolve_all_len(sc: ScopeView, ns: Option<Seq<char>>, rs: Seq<SourceRefView>)
    ensures
        resolve_all_in(sc, ns, rs).len() == rs.len(),
    decreases rs.len(),
{
    if rs.len() > 0 {
        lemma_resolve_all_len(sc, ns, rs.drop_last());
    }
}

proof fn lemma_resolve_all_step(sc: ScopeView, ns: Option<Seq<char>>, rs: Seq<SourceRefView>, i: int)
    requires
        0 <= i < rs.len(),
    ensures
        resolve_all_in(sc, ns, rs.take(i + 1)) == resolve_all_in(sc, ns, rs.take(i)).push(
            resolve_in(sc, ns, rs[i]),
        ),
{
    assert(rs.take(i + 1).drop_last() =~= rs.take(i));
}

impl NameScope {
    pub fn new(names: Vec<Name>, generics: Vec<(Name, GenericShape)>) -> (r: Self)
        ensures
            r.names == names,
            r.generics == generics,
    {
        NameScope { names, generics }
    }

    /// Whether the scope declares the name.
    pub fn has_name(&self, name: &Name) -> (r: bool)
        ensures
            r == scope_has(self@, name@),
    {
        let mut i: usize = 0;
        while i < self.names.len()
            invariant
                i <= self.names@.len(),
                forall|k: int| 0 <= k < i ==> self.names@[k]@ != name@,
            decreases self.names@.len() - i,
        {
            if self.names[i] == *name {
                proof {
                    assert(names_view(self.names@)[i as int] == name@);
                }
                return true;
            }
            i = i + 1;
        }
        proof {
            if names_view(self.names@).contains(name@) {
                let k = choose|k: int| 0 <= k < names_view(self.names@).len() && names_view(self.names@)[k] == name@;
                assert(self.names@[k]@ == name@);
            }
        }
        false
    }

    /// The deepest declared qualification of `name` under `namespace`.
    fn deepest_scoped_name(&self, namespace: &Name, name: &Name) -> (r: Option<Name>)
        ensures
            match deepest_scoped(self@, segments_of(namespace@), segments_of(namespace@).len(), name@) {
                Some(c) => r is Some && r.unwrap()@ == c,
                None => r is None,
            },
    {
        let segments = namespace.namespace_segments();
        let ghost segs = segments_of(namespace@);
        assert(segments@.map_values(|x: &str| x@) == segs);
        let mut count: usize = segments.len();
        while count > 0
            invariant
                count <= segments@.len(),
                segments@.map_values(|x: &str| x@) == segs,
                segs == segments_of(namespace@),
                deepest_scoped(self@, segs, segs.len(), name@) == deepest_scoped(
                    self@,
                    segs,
                    count as nat,
                    name@,
                ),
            decreases count,
        {
            let mut candidate = String::new();
            let mut j: usize = 0;
            while j < count
                invariant
                    j <= count <= segments@.len(),
                    segments@.map_values(|x: &str| x@) == segs,
                    candidate@ == colon_joined(segs.take(j as int)),
                    count > 0,
                    segs == segments_of(namespace@),
                    deepest_scoped(self@, segs, segs.len(), name@) == deepest_scoped(
                        self@,
                        segs,
                        count as nat,
                        name@,
                    ),
                decreases count - j,
            {
                let ghost before = candidate@;
                if j > 0 {
                    push_char(&mut candidate, ':');
                }
                candidate.append(segments[j]);
                proof {
                    assert(segs[j as int] == segments@[j as int]@);
                    let t = segs.take(j + 1);
                    assert(t.drop_last() =~= segs.take(j as int));
                    if j == 0 {
                        assert(candidate@ =~= t[0]);
                    } else {
                        assert(candidate@ =~= colon_joined(t.drop_last()) + seq![':'] + t.last());
                    }
                }
                j = j + 1;
            }
            push_char(&mut candidate, ':');
            candidate.append(name.as_str());
            let candidate = Name::from_string(candidate);
            assert(candidate@ =~= scoped_candidate(segs, count as int, name@));
            if self.has_name(&candidate) {
                proof {
                    assert(deepest_scoped(self@, segs, count as nat, name@) == Some(
                        scoped_candidate(segs, count as int, name@),
                    ));
                }
                return Some(candidate);
            }
            count = count - 1;
        }
        None
    }

    /// The name a reference inside `namespace` means.
    pub fn visible_name(&self, namespace: Option<&Name>, name: &Name) -> (r: Name)
        ensures
            r@ == visible_name(self@, namespace_view(namespace), name@),
    {
        if name.has_namespace() {
            return name.clone();
        }
        match namespace {
            Some(namespace) => match self.deepest_scoped_name(namespace, name) {
                Some(scoped) => scoped,
                None => name.clone(),
            },
            None => name.clone(),
        }
    }

    /// The reference a bare name means inside `namespace`.
    pub fn resolve_name(&self, namespace: Option<&Name>, name: &Name) -> (r: TypeReference)
        ensures
            r@ == resolve_name_in(self@, namespace_view(namespace), name@),
    {
        TypeReference::from_name(self.visible_name(namespace, name))
    }

    /// The first generic definition of the given name.
    fn generic_named(&self, name: &Name) -> (r: Option<GenericShape>)
        ensures
            match first_match(self@.generics, generic_spelled(name@)) {
                Some(k) => r == Some(self@.generics[k].1),
                None => r is None,
            },
    {
        let ghost v = self@.generics;
        let ghost p = generic_spelled(name@);
        let mut i: usize = 0;
        while i < self.generics.len()
            invariant
                i <= self.generics@.len(),
                v == generics_view(self.generics@),
                p == generic_spelled(name@),
                forall|k: int| 0 <= k < i ==> !#[trigger] p(v[k]),
            decreases self.generics@.len() - i,
        {
            if self.generics[i].0 == *name {
                proof {
                    lemma_first_match_at(v, p, i as int);
                }
                return Some(self.generics[i].1);
            }
            i = i + 1;
        }
        proof {
            lemma_first_match_none(v, p);
        }
        None
    }

    /// A resolved application of `head` to `arguments`.
    fn apply(&self, head: Name, arguments: Vec<TypeReference>) -> (r: TypeReference)
        ensures
            r@ == resolve_application(self@, head@, references_view(arguments@)),
    {
        proof {
            lemma_references_view(arguments@);
            crate::reference::lemma_local_head_view(head);
        }
        let shape = match self.generic_named(&head) {
            Some(shape) => shape,
            None => {
                return TypeReference::Application { head: ApplicationHead::Local(head), arguments };
            },
        };
        if shape.count() != arguments.len() {
            return TypeReference::Application { head: ApplicationHead::Local(head), arguments };
        }
        let mut arguments = arguments;
        let ghost all = references_view(arguments@);
        match shape {
            GenericShape::Vector => TypeReference::Vector(Box::new(arguments.remove(0))),
            GenericShape::Optional => TypeReference::Optional(Box::new(arguments.remove(0))),
            GenericShape::ScopeOf => TypeReference::ScopeOf(Box::new(arguments.remove(0))),
            GenericShape::MapOf => {
                let value = arguments.remove(1);
                let key = arguments.remove(0);
                TypeReference::MapOf(Box::new(key), Box::new(value))
            },
            GenericShape::FixedBytes => {
                let width = match &arguments[0] {
                    TypeReference::Plain(width) => crate::text::parse_u64_text(width.as_str()),
                    _ => None,
                };
                match width {
                    Some(w) => TypeReference::FixedBytes(w),
                    None => TypeReference::Application { head: ApplicationHead::Local(head), arguments },
                }
            },
            GenericShape::Frame(_) => TypeReference::Application {
                head: ApplicationHead::Local(head),
                arguments,
            },
        }
    }

    /// The lowered reference a source reference means inside `namespace`.
    pub fn resolve_reference(&self, namespace: Option<&Name>, reference: &SourceReference) -> (r: TypeReference)
        ensures
            r@ == resolve_in(self@, namespace_view(namespace), reference@),
        decreases reference,
    {
        match reference {
            SourceReference::Plain(name) => self.resolve_name(namespace, name),
            SourceReference::FixedBytes(width) => TypeReference::FixedBytes(*width),
            SourceReference::Vector(inner) => TypeReference::Vector(
                Box::new(self.resolve_reference(namespace, inner)),
            ),
            SourceReference::Optional(inner) => TypeReference::Optional(
                Box::new(self.resolve_reference(namespace, inner)),
            ),
            SourceReference::ScopeOf(inner) => TypeReference::ScopeOf(
                Box::new(self.resolve_reference(namespace, inner)),
            ),
            SourceReference::MapOf(key, value) => TypeReference::MapOf(
                Box::new(self.resolve_reference(namespace, key)),
                Box::new(self.resolve_reference(namespace, value)),
            ),
            SourceReference::Application { head, arguments } => {
                let ghost ns = namespace_view(namespace);
                proof {
                    lemma_source_views(arguments@);
                }
                let visible = self.visible_name(namespace, head);
                let mut resolved: Vec<TypeReference> = Vec::new();
                let mut i: usize = 0;
                while i < arguments.len()
                    invariant
                        i <= arguments@.len(),
                        reference matches SourceReference::Application { arguments: a, .. } && a
                            == *arguments,
                        ns == namespace_view(namespace),
                        source_views(arguments@).len() == arguments@.len(),
                        forall|k: int|
                            0 <= k < arguments@.len() ==> #[trigger] source_views(arguments@)[k]
                                == source_view(arguments@[k]),
                        references_view(resolved@) == resolve_all_in(
                            self@,
                            ns,
                            source_views(arguments@).take(i as int),
                        ),
                    decreases arguments@.len() - i,
                {
                    proof {
                        vstd::std_specs::vec::axiom_vec_index_decreases(*arguments, i as int);
                        assert(decreases_to!(*reference => *arguments));
                    }
                    let t = self.resolve_reference(namespace, &arguments[i]);
                    let ghost before = resolved@;
                    resolved.push(t);
                    proof {
                        assert(resolved@.drop_last() =~= before);
                        lemma_resolve_all_step(self@, ns, source_views(arguments@), i as int);
                    }
                    i = i + 1;
                }
                proof {
                    assert(source_views(arguments@).take(i as int) =~= source_views(arguments@));
                }
                self.apply(visible, resolved)
            },
        }
    }
}

} // verus!
